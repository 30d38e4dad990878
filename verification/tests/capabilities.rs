use capable::capset::{
    capset_to_string, capset_to_vec, get_cap, parse_capset_iter, CapParseError, CapSet, ALL_BITS,
};

fn set_of(indices: &[u8]) -> CapSet {
    let mut set = CapSet::empty();
    for i in indices {
        set.add(get_cap(*i).unwrap());
    }
    set
}

#[test]
fn empty_set_lists_nothing() {
    assert_eq!(capset_to_vec(&CapSet::empty()), Vec::<String>::new());
    assert_eq!(capset_to_string(&CapSet::empty()), "");
}

#[test]
fn labels_follow_the_kernel_table() {
    let set = set_of(&[0, 10, 40]);
    assert_eq!(
        capset_to_vec(&set),
        vec!["CAP_CHOWN", "CAP_NET_BIND_SERVICE", "CAP_CHECKPOINT_RESTORE"]
    );
    assert_eq!(
        capset_to_string(&set),
        "CAP_CHOWN CAP_NET_BIND_SERVICE CAP_CHECKPOINT_RESTORE"
    );
}

#[test]
fn every_index_has_its_own_label() {
    let expected = [
        "CHOWN", "DAC_OVERRIDE", "DAC_READ_SEARCH", "FOWNER", "FSETID", "KILL", "SETGID",
        "SETUID", "SETPCAP", "LINUX_IMMUTABLE", "NET_BIND_SERVICE", "NET_BROADCAST",
        "NET_ADMIN", "NET_RAW", "IPC_LOCK", "IPC_OWNER", "SYS_MODULE", "SYS_RAWIO",
        "SYS_CHROOT", "SYS_PTRACE", "SYS_PACCT", "SYS_ADMIN", "SYS_BOOT", "SYS_NICE",
        "SYS_RESOURCE", "SYS_TIME", "SYS_TTY_CONFIG", "MKNOD", "LEASE", "AUDIT_WRITE",
        "AUDIT_CONTROL", "SETFCAP", "MAC_OVERRIDE", "MAC_ADMIN", "SYSLOG", "WAKE_ALARM",
        "BLOCK_SUSPEND", "AUDIT_READ", "PERFMON", "BPF", "CHECKPOINT_RESTORE",
    ];
    for (i, name) in expected.iter().enumerate() {
        let cap = get_cap(i as u8).unwrap();
        assert_eq!(cap.index(), i as u8);
        assert_eq!(cap.name(), *name);
        assert_eq!(capset_to_vec(&set_of(&[i as u8])), vec![format!("CAP_{}", name)]);
    }
    assert!(get_cap(41).is_none());
    assert!(get_cap(255).is_none());
}

#[test]
fn whole_table_collapses_to_all() {
    let full = CapSet::full();
    assert!(full.is_all());
    assert_eq!(full.bits(), ALL_BITS);
    assert_eq!(capset_to_vec(&full), vec!["ALL"]);
    assert_eq!(capset_to_string(&full), "ALL");
    let mut built = CapSet::empty();
    for i in 0..41u8 {
        assert!(!capset_to_vec(&built).contains(&"ALL".to_string()));
        built.add(get_cap(i).unwrap());
    }
    assert_eq!(built, full);
    assert_eq!(capset_to_vec(&built), vec!["ALL"]);
}

#[test]
fn truncation_drops_bits_beyond_the_table() {
    let set = CapSet::from_bitmask_truncate(u64::MAX);
    assert_eq!(set, CapSet::full());
    let one = CapSet::from_bitmask_truncate((1u64 << 41) | 1);
    assert_eq!(one.bits(), 1);
    assert!(one.has(get_cap(0).unwrap()));
    assert!(!one.has(get_cap(1).unwrap()));
}

#[test]
fn union_and_add_are_bitwise_or() {
    let a = set_of(&[0, 7]);
    let b = set_of(&[7, 21]);
    assert_eq!(a.union(b).bits(), (1 << 0) | (1 << 7) | (1 << 21));
    let mut twice = a;
    twice.add(get_cap(7).unwrap());
    assert_eq!(twice, a);
    assert!(CapSet::empty().is_empty());
    assert!(!a.is_empty());
}

#[test]
fn parses_labels_in_any_case() {
    let parts = vec!["CAP_CHOWN".to_string(), "cap_sys_admin".to_string(), "Cap_Bpf".to_string()];
    assert_eq!(parse_capset_iter(&parts), Ok(set_of(&[0, 21, 39])));
    assert_eq!(parse_capset_iter(&Vec::new()), Ok(CapSet::empty()));
}

#[test]
fn rejects_the_first_unknown_label() {
    let parts = vec!["CAP_CHOWN".to_string(), "CHOWN".to_string(), "CAP_NOPE".to_string()];
    assert_eq!(parse_capset_iter(&parts), Err(CapParseError { position: 1 }));
    let parts = vec!["CAP_".to_string()];
    assert_eq!(parse_capset_iter(&parts), Err(CapParseError { position: 0 }));
    let parts = vec!["CAP_CHOWN".to_string(), "CAP\u{e9}CHOWN".to_string()];
    assert_eq!(parse_capset_iter(&parts), Err(CapParseError { position: 1 }));
    let parts = vec!["abc\u{e9}".to_string()];
    assert_eq!(parse_capset_iter(&parts), Err(CapParseError { position: 0 }));
}

#[test]
fn every_label_parses_to_its_own_index() {
    for i in 0..41u8 {
        let cap = get_cap(i).unwrap();
        let label = format!("CAP_{}", cap.name());
        assert_eq!(parse_capset_iter(&vec![label.clone()]), Ok(set_of(&[i])));
        assert_eq!(parse_capset_iter(&vec![label.to_lowercase()]), Ok(set_of(&[i])));
        assert!(parse_capset_iter(&vec![cap.name().to_string()]).is_err());
    }
}

#[test]
fn switching_a_capability_on_and_off() {
    let before = set_of(&[0, 21]);
    let mut state = before;
    state.set_state(get_cap(39).unwrap(), true);
    assert_eq!(state, set_of(&[0, 21, 39]));
    state.set_state(get_cap(39).unwrap(), false);
    assert_eq!(state, before);
    state.drop(get_cap(5).unwrap());
    assert_eq!(state, before);
    state.set_state(get_cap(21).unwrap(), true);
    state.set_state(get_cap(21).unwrap(), false);
    assert_eq!(state, set_of(&[0]));
}
