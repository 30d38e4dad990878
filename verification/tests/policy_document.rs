use capable::aggregate::CapSetEntry;
use capable::capset::{get_cap, CapSet};
use capable::nstree::program_capabilities;
use capable::policy::{
    capabilities_row, process_data_map, program_result, saw_ptrace, Identity,
};
use capable::strace::{Parameter, ReturnCode, Syscall};
use capable::symbols::KernelSymbols;
use capable::syscalls::{Access, SyscallAccessEntry};

fn call(name: &str) -> Syscall {
    Syscall {
        syscall: name.to_string(),
        args: vec![Parameter::Constant("PTRACE_SEIZE".to_string())],
        return_code: ReturnCode { code: 0, constant: None, message: None },
    }
}

#[test]
fn trivial_command_needs_nothing() {
    let table = KernelSymbols::from_sorted(Vec::new()).unwrap();
    let set = program_capabilities(4026531836, &Vec::new(), &table).unwrap();
    let policy = program_result(set, &Vec::new(), &Vec::new(), Vec::new(), Vec::new());
    assert!(policy.capabilities.is_empty());
    assert!(policy.files.is_empty());
    assert!(policy.dbus.is_empty());
    assert!(policy.env_vars.is_empty());
}

#[test]
fn ptrace_is_added_only_when_traced() {
    assert!(!saw_ptrace(&Vec::new()));
    assert!(!saw_ptrace(&vec![call("open"), call("ptrace_x")]));
    assert!(saw_ptrace(&vec![call("open"), call(" ptrace\t")]));
    let mut set = CapSet::empty();
    set.add(get_cap(0).unwrap());
    let quiet = program_result(set, &vec![call("open")], &Vec::new(), Vec::new(), Vec::new());
    assert_eq!(quiet.capabilities, vec!["CAP_CHOWN"]);
    let traced = program_result(set, &vec![call("ptrace")], &Vec::new(), Vec::new(), Vec::new());
    assert_eq!(traced.capabilities, vec!["CAP_CHOWN", "CAP_SYS_PTRACE"]);
    let mut nearly = CapSet::full();
    nearly = CapSet::from_bitmask_truncate(nearly.bits() & !(1 << 19));
    let all = program_result(nearly, &vec![call("ptrace")], &Vec::new(), Vec::new(), Vec::new());
    assert_eq!(all.capabilities, vec!["ALL"]);
}

#[test]
fn policy_carries_files_methods_and_environment() {
    let entries = vec![
        SyscallAccessEntry {
            path: "/etc/passwd".into(),
            access: Access::from_bits_truncate(4),
            syscall: "open".into(),
        },
        SyscallAccessEntry {
            path: "/etc/passwd".into(),
            access: Access::from_bits_truncate(2),
            syscall: "open".into(),
        },
    ];
    let dbus = vec!["org.a.B.Stop".to_string()];
    let env = vec![("HOME".to_string(), "/root".to_string())];
    let policy = program_result(CapSet::empty(), &Vec::new(), &entries, dbus.clone(), env.clone());
    assert_eq!(policy.files.len(), 1);
    assert_eq!(policy.files[0].0, "/etc/passwd");
    assert_eq!(policy.files[0].1.to_text(), "RW");
    assert_eq!(policy.dbus, dbus);
    assert_eq!(policy.env_vars, env);
}

#[test]
fn table_row_of_an_entry() {
    let mut entry = CapSetEntry::new(12, 1, 1000, 100, 4026531836, 4026532100);
    entry.add(get_cap(12).unwrap());
    entry.add(get_cap(13).unwrap());
    let known = Identity {
        name: "/usr/bin/ping".to_string(),
        username: Some("alice".to_string()),
        groupname: None,
    };
    let row = capabilities_row(&entry, &known);
    assert_eq!(row.pid, 12);
    assert_eq!(row.ppid, 1);
    assert_eq!(row.uid, "alice");
    assert_eq!(row.gid, "100");
    assert_eq!(row.ns, 4026532100);
    assert_eq!(row.parent_ns, 4026531836);
    assert_eq!(row.name, "/usr/bin/ping");
    assert_eq!(row.capabilities, "CAP_NET_ADMIN CAP_NET_RAW");
    let unknown = Identity { name: String::new(), username: None, groupname: None };
    let row = capabilities_row(&CapSetEntry::new(1, 0, u32::MAX, 0, 1, 1), &unknown);
    assert_eq!(row.uid, "4294967295");
    assert_eq!(row.gid, "0");
    assert_eq!(row.capabilities, "");
}

#[test]
fn table_gets_one_row_for_each_entry() {
    let entries = vec![
        CapSetEntry::new(1, 0, 0, 0, 1, 1),
        CapSetEntry::new(2, 1, 7, 8, 1, 2),
        CapSetEntry::new(3, 1, 0, 0, 2, 3),
    ];
    let who = |name: &str| Identity {
        name: name.to_string(),
        username: None,
        groupname: Some("wheel".to_string()),
    };
    let identities = vec![who("init"), who("sh")];
    let mut table = vec![capabilities_row(&entries[2], &who("first"))];
    process_data_map(&entries, &identities, &mut table);
    assert_eq!(table.len(), 3);
    assert_eq!(table[0].name, "first");
    assert_eq!((table[1].pid, table[1].name.as_str()), (1, "init"));
    assert_eq!((table[2].pid, table[2].name.as_str()), (2, "sh"));
    assert_eq!(table[2].uid, "7");
    assert_eq!(table[2].gid, "wheel");
    process_data_map(&Vec::new(), &identities, &mut table);
    assert_eq!(table.len(), 3);
}

fn is_white_space(c: char) -> bool {
    matches!(c,
        '\u{9}'..='\u{d}' | ' ' | '\u{85}' | '\u{a0}' | '\u{1680}' | '\u{2000}'..='\u{200a}'
        | '\u{2028}' | '\u{2029}' | '\u{202f}' | '\u{205f}' | '\u{3000}')
}

#[test]
fn names_are_trimmed_of_white_space_only() {
    let mut spaces = 0;
    for code in 0..=0x10ffffu32 {
        let c = match char::from_u32(code) {
            Some(c) => c,
            None => continue,
        };
        let dense = code < 0x3100 || code % 257 == 0;
        if !dense {
            continue;
        }
        let before = vec![call(&format!("{}ptrace", c))];
        let after = vec![call(&format!("ptrace{}", c))];
        assert_eq!(saw_ptrace(&before), is_white_space(c), "U+{:04X} in front", code);
        assert_eq!(saw_ptrace(&after), is_white_space(c), "U+{:04X} behind", code);
        if is_white_space(c) {
            spaces += 1;
        }
    }
    assert_eq!(spaces, 25);
    assert!(saw_ptrace(&vec![call("\t \u{2003}ptrace\u{3000}\n")]));
    assert!(!saw_ptrace(&vec![call("p trace")]));
    assert!(!saw_ptrace(&vec![call("  ")]));
}
