use capable::strace::{Parameter, ReturnCode, Syscall};
use capable::syscalls::{
    call_at, check_directories_access, find_rule, merge_accesses, plan_access, syscall_to_entry,
    Access, PathProbe, Pos, SyscallAccessEntry, CALLS_LEN,
};
use capable::text::contains_text;

fn call(name: &str, args: Vec<Parameter>, constant: Option<&str>) -> Syscall {
    Syscall {
        syscall: name.to_string(),
        args,
        return_code: ReturnCode {
            code: if constant.is_some() { -1 } else { 3 },
            constant: constant.map(|c| c.to_string()),
            message: None,
        },
    }
}

fn text(s: &str) -> Parameter {
    Parameter::String(s.to_string())
}

fn flag(s: &str) -> Parameter {
    Parameter::Constant(s.to_string())
}

fn probe(path: &str, mode: Option<u8>) -> PathProbe {
    PathProbe { path: path.to_string(), mode }
}

fn access(bits: u8) -> Access {
    Access::from_bits_truncate(bits)
}

fn shown(entries: &[SyscallAccessEntry]) -> Vec<(String, String, String)> {
    entries.iter().map(|e| (e.path.clone(), e.access.to_text(), e.syscall.clone())).collect()
}

fn row(path: &str, access: &str, syscall: &str) -> (String, String, String) {
    (path.to_string(), access.to_string(), syscall.to_string())
}

#[test]
fn access_letters_come_in_order() {
    let expected = ["", "X", "W", "WX", "R", "RX", "RW", "RWX"];
    for bits in 0..8u8 {
        assert_eq!(access(bits).to_text(), expected[bits as usize]);
        assert_eq!(access(bits).bits(), bits);
        assert_eq!(access(bits | 0xf8), access(bits));
    }
    assert!(Access::empty().is_empty());
    assert!(!access(1).is_empty());
    assert_eq!(access(4).union(access(2)), access(6));
    assert_eq!(access(6).intersection(access(3)), access(2));
    assert!(access(7).contains(access(5)));
    assert!(!access(5).contains(access(2)));
    assert!(access(5).contains(Access::empty()));
}

#[test]
fn table_holds_the_documented_rules() {
    assert_eq!(CALLS_LEN, 130);
    assert_eq!(call_at(0).0, "access");
    assert_eq!(call_at(129).0, "utimes");
    let rule = |name: &str| find_rule(name).map(|i| (call_at(i).1, call_at(i).2.to_text()));
    assert_eq!(rule("creat"), Some((Pos::One, "W".to_string())));
    assert_eq!(rule("execve"), Some((Pos::One, "RX".to_string())));
    assert_eq!(rule("linkat"), Some((Pos::Four, "W".to_string())));
    assert_eq!(rule("fanotify_mark"), Some((Pos::Five, "".to_string())));
    assert_eq!(rule("openat"), Some((Pos::Two, "".to_string())));
    assert_eq!(rule("readlinkat"), Some((Pos::Two, "R".to_string())));
    assert_eq!(rule("fstat"), None);
    assert_eq!(rule("mount"), None);
    assert_eq!(rule("write"), None);
    assert_eq!(rule(""), None);
    assert_eq!(Pos::Three.index(), Some(2));
    assert_eq!(Pos::Absent.index(), None);
    let mut names: Vec<&str> = (0..CALLS_LEN).map(|i| call_at(i).0).collect();
    names.dedup();
    assert_eq!(names.len(), 130);
}

#[test]
fn substrings_are_found() {
    assert!(contains_text("O_WRONLY|O_CREAT", "O_CREAT"));
    assert!(contains_text("O_WRONLY|O_CREAT", "O_WRONLY"));
    assert!(!contains_text("O_WRONLY|O_CREAT", "O_RDONLY"));
    assert!(contains_text("abc", ""));
    assert!(contains_text("", ""));
    assert!(!contains_text("ab", "abc"));
    assert!(contains_text("h\u{e9}llo", "llo"));
}

#[test]
fn open_flags_decide_the_access() {
    let plan = |flags: &str| {
        plan_access(&call("open", vec![text("/f"), flag(flags)], None))
            .map(|p| (p.access.to_text(), p.create_or_delete))
    };
    assert_eq!(plan("O_RDONLY"), Some(("R".to_string(), false)));
    assert_eq!(plan("O_WRONLY"), Some(("W".to_string(), false)));
    assert_eq!(plan("O_RDWR"), Some(("RW".to_string(), false)));
    assert_eq!(plan("O_WRONLY|O_CREAT"), Some(("W".to_string(), true)));
    assert_eq!(plan("O_RDONLY|O_CREAT|O_CLOEXEC"), Some(("RW".to_string(), true)));
    assert_eq!(plan("O_PATH"), None);
    let at = call("openat", vec![flag("AT_FDCWD"), text("/g"), flag("O_RDWR")], None);
    let plan = plan_access(&at).unwrap();
    assert_eq!(plan.path, "/g");
    assert_eq!(plan.access, access(6));
    let two = call("openat", vec![flag("AT_FDCWD"), text("O_RDONLY")], None);
    assert!(plan_access(&two).is_none());
}

#[test]
fn open_with_a_mode_reads_its_flags_not_its_mode() {
    let made = call("open", vec![text("/p"), flag("O_WRONLY|O_CREAT"), flag("0644")], None);
    let plan = plan_access(&made).unwrap();
    assert_eq!(plan.path, "/p");
    assert_eq!(plan.access, access(2));
    assert!(plan.create_or_delete);
    let found = syscall_to_entry(&made, &probe("/p", Some(4)), &Vec::new()).unwrap();
    assert_eq!(shown(&found), vec![row("/p", "W", "open")]);
    let odd = call("open", vec![text("/p"), flag("O_PATH"), flag("O_RDWR")], None);
    assert!(plan_access(&odd).is_none());
    let at = call(
        "openat",
        vec![flag("AT_FDCWD"), text("/q"), flag("O_RDONLY|O_CREAT"), flag("0600")],
        None,
    );
    let plan = plan_access(&at).unwrap();
    assert_eq!(plan.path, "/q");
    assert_eq!(plan.access, access(6));
    assert!(plan.create_or_delete);
    let how = Parameter::Dict(vec![
        ("flags".to_string(), "O_RDWR".to_string()),
        ("mode".to_string(), "0".to_string()),
    ]);
    let two = call("openat2", vec![flag("AT_FDCWD"), text("/r"), how, flag("24")], None);
    let plan = plan_access(&two).unwrap();
    assert_eq!(plan.path, "/r");
    assert_eq!(plan.access, access(6));
    assert!(!plan.create_or_delete);
}

#[test]
fn calls_without_plan() {
    assert!(plan_access(&call("chdir", vec![text("/")], None)).is_none());
    assert!(plan_access(&call("fstat", vec![text("/")], None)).is_none());
    assert!(plan_access(&call("nosuchcall", vec![text("/")], None)).is_none());
    assert!(plan_access(&call("creat", vec![], None)).is_none());
    assert!(plan_access(&call("open", vec![text("/f")], None)).is_none());
    assert!(plan_access(&call("linkat", vec![text("a"), text("b"), text("c")], None)).is_none());
    assert!(plan_access(&call("creat", vec![text("/f")], Some("ENOENT"))).is_none());
    let denied = plan_access(&call("creat", vec![text("/f")], Some("EACCES"))).unwrap();
    assert_eq!(denied.access, access(2));
    assert!(!denied.create_or_delete);
    let made = plan_access(&call("mkdir", vec![text("/d"), flag("0755")], None)).unwrap();
    assert!(made.create_or_delete);
    assert_eq!(made.path, "/d");
    let gone = plan_access(&call("unlinkat", vec![flag("AT_FDCWD"), text("x")], None)).unwrap();
    assert!(gone.create_or_delete);
    assert_eq!(gone.path, "x");
}

#[test]
fn directories_above_the_path() {
    let mkdir = call("mkdir", vec![text("/a/b/c")], None);
    let above =
        vec![probe("/a/b", Some(5)), probe("/a", Some(4)), probe("/x", None), probe("/", Some(7))];
    let found = check_directories_access(&above, &mkdir, true);
    assert_eq!(shown(&found), vec![row("/a/b", "WX", "mkdir"), row("/a", "X", "mkdir")]);
    let found = check_directories_access(&above, &mkdir, false);
    assert_eq!(shown(&found), vec![row("/a", "X", "mkdir")]);
    let open_dir = vec![probe("/a/b", Some(0xff))];
    assert!(check_directories_access(&open_dir, &mkdir, true).is_empty());
    assert!(check_directories_access(&Vec::new(), &mkdir, true).is_empty());
}

#[test]
fn entries_of_a_call() {
    let write = call("open", vec![text("/etc/passwd"), flag("O_WRONLY|O_CREAT")], None);
    let above = vec![probe("/etc", Some(5)), probe("/", Some(4))];
    let found = syscall_to_entry(&write, &probe("/etc/passwd", Some(4)), &above).unwrap();
    assert_eq!(
        shown(&found),
        vec![row("/etc", "WX", "open"), row("/", "X", "open"), row("/etc/passwd", "W", "open")]
    );
    let read = call("open", vec![text("/etc/passwd"), flag("O_RDONLY")], None);
    assert!(syscall_to_entry(&read, &probe("/etc/passwd", Some(4)), &above).is_none());
    assert!(syscall_to_entry(&read, &probe("/etc/passwd", None), &above).is_none());
    let found = syscall_to_entry(&read, &probe("/etc/shadow", Some(0)), &Vec::new()).unwrap();
    assert_eq!(shown(&found), vec![row("/etc/shadow", "R", "open")]);
    let chdir = call("chdir", vec![text("/root")], None);
    assert!(syscall_to_entry(&chdir, &probe("/root", Some(0)), &above).is_none());
}

#[test]
fn accesses_to_one_path_are_merged() {
    let entries = vec![
        SyscallAccessEntry { path: "/a".into(), access: access(4), syscall: "open".into() },
        SyscallAccessEntry { path: "/b".into(), access: access(1), syscall: "open".into() },
        SyscallAccessEntry { path: "/a".into(), access: access(2), syscall: "creat".into() },
        SyscallAccessEntry { path: "/a".into(), access: access(2), syscall: "creat".into() },
        SyscallAccessEntry { path: "/b".into(), access: access(5), syscall: "execve".into() },
    ];
    let merged = merge_accesses(&entries);
    assert_eq!(merged, vec![("/a".to_string(), access(6)), ("/b".to_string(), access(5))]);
    assert_eq!(merged[0].1.to_text(), "RW");
    assert!(merge_accesses(&Vec::new()).is_empty());
}

#[test]
fn path_access_of_two_opens() {
    let read = call("open", vec![text("/etc/passwd"), flag("O_RDONLY")], None);
    let write = call("open", vec![text("/etc/passwd"), flag("O_WRONLY|O_CREAT")], None);
    let target = probe("/etc/passwd", Some(4));
    let above = vec![probe("/etc", Some(7)), probe("/", Some(7))];
    let mut entries = Vec::new();
    for c in [&read, &write] {
        if let Some(found) = syscall_to_entry(c, &target, &above) {
            entries.extend(found);
        }
    }
    let merged = merge_accesses(&entries);
    assert_eq!(merged.len(), 1);
    assert_eq!(merged[0].0, "/etc/passwd");
    assert_eq!(merged[0].1.to_text(), "W");
    let hidden = probe("/etc/passwd", Some(0));
    let mut entries = Vec::new();
    for c in [&read, &write] {
        entries.extend(syscall_to_entry(c, &hidden, &above).unwrap());
    }
    let merged = merge_accesses(&entries);
    assert_eq!(merged[0].1.to_text(), "RW");
}
