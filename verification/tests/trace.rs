use capable::strace::{
    parse_syscall, read_strace, Branch, Leaf, Line, Parameter, Rule, StraceError, Syscall,
};

fn leaf(rule: Rule, text: &str) -> Leaf {
    Leaf { rule, text: text.to_string() }
}

fn part(rule: Rule, text: &str) -> Branch {
    Branch { rule, text: text.to_string(), inner: Vec::new() }
}

fn group(rule: Rule, text: &str, inner: Vec<Leaf>) -> Branch {
    Branch { rule, text: text.to_string(), inner }
}

fn open_line() -> Vec<Branch> {
    vec![
        part(Rule::Syscall, "open"),
        part(Rule::String, "/etc/passwd"),
        part(Rule::Constant, "O_RDONLY"),
        group(Rule::ReturnCode, "= 3", vec![leaf(Rule::ReturnValue, " 3 ")]),
    ]
}

#[test]
fn reads_one_call() {
    let mut calls: Vec<Syscall> = Vec::new();
    assert_eq!(parse_syscall(&open_line(), &mut calls), Ok(()));
    assert_eq!(calls.len(), 1);
    assert_eq!(calls[0].syscall, "open");
    assert_eq!(calls[0].args.len(), 2);
    assert_eq!(calls[0].args[0].to_text(), "/etc/passwd");
    assert_eq!(calls[0].args[1].to_text(), "O_RDONLY");
    assert_eq!(calls[0].return_code.code, 3);
    assert_eq!(calls[0].return_code.constant, None);
    assert_eq!(calls[0].return_code.message, None);
}

#[test]
fn reads_error_return() {
    let line = vec![
        part(Rule::Syscall, "openat"),
        part(Rule::Constant, "AT_FDCWD"),
        part(Rule::String, "/nope"),
        part(Rule::Constant, "O_RDONLY"),
        group(
            Rule::ReturnCode,
            "= -1 ENOENT (No such file or directory)",
            vec![
                leaf(Rule::ReturnValue, "-1"),
                leaf(Rule::Constant, "ENOENT"),
                leaf(Rule::Message, "No such file or directory"),
                leaf(Rule::Other, "?"),
            ],
        ),
    ];
    let mut calls = Vec::new();
    parse_syscall(&line, &mut calls).unwrap();
    assert_eq!(calls[0].return_code.code, -1);
    assert_eq!(calls[0].return_code.constant.as_deref(), Some("ENOENT"));
    assert_eq!(calls[0].return_code.message.as_deref(), Some("No such file or directory"));
}

#[test]
fn a_second_name_ends_the_first_call() {
    let mut line = open_line();
    line.push(part(Rule::Signal, "SIGCHLD"));
    line.push(part(Rule::Syscall, "chdir"));
    line.push(part(Rule::String, "/"));
    let mut calls = vec![Syscall {
        syscall: "earlier".to_string(),
        args: Vec::new(),
        return_code: capable::strace::ReturnCode { code: 0, constant: None, message: None },
    }];
    parse_syscall(&line, &mut calls).unwrap();
    assert_eq!(calls.len(), 3);
    assert_eq!(calls[0].syscall, "earlier");
    assert_eq!(calls[1].syscall, "open");
    assert_eq!(calls[1].return_code.code, 3);
    assert_eq!(calls[2].syscall, "chdir");
    assert_eq!(calls[2].args.len(), 1);
    assert_eq!(calls[2].return_code.code, 0);
}

#[test]
fn a_line_without_name_gives_a_nameless_call() {
    let mut calls = Vec::new();
    parse_syscall(&Vec::new(), &mut calls).unwrap();
    assert_eq!(calls.len(), 1);
    assert_eq!(calls[0].syscall, "");
    let mut calls = Vec::new();
    let line = vec![part(Rule::String, "x"), part(Rule::Syscall, "stat"), part(Rule::Comment, "c")];
    parse_syscall(&line, &mut calls).unwrap();
    assert_eq!(calls.len(), 1);
    assert_eq!(calls[0].syscall, "stat");
    assert_eq!(calls[0].args.len(), 2);
    assert!(matches!(&calls[0].args[1], Parameter::Comment(c) if c == "c"));
}

#[test]
fn lists_are_written_as_debug_lists() {
    let line = vec![
        part(Rule::Syscall, "execve"),
        group(
            Rule::Array,
            "[..]",
            vec![leaf(Rule::String, "ls"), leaf(Rule::String, "a\"b"), leaf(Rule::String, "t\tq")],
        ),
        group(Rule::Array, "[]", Vec::new()),
    ];
    let mut calls = Vec::new();
    parse_syscall(&line, &mut calls).unwrap();
    let expected = vec!["ls".to_string(), "a\"b".to_string(), "t\tq".to_string()];
    assert!(matches!(&calls[0].args[0], Parameter::Array(a) if *a == expected));
    assert_eq!(calls[0].args[0].to_text(), format!("{:?}", expected));
    assert_eq!(calls[0].args[0].to_text(), "[\"ls\", \"a\\\"b\", \"t\\tq\"]");
    assert_eq!(calls[0].args[1].to_text(), "[]");
    let copy = calls[0].args[0].clone();
    assert_eq!(copy.to_text(), calls[0].args[0].to_text());
}

#[test]
fn structures_keep_each_key_once() {
    let fields = vec![
        leaf(Rule::Key, "flags"),
        leaf(Rule::Constant, "O_RDONLY"),
        leaf(Rule::Other, "ignored"),
        leaf(Rule::Key, "mode"),
        leaf(Rule::Constant, "0"),
        leaf(Rule::Key, "flags"),
        leaf(Rule::Key, "O_RDWR"),
    ];
    let line = vec![part(Rule::Syscall, "openat2"), group(Rule::Structure, "{..}", fields)];
    let mut calls = Vec::new();
    parse_syscall(&line, &mut calls).unwrap();
    let expected = vec![
        ("flags".to_string(), "O_RDWR".to_string()),
        ("mode".to_string(), "0".to_string()),
    ];
    assert!(matches!(&calls[0].args[0], Parameter::Dict(d) if *d == expected));
    assert_eq!(calls[0].args[0].to_text(), "{\"flags\": \"O_RDWR\", \"mode\": \"0\"}");
    let mut map = std::collections::BTreeMap::new();
    map.insert("flags", "O_RDWR");
    map.insert("mode", "0");
    assert_eq!(calls[0].args[0].to_text(), format!("{:?}", map));
}

#[test]
fn dangling_key_is_an_error() {
    let line = vec![
        part(Rule::Syscall, "statx"),
        group(Rule::Structure, "{k}", vec![leaf(Rule::Key, "k")]),
    ];
    let mut calls = vec![];
    assert_eq!(parse_syscall(&line, &mut calls), Err(StraceError::DanglingKey));
    assert!(calls.is_empty());
}

#[test]
fn bad_return_value_is_an_error() {
    let line = vec![
        part(Rule::Syscall, "open"),
        part(Rule::Syscall, "close"),
        group(Rule::ReturnCode, "= ?", vec![leaf(Rule::ReturnValue, "?")]),
    ];
    let mut calls = vec![];
    assert_eq!(parse_syscall(&line, &mut calls), Err(StraceError::BadReturnValue));
    assert!(calls.is_empty());
    let line = vec![group(Rule::ReturnCode, "", vec![leaf(Rule::ReturnValue, "99999999999")])];
    assert_eq!(parse_syscall(&line, &mut calls), Err(StraceError::BadReturnValue));
}

#[test]
fn trace_keeps_only_call_lines() {
    let lines = vec![
        Line { rule: Rule::SyscallCall, inner: open_line() },
        Line { rule: Rule::Exit, inner: vec![part(Rule::Syscall, "ghost")] },
        Line {
            rule: Rule::SyscallCall,
            inner: vec![part(Rule::Syscall, "ptrace"), part(Rule::Constant, "PTRACE_SEIZE")],
        },
        Line { rule: Rule::Eoi, inner: Vec::new() },
    ];
    let calls = read_strace(&lines).unwrap();
    assert_eq!(calls.len(), 2);
    assert_eq!(calls[0].syscall, "open");
    assert_eq!(calls[1].syscall, "ptrace");
    assert!(read_strace(&Vec::new()).unwrap().is_empty());
}

#[test]
fn trace_fails_with_its_first_bad_line() {
    let lines = vec![
        Line { rule: Rule::SyscallCall, inner: open_line() },
        Line {
            rule: Rule::SyscallCall,
            inner: vec![group(Rule::Structure, "", vec![leaf(Rule::Key, "k")])],
        },
        Line {
            rule: Rule::SyscallCall,
            inner: vec![group(Rule::ReturnCode, "", vec![leaf(Rule::ReturnValue, "x")])],
        },
    ];
    assert!(matches!(read_strace(&lines), Err(StraceError::DanglingKey)));
}

#[test]
fn return_value_is_a_signed_decimal_number() {
    let code = |text: &str| {
        let line = vec![
            part(Rule::Syscall, "read"),
            group(Rule::ReturnCode, "", vec![leaf(Rule::ReturnValue, text)]),
        ];
        let mut calls = Vec::new();
        parse_syscall(&line, &mut calls).map(|_| calls[0].return_code.code)
    };
    assert_eq!(code("0"), Ok(0));
    assert_eq!(code("-0"), Ok(0));
    assert_eq!(code("+7"), Ok(7));
    assert_eq!(code("-1"), Ok(-1));
    assert_eq!(code("  42\t"), Ok(42));
    assert_eq!(code("\u{a0}-13\u{2009}"), Ok(-13));
    assert_eq!(code("007"), Ok(7));
    assert_eq!(code("2147483647"), Ok(i32::MAX));
    assert_eq!(code("-2147483648"), Ok(i32::MIN));
    assert_eq!(code("-000002147483648"), Ok(i32::MIN));
    for bad in ["", " ", "-", "+", "--1", "-+1", "2147483648", "-2147483649", "1 2", "- 1", "0x3", "3.", "\u{200b}3", "\u{663}"] {
        assert_eq!(code(bad), Err(StraceError::BadReturnValue), "{:?}", bad);
    }
}
