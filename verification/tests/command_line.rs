use capable::capset::{get_cap, CapSet};
use capable::cli::{
    cap_effective_error, escape_parser_string, getopt, remove_outer_quotes, split_text,
    CAPABILITIES_ERROR,
};

fn args(words: &[&str]) -> Vec<String> {
    words.iter().map(|w| w.to_string()).collect()
}

#[test]
fn outer_quotes_are_removed() {
    assert_eq!(remove_outer_quotes("\"ls -l\""), "ls -l");
    assert_eq!(remove_outer_quotes("'ls'"), "ls");
    assert_eq!(remove_outer_quotes("\"'\"ls\"'\""), "ls");
    assert_eq!(remove_outer_quotes("\"ls'"), "\"ls'");
    assert_eq!(remove_outer_quotes("\""), "\"");
    assert_eq!(remove_outer_quotes("\"\""), "");
    assert_eq!(remove_outer_quotes("'''"), "'");
    assert_eq!(remove_outer_quotes(""), "");
    assert_eq!(remove_outer_quotes("a\"b\"c"), "a\"b\"c");
    assert_eq!(remove_outer_quotes("\"\u{e9}t\u{e9}\""), "\u{e9}t\u{e9}");
}

#[test]
fn inner_quotes_are_escaped() {
    assert_eq!(escape_parser_string("echo"), "echo");
    assert_eq!(escape_parser_string("\"say \"hi\"\""), "say \\\"hi\\\"");
    assert_eq!(escape_parser_string("a\"b"), "a\\\"b");
    assert_eq!(escape_parser_string("'it''s'"), "it''s");
    assert_eq!(escape_parser_string("\"\""), "");
    assert_eq!(escape_parser_string("\"a"), "\\\"a");
    let word = "'x \"y\" \u{fc}'";
    assert_eq!(escape_parser_string(word), remove_outer_quotes(word).replace("\"", "\\\""));
}

#[test]
fn privilege_message_names_the_capability() {
    assert_eq!(
        cap_effective_error("BPF"),
        "Unable to toggle BPF privilege. You need at least setpcap, sys_admin, bpf, sys_resource, sys_ptrace capabilities to run capable"
    );
    assert_eq!(
        cap_effective_error(""),
        format!("Unable to toggle  privilege. {}", CAPABILITIES_ERROR)
    );
}

#[test]
fn splitting_at_commas() {
    assert_eq!(split_text("a,b,,c", ','), vec!["a", "b", "", "c"]);
    assert_eq!(split_text("", ','), vec![""]);
    assert_eq!(split_text(",", ','), vec!["", ""]);
    assert_eq!(split_text("abc", ','), vec!["abc"]);
    let text = "CAP_CHOWN,\u{e9},x,";
    let std: Vec<&str> = text.split(',').collect();
    assert_eq!(split_text(text, ','), std);
}

#[test]
fn plain_command() {
    let cli = getopt(&args(&["capable", "/bin/true"])).ok().unwrap();
    assert_eq!(cli.command, vec!["/bin/true"]);
    assert_eq!(cli.sleep, None);
    assert!(!cli.daemon);
    assert!(!cli.all_capabilities);
    assert!(cli.capabilities.is_empty());
    assert_eq!(cli.output, None);
    assert_eq!(cli.log_level, None);
}

#[test]
fn options_before_the_command() {
    let cli = getopt(&args(&[
        "capable", "-s", "12", "--daemon", "-c", "cap_chown,CAP_BPF", "-o", "out.json", "-l",
        "debug", "\"ls\"", "-l", "a\"b",
    ]))
    .ok()
    .unwrap();
    assert_eq!(cli.sleep, Some(12));
    assert!(cli.daemon);
    let mut expected = CapSet::empty();
    expected.add(get_cap(0).unwrap());
    expected.add(get_cap(39).unwrap());
    assert_eq!(cli.capabilities, expected);
    assert!(!cli.all_capabilities);
    assert_eq!(cli.output.as_deref(), Some("out.json"));
    assert_eq!(cli.log_level.as_deref(), Some("debug"));
    assert_eq!(cli.command, vec!["ls", "-l", "a\\\"b"]);
}

#[test]
fn capabilities_option() {
    let caps = |value: &str| {
        let cli = getopt(&args(&["capable", "--capabilities", value])).ok().unwrap();
        (cli.all_capabilities, cli.capabilities)
    };
    assert_eq!(caps("ALL"), (true, CapSet::empty()));
    assert_eq!(caps("all"), (true, CapSet::empty()));
    assert_eq!(caps("aLl"), (true, CapSet::empty()));
    assert_eq!(caps("ALLL"), (false, CapSet::empty()));
    assert_eq!(caps("CAP_CHOWN,bogus"), (false, CapSet::empty()));
    assert_eq!(caps(""), (false, CapSet::empty()));
    assert_eq!(caps("CAP_KILL").1.bits(), 1 << 5);
    let cli = getopt(&args(&["capable", "-c", "ALL", "-c", "CAP_KILL"])).ok().unwrap();
    assert!(!cli.all_capabilities);
    assert_eq!(cli.capabilities.bits(), 1 << 5);
    let cli = getopt(&args(&["capable", "-c"])).ok().unwrap();
    assert!(cli.capabilities.is_empty());
}

#[test]
fn options_without_value() {
    let cli = getopt(&args(&["capable", "-s", "soon", "x"])).ok().unwrap();
    assert_eq!(cli.sleep, None);
    assert_eq!(cli.command, vec!["x"]);
    let cli = getopt(&args(&["capable", "-s", "7", "-s"])).ok().unwrap();
    assert_eq!(cli.sleep, None);
    let cli = getopt(&args(&["capable", "-l"])).ok().unwrap();
    assert_eq!(cli.log_level.as_deref(), Some("info"));
    let cli = getopt(&args(&["capable", "-o", "a", "--output"])).ok().unwrap();
    assert_eq!(cli.output, None);
    let cli = getopt(&args(&["capable", "-o", "-d"])).ok().unwrap();
    assert_eq!(cli.output.as_deref(), Some("-d"));
    assert!(!cli.daemon);
    assert!(getopt(&Vec::new()).ok().unwrap().command.is_empty());
    assert!(getopt(&args(&["capable"])).ok().unwrap().command.is_empty());
    let cli = getopt(&args(&["capable", ""])).ok().unwrap();
    assert_eq!(cli.command, vec![""]);
}

#[test]
fn unknown_option_is_an_error() {
    let e = getopt(&args(&["capable", "-d", "--bogus", "ls"])).err().unwrap();
    assert_eq!(e.option, "--bogus");
    assert_eq!(e.message(), "Unknown option: --bogus");
    let e = getopt(&args(&["capable", "-"])).err().unwrap();
    assert_eq!(e.option, "-");
    let cli = getopt(&args(&["capable", "ls", "--bogus"])).ok().unwrap();
    assert_eq!(cli.command, vec!["ls", "--bogus"]);
}

#[test]
fn sleep_reads_a_decimal_number() {
    let sleep = |value: &str| getopt(&args(&["capable", "-s", value])).ok().unwrap().sleep;
    assert_eq!(sleep("5"), Some(5));
    assert_eq!(sleep("0"), Some(0));
    assert_eq!(sleep("+5"), Some(5));
    assert_eq!(sleep("0005"), Some(5));
    assert_eq!(sleep("00000000000000000000000000000012"), Some(12));
    assert_eq!(sleep("18446744073709551615"), Some(u64::MAX));
    assert_eq!(sleep("+18446744073709551615"), Some(u64::MAX));
    assert_eq!(sleep("18446744073709551616"), None);
    assert_eq!(sleep("99999999999999999999999"), None);
    for bad in ["", "+", "-", "-5", "-0", "++5", "+-5", "5+", " 5", "5 ", "1_0", "0x10", "5.0", "1e3", "\u{665}", "5\u{e9}"] {
        assert_eq!(sleep(bad), None, "{:?}", bad);
    }
    let cli = getopt(&args(&["capable", "-s", "5", "-o", "out.json", "-d"])).ok().unwrap();
    assert_eq!(cli.sleep, Some(5));
    assert_eq!(cli.output.as_deref(), Some("out.json"));
    assert!(cli.daemon);
}
