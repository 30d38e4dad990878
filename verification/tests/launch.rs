use capable::launcher::{
    command_streams, decimal_text, exit_code_after, get_exec_and_args, strace_log_path,
    watchdog_step, Streams, Watchdog, WatchdogAction, MAX_CHECK,
};

fn words(list: &[&str]) -> Vec<String> {
    list.iter().map(|w| w.to_string()).collect()
}

#[test]
fn numbers_in_decimal() {
    for n in [
        0i64, 7, 10, 99, 100, 4026531836, u32::MAX as i64, -1, -10, i32::MIN as i64, i64::MAX,
        i64::MIN, i64::MIN + 1,
    ] {
        assert_eq!(decimal_text(n), n.to_string());
    }
    assert_eq!(strace_log_path(4321), "/tmp/capable_strace_4321.log");
    assert_eq!(strace_log_path(0), "/tmp/capable_strace_0.log");
    assert_eq!(strace_log_path(-5), "/tmp/capable_strace_-5.log");
}

#[test]
fn command_runs_under_strace() {
    let mut command = words(&["ls", "-l", "my file"]);
    let plan = get_exec_and_args(
        &mut command,
        Some("/usr/bin/ls".to_string()),
        Some("/usr/bin/strace".to_string()),
        Some("/bin/sh".to_string()),
        77,
    )
    .unwrap();
    assert_eq!(command, vec!["/usr/bin/ls", "-l", "my file"]);
    assert_eq!(plan.0, "/usr/bin/strace");
    assert_eq!(
        plan.1,
        vec![
            "-D", "-f", "-e", "ptrace,file", "-o", "/tmp/capable_strace_77.log", "/usr/bin/ls",
            "-l", "my file"
        ]
    );
}

#[test]
fn command_runs_under_a_shell() {
    let mut command = words(&["ls", "-l", "my file", "it's"]);
    let plan = get_exec_and_args(&mut command, None, None, Some("/bin/sh".to_string()), 1).unwrap();
    assert_eq!(command, vec!["ls", "-l", "my file", "it's"]);
    assert_eq!(plan.0, "/bin/sh");
    assert_eq!(plan.1, vec!["-c".to_string(), "ls -l 'my file' 'it'\\''s'".to_string()]);
}

#[test]
fn nothing_to_run() {
    let mut command = words(&["ls"]);
    assert!(get_exec_and_args(&mut command, Some("/bin/ls".to_string()), None, None, 1).is_none());
    assert_eq!(command, vec!["/bin/ls"]);
    let mut empty: Vec<String> = Vec::new();
    let plan = get_exec_and_args(&mut empty, Some("x".to_string()), Some("s".to_string()), None, 1);
    assert!(plan.is_none());
    assert!(empty.is_empty());
}

#[test]
fn watchdog_escalates() {
    assert_eq!(MAX_CHECK, 10);
    let mut state = Watchdog::Armed;
    let mut actions = Vec::new();
    loop {
        let (next, action) = watchdog_step(state, true);
        actions.push(action);
        state = next;
        if action == WatchdogAction::GiveUp {
            break;
        }
    }
    assert_eq!(state, Watchdog::Failed);
    assert_eq!(actions.len(), 23);
    assert_eq!(actions[0], WatchdogAction::SendInterrupt);
    assert!(actions[1..11].iter().all(|a| *a == WatchdogAction::Pause));
    assert_eq!(actions[11], WatchdogAction::SendKill);
    assert!(actions[12..22].iter().all(|a| *a == WatchdogAction::Pause));
    assert_eq!(actions.iter().filter(|a| **a == WatchdogAction::Pause).count(), 20);
    assert_eq!(watchdog_step(Watchdog::Failed, false), (Watchdog::Failed, WatchdogAction::GiveUp));
}

#[test]
fn watchdog_stops_when_the_command_is_gone() {
    let gone = (Watchdog::Finished, WatchdogAction::Stop);
    assert_eq!(watchdog_step(Watchdog::Interrupted { waited: 0 }, false), gone);
    assert_eq!(watchdog_step(Watchdog::Interrupted { waited: 10 }, false), gone);
    assert_eq!(watchdog_step(Watchdog::Killed { waited: 3 }, false), gone);
    assert_eq!(watchdog_step(Watchdog::Finished, true), gone);
    assert_eq!(
        watchdog_step(Watchdog::Armed, false),
        (Watchdog::Interrupted { waited: 0 }, WatchdogAction::SendInterrupt)
    );
    assert_eq!(
        watchdog_step(Watchdog::Interrupted { waited: 9 }, true),
        (Watchdog::Interrupted { waited: 10 }, WatchdogAction::Pause)
    );
    assert_eq!(
        watchdog_step(Watchdog::Killed { waited: u64::MAX }, true),
        (Watchdog::Failed, WatchdogAction::GiveUp)
    );
}

#[test]
fn streams_and_exit_code() {
    assert_eq!(command_streams(true), Streams::Inherited);
    assert_eq!(command_streams(false), Streams::Dropped);
    assert_eq!(exit_code_after(true, Some(0)), None);
    assert_eq!(exit_code_after(true, None), None);
    assert_eq!(exit_code_after(false, Some(3)), Some(3));
    assert_eq!(exit_code_after(false, None), Some(-1));
}
