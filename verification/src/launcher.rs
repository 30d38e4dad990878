//! How the traced command is started and supervised: the program that runs
//! it, the file that the trace goes to, and the steps of the watchdog.

use vstd::prelude::*;
use vstd::string::StringExecFns;
use crate::text::{clone_texts, lemma_texts_push, texts};

verus! {

/// The character of a decimal digit.
pub open spec fn digit_char(d: int) -> char {
    if d == 0 {
        '0'
    } else if d == 1 {
        '1'
    } else if d == 2 {
        '2'
    } else if d == 3 {
        '3'
    } else if d == 4 {
        '4'
    } else if d == 5 {
        '5'
    } else if d == 6 {
        '6'
    } else if d == 7 {
        '7'
    } else if d == 8 {
        '8'
    } else {
        '9'
    }
}

/// The decimal digits of a natural number, without leading zeros.
pub open spec fn decimal_nat(n: nat) -> Seq<char>
    decreases n,
{
    if n < 10 {
        seq![digit_char(n as int)]
    } else {
        decimal_nat(n / 10).push(digit_char((n % 10) as int))
    }
}

/// The decimal form of an integer, with a minus sign where it is negative.
pub open spec fn decimal(n: int) -> Seq<char> {
    if n < 0 {
        seq!['-'] + decimal_nat((-n) as nat)
    } else {
        decimal_nat(n as nat)
    }
}

fn digit_text(d: u64) -> (r: &'static str)
    requires
        d < 10,
    ensures
        r@ == seq![digit_char(d as int)],
{
    proof {
        reveal_strlit("0");
        reveal_strlit("1");
        reveal_strlit("2");
        reveal_strlit("3");
        reveal_strlit("4");
        reveal_strlit("5");
        reveal_strlit("6");
        reveal_strlit("7");
        reveal_strlit("8");
        reveal_strlit("9");
    }
    let r = if d == 0 {
        "0"
    } else if d == 1 {
        "1"
    } else if d == 2 {
        "2"
    } else if d == 3 {
        "3"
    } else if d == 4 {
        "4"
    } else if d == 5 {
        "5"
    } else if d == 6 {
        "6"
    } else if d == 7 {
        "7"
    } else if d == 8 {
        "8"
    } else {
        "9"
    };
    proof {
        assert(r@ =~= seq![digit_char(d as int)]);
    }
    r
}

fn append_decimal(out: &mut String, n: u64)
    ensures
        final(out)@ == old(out)@ + decimal_nat(n as nat),
    decreases n,
{
    if n >= 10 {
        append_decimal(out, n / 10);
    }
    out.append(digit_text(n % 10));
    proof {
        if n >= 10 {
            assert(out@ =~= old(out)@ + decimal_nat(n as nat));
        }
    }
}

/// The decimal form of a number.
pub fn decimal_text(n: i64) -> (r: String)
    ensures
        r@ == decimal(n as int),
{
    let mut out = String::new();
    if n < 0 {
        out.append("-");
        proof {
            reveal_strlit("-");
            assert(out@ =~= seq!['-']);
        }
        let magnitude: u64 = (-(n + 1)) as u64 + 1;
        append_decimal(&mut out, magnitude);
    } else {
        append_decimal(&mut out, n as u64);
        proof {
            assert(out@ =~= decimal_nat(n as nat));
        }
    }
    out
}

/// The file that the trace of the command goes to.
pub open spec fn strace_log(pid: i32) -> Seq<char> {
    "/tmp/capable_strace_"@ + decimal(pid as int) + ".log"@
}

/// The path of the trace file of the tool's process `pid`.
pub fn strace_log_path(pid: i32) -> (r: String)
    ensures
        r@ == strace_log(pid),
{
    let mut out = String::from_str("/tmp/capable_strace_");
    out.append(decimal_text(pid as i64).as_str());
    out.append(".log");
    out
}

/// The command line that `shell_words::join` makes of the words: each word
/// quoted for a Unix shell, with one blank between neighbours.
pub uninterp spec fn shell_joined(words: Seq<Seq<char>>) -> Seq<char>;

/// Calls `shell_words::join`. The contract says only that the result is
/// the line that belongs to the words.
#[verifier::external_body]
fn shell_join(words: &Vec<String>) -> (r: String)
    ensures
        r@ == shell_joined(texts(words@)),
{
    shell_words::join(words)
}

/// The options with which `strace` follows the command and writes what it
/// sees to `log`.
pub open spec fn strace_options(log: Seq<char>) -> Seq<Seq<char>> {
    seq!["-D"@, "-f"@, "-e"@, "ptrace,file"@, "-o"@, log]
}

/// The command with `first` as its first word.
pub open spec fn with_first(command: Seq<Seq<char>>, first: Option<Seq<char>>) -> Seq<Seq<char>> {
    match first {
        Some(word) if command.len() > 0 => command.update(0, word),
        _ => command,
    }
}

/// The program to run and its arguments: `strace` around the command where
/// there is one, else a shell that gets the command as one line; nothing
/// for an empty command or where neither was found.
pub open spec fn launch_plan(
    command: Seq<Seq<char>>,
    strace: Option<Seq<char>>,
    sh: Option<Seq<char>>,
    pid: i32,
) -> Option<(Seq<char>, Seq<Seq<char>>)> {
    if command.len() == 0 {
        None
    } else {
        match strace {
            Some(tracer) => Some((tracer, strace_options(strace_log(pid)) + command)),
            None => match sh {
                Some(shell) => Some((shell, seq!["-c"@, shell_joined(command)])),
                None => None,
            },
        }
    }
}

/// The contents of an optional string.
pub open spec fn text_of(s: Option<String>) -> Option<Seq<char>> {
    match s {
        Some(s) => Some(s@),
        None => None,
    }
}

/// Puts the canonical form of the program in the place of the command's
/// first word, where there is one, and gives the program to run and its
/// arguments. `strace` and `sh` are the paths of these tools, where they
/// were found; `pid` is the tool's own process.
#[verifier::rlimit(50)]
pub fn get_exec_and_args(
    command: &mut Vec<String>,
    canonical: Option<String>,
    strace: Option<String>,
    sh: Option<String>,
    pid: i32,
) -> (r: Option<(String, Vec<String>)>)
    ensures
        texts(final(command)@) == with_first(texts(old(command)@), text_of(canonical)),
        match (r, launch_plan(texts(final(command)@), text_of(strace), text_of(sh), pid)) {
            (Some(plan), Some(expected)) => plan.0@ == expected.0 && texts(plan.1@) == expected.1,
            (None, None) => true,
            _ => false,
        },
{
    if command.len() == 0 {
        return None;
    }
    match canonical {
        Some(word) => {
            proof {
                assert(texts(command@.update(0, word)) =~= texts(command@).update(0, word@));
            }
            command.set(0, word);
        },
        None => {},
    }
    match strace {
        Some(tracer) => {
            let mut args: Vec<String> = Vec::new();
            let ghost log = strace_log(pid);
            proof {
                assert(texts(args@) =~= Seq::empty());
            }
            let word = String::from_str("-D");
            proof {
                lemma_texts_push(args@, word);
            }
            args.push(word);
            let word = String::from_str("-f");
            proof {
                lemma_texts_push(args@, word);
            }
            args.push(word);
            let word = String::from_str("-e");
            proof {
                lemma_texts_push(args@, word);
            }
            args.push(word);
            let word = String::from_str("ptrace,file");
            proof {
                lemma_texts_push(args@, word);
            }
            args.push(word);
            let word = String::from_str("-o");
            proof {
                lemma_texts_push(args@, word);
            }
            args.push(word);
            let word = strace_log_path(pid);
            proof {
                lemma_texts_push(args@, word);
            }
            args.push(word);
            proof {
                assert(texts(args@) =~= strace_options(log));
            }
            let mut rest = clone_texts(command);
            let ghost head = args@;
            let ghost tail = rest@;
            args.append(&mut rest);
            proof {
                assert(texts(head + tail) =~= texts(head) + texts(tail));
            }
            Some((tracer, args))
        },
        None => match sh {
            Some(shell) => {
                let mut args: Vec<String> = Vec::new();
                let flag = String::from_str("-c");
                let line = shell_join(command);
                args.push(flag);
                args.push(line);
                proof {
                    assert(texts(args@) =~= seq!["-c"@, shell_joined(texts(command@))]);
                }
                Some((shell, args))
            },
            None => None,
        },
    }
}

/// How often the watchdog looks whether the command is gone, after each
/// signal.
pub const MAX_CHECK: u64 = 10;

/// Where the watchdog stands.
#[derive(Clone, Copy, Debug, PartialEq, Eq, Structural)]
pub enum Watchdog {
    /// Termination was asked for and nothing was sent yet.
    Armed,
    /// The interrupt was sent; `waited` pauses have passed since.
    Interrupted { waited: u64 },
    /// The kill was sent; `waited` pauses have passed since.
    Killed { waited: u64 },
    /// The command is gone.
    Finished,
    /// The command outlived the kill.
    Failed,
}

/// What the watchdog does next.
#[derive(Clone, Copy, Debug, PartialEq, Eq, Structural)]
pub enum WatchdogAction {
    /// Send SIGINT to the command, then look whether it is alive.
    SendInterrupt,
    /// Send SIGKILL to the command, then look whether it is alive.
    SendKill,
    /// Pause for a tenth of a second, then look whether it is alive.
    Pause,
    /// Nothing is left to do.
    Stop,
    /// End the tool with exit code -1.
    GiveUp,
}

/// The next state and action of the watchdog, where `alive` says whether
/// the command was alive when last looked at.
pub open spec fn watchdog_next(state: Watchdog, alive: bool) -> (Watchdog, WatchdogAction) {
    match state {
        Watchdog::Armed => (Watchdog::Interrupted { waited: 0 }, WatchdogAction::SendInterrupt),
        Watchdog::Interrupted { waited } => if !alive {
            (Watchdog::Finished, WatchdogAction::Stop)
        } else if waited < MAX_CHECK {
            (Watchdog::Interrupted { waited: (waited + 1) as u64 }, WatchdogAction::Pause)
        } else {
            (Watchdog::Killed { waited: 0 }, WatchdogAction::SendKill)
        },
        Watchdog::Killed { waited } => if !alive {
            (Watchdog::Finished, WatchdogAction::Stop)
        } else if waited < MAX_CHECK {
            (Watchdog::Killed { waited: (waited + 1) as u64 }, WatchdogAction::Pause)
        } else {
            (Watchdog::Failed, WatchdogAction::GiveUp)
        },
        Watchdog::Finished => (Watchdog::Finished, WatchdogAction::Stop),
        Watchdog::Failed => (Watchdog::Failed, WatchdogAction::GiveUp),
    }
}

/// The pauses that the watchdog may still make.
pub open spec fn pauses_left(state: Watchdog) -> int {
    match state {
        Watchdog::Armed => 2 * MAX_CHECK,
        Watchdog::Interrupted { waited } => if waited <= MAX_CHECK {
            2 * MAX_CHECK - waited
        } else {
            MAX_CHECK as int
        },
        Watchdog::Killed { waited } => if waited <= MAX_CHECK {
            MAX_CHECK - waited
        } else {
            0
        },
        Watchdog::Finished => 0,
        Watchdog::Failed => 0,
    }
}

/// One step of the watchdog. Each pause uses up one of the twenty that it
/// has after termination was asked for, and no other step gives one back.
pub fn watchdog_step(state: Watchdog, alive: bool) -> (r: (Watchdog, WatchdogAction))
    ensures
        r == watchdog_next(state, alive),
        r.1 == WatchdogAction::Pause ==> pauses_left(r.0) == pauses_left(state) - 1,
        pauses_left(r.0) <= pauses_left(state),
        0 <= pauses_left(r.0) <= 2 * MAX_CHECK,
{
    match state {
        Watchdog::Armed => (Watchdog::Interrupted { waited: 0 }, WatchdogAction::SendInterrupt),
        Watchdog::Interrupted { waited } => if !alive {
            (Watchdog::Finished, WatchdogAction::Stop)
        } else if waited < MAX_CHECK {
            (Watchdog::Interrupted { waited: waited + 1 }, WatchdogAction::Pause)
        } else {
            (Watchdog::Killed { waited: 0 }, WatchdogAction::SendKill)
        },
        Watchdog::Killed { waited } => if !alive {
            (Watchdog::Finished, WatchdogAction::Stop)
        } else if waited < MAX_CHECK {
            (Watchdog::Killed { waited: waited + 1 }, WatchdogAction::Pause)
        } else {
            (Watchdog::Failed, WatchdogAction::GiveUp)
        },
        Watchdog::Finished => (Watchdog::Finished, WatchdogAction::Stop),
        Watchdog::Failed => (Watchdog::Failed, WatchdogAction::GiveUp),
    }
}

/// Where the streams of the command go.
#[derive(Clone, Copy, Debug, PartialEq, Eq, Structural)]
pub enum Streams {
    /// To the streams of the tool.
    Inherited,
    /// Nowhere.
    Dropped,
}

/// The command keeps the tool's streams where the policy goes to a file;
/// else they are dropped, so that the policy on the terminal stays alone.
pub fn command_streams(output_given: bool) -> (r: Streams)
    ensures
        r == if output_given {
            Streams::Inherited
        } else {
            Streams::Dropped
        },
{
    if output_given {
        Streams::Inherited
    } else {
        Streams::Dropped
    }
}

/// The exit code with which the tool ends after a command that failed: the
/// command's own, or -1 where it has none. Nothing after a command that
/// succeeded.
pub fn exit_code_after(success: bool, code: Option<i32>) -> (r: Option<i32>)
    ensures
        r == if success {
            None
        } else {
            match code {
                Some(c) => Some(c),
                None => Some(-1i32),
            }
        },
{
    if success {
        None
    } else {
        match code {
            Some(c) => Some(c),
            None => Some(-1),
        }
    }
}

} // verus!
