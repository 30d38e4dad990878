//! The command line: quoting of the command's words, the options, and the
//! messages about privileges.

use vstd::prelude::*;
use vstd::string::{StrSliceExecFns, StringExecFns};
use crate::capset::{ascii_upper, is_cap_text, named_caps, parse_capset_iter, CapSet};
use crate::text::{all_digits, digits_value, lemma_texts_push, same_text, texts};

verus! {

/// Whether the text stands between two double quotes or between two single
/// quotes.
pub open spec fn is_quoted(s: Seq<char>) -> bool {
    s.len() >= 2 && ((s.first() == '"' && s.last() == '"') || (s.first() == '\'' && s.last()
        == '\''))
}

/// The text without the quotes around it, however many pairs there are.
pub open spec fn unquoted(s: Seq<char>) -> Seq<char>
    decreases s.len(),
{
    if is_quoted(s) {
        unquoted(s.subrange(1, s.len() - 1))
    } else {
        s
    }
}

/// The text with a backslash before each double quote.
pub open spec fn quotes_escaped(s: Seq<char>) -> Seq<char>
    decreases s.len(),
{
    if s.len() == 0 {
        Seq::empty()
    } else if s.last() == '"' {
        quotes_escaped(s.drop_last()).push('\\').push('"')
    } else {
        quotes_escaped(s.drop_last()).push(s.last())
    }
}

/// The outermost quotes of a part of a text are its first and its last
/// character, and what is between them is the part without both.
proof fn lemma_peel(s: Seq<char>, low: int, high: int)
    requires
        0 <= low,
        low + 2 <= high <= s.len(),
    ensures
        s.subrange(low, high).first() == s[low],
        s.subrange(low, high).last() == s[high - 1],
        is_quoted(s.subrange(low, high)) ==> unquoted(s.subrange(low, high)) == unquoted(
            s.subrange(low + 1, high - 1),
        ),
{
    let part = s.subrange(low, high);
    assert(part.subrange(1, part.len() - 1) =~= s.subrange(low + 1, high - 1));
}

/// Strips the pairs of quotes that enclose `input`.
#[verifier::rlimit(50)]
pub fn remove_outer_quotes(input: &str) -> (r: String)
    ensures
        r@ == unquoted(input@),
{
    let mut low: usize = 0;
    let mut high: usize = input.unicode_len();
    let mut quoted = true;
    proof {
        assert(input@.subrange(0, input@.len() as int) =~= input@);
    }
    while quoted && high - low >= 2
        invariant
            low <= high <= input@.len(),
            unquoted(input@) == unquoted(input@.subrange(low as int, high as int)),
            !quoted ==> !is_quoted(input@.subrange(low as int, high as int)),
        decreases (if quoted { 1int } else { 0int }) + high - low,
    {
        let first = input.get_char(low);
        let last = input.get_char(high - 1);
        proof {
            lemma_peel(input@, low as int, high as int);
        }
        if (first == '"' && last == '"') || (first == '\'' && last == '\'') {
            low = low + 1;
            high = high - 1;
        } else {
            quoted = false;
        }
    }
    String::from_str(input.substring_char(low, high))
}

/// Appends the characters of `input` from `from` up to `to`.
fn append_range(out: &mut String, input: &str, from: usize, to: usize)
    requires
        from <= to <= input@.len(),
    ensures
        final(out)@ == old(out)@ + input@.subrange(from as int, to as int),
{
    out.append(input.substring_char(from, to));
}

/// The word as the command gets it: without the quotes around it, and with
/// a backslash before each double quote that is left.
#[verifier::rlimit(50)]
pub fn escape_parser_string(s: &str) -> (r: String)
    ensures
        r@ == quotes_escaped(unquoted(s@)),
{
    let bare = remove_outer_quotes(s);
    let text = bare.as_str();
    let n = text.unicode_len();
    let mut out = String::new();
    let mut i: usize = 0;
    proof {
        assert(text@.take(0) =~= Seq::<char>::empty());
    }
    while i < n
        invariant
            i <= n,
            n == text@.len(),
            out@ == quotes_escaped(text@.take(i as int)),
        decreases n - i,
    {
        let c = text.get_char(i);
        proof {
            let next = text@.take(i as int + 1);
            assert(next.drop_last() =~= text@.take(i as int));
            assert(next.last() == c);
            assert(text@.subrange(i as int, i as int + 1) =~= seq![c]);
            reveal_strlit("\\\"");
            assert("\\\""@ =~= seq!['\\', '"']);
        }
        if c == '"' {
            out.append("\\\"");
        } else {
            append_range(&mut out, text, i, i + 1);
        }
        proof {
            let next = text@.take(i as int + 1);
            assert(out@ =~= quotes_escaped(next));
        }
        i = i + 1;
    }
    proof {
        assert(text@.take(n as int) =~= text@);
    }
    out
}

/// What the tool needs to run at all.
pub const CAPABILITIES_ERROR: &'static str =
    "You need at least setpcap, sys_admin, bpf, sys_resource, sys_ptrace capabilities to run capable";

/// The message for a privilege that could not be switched.
pub fn cap_effective_error(caplist: &str) -> (r: String)
    ensures
        r@ == "Unable to toggle "@ + caplist@ + " privilege. "@ + CAPABILITIES_ERROR@,
{
    let mut out = String::from_str("Unable to toggle ");
    out.append(caplist);
    out.append(" privilege. ");
    out.append(CAPABILITIES_ERROR);
    out
}

/// The pieces of `text` between the separators, in their order: one more
/// than there are separators.
pub open spec fn split_on(text: Seq<char>, sep: char) -> Seq<Seq<char>>
    decreases text.len(),
{
    if text.len() == 0 {
        seq![Seq::empty()]
    } else {
        let before = split_on(text.drop_last(), sep);
        if text.last() == sep {
            before.push(Seq::empty())
        } else {
            before.drop_last().push(before.last().push(text.last()))
        }
    }
}

/// Splits `text` at each `sep`.
#[verifier::rlimit(50)]
pub fn split_text(text: &str, sep: char) -> (r: Vec<String>)
    ensures
        texts(r@) == split_on(text@, sep),
{
    let n = text.unicode_len();
    let mut parts: Vec<String> = Vec::new();
    let mut start: usize = 0;
    let mut i: usize = 0;
    proof {
        assert(text@.take(0) =~= Seq::<char>::empty());
        assert(texts(parts@).push(text@.subrange(0, 0)) =~= split_on(text@.take(0), sep));
    }
    while i < n
        invariant
            start <= i <= n,
            n == text@.len(),
            texts(parts@).push(text@.subrange(start as int, i as int)) == split_on(
                text@.take(i as int),
                sep,
            ),
        decreases n - i,
    {
        let c = text.get_char(i);
        proof {
            let next = text@.take(i as int + 1);
            assert(next.drop_last() =~= text@.take(i as int));
            assert(next.last() == c);
            let before = split_on(text@.take(i as int), sep);
            assert(before.last() == text@.subrange(start as int, i as int));
            assert(before.drop_last() =~= texts(parts@));
        }
        if c == sep {
            let part = String::from_str(text.substring_char(start, i));
            proof {
                lemma_texts_push(parts@, part);
                assert(text@.subrange(i as int + 1, i as int + 1) =~= Seq::<char>::empty());
            }
            parts.push(part);
            start = i + 1;
        } else {
            proof {
                assert(text@.subrange(start as int, i as int).push(c) =~= text@.subrange(
                    start as int,
                    i as int + 1,
                ));
            }
        }
        i = i + 1;
    }
    let part = String::from_str(text.substring_char(start, n));
    proof {
        lemma_texts_push(parts@, part);
        assert(text@.take(n as int) =~= text@);
    }
    parts.push(part);
    parts
}

/// The number of 64 bits that the text writes in decimal: digits behind an
/// optional plus sign, and nothing else; none where the text is of another
/// form or the number is out of range.
pub open spec fn parsed_u64(text: Seq<char>) -> Option<u64> {
    let digits = if text.len() > 0 && text[0] == '+' {
        text.drop_first()
    } else {
        text
    };
    if all_digits(digits) && digits_value(digits) <= u64::MAX {
        Some(digits_value(digits) as u64)
    } else {
        None
    }
}

/// Calls `str::parse` for a `u64`, which by the documentation of the
/// integer types reads an optional `+` sign followed by decimal digits
/// only, and fails on an empty text, on any other character and on a number
/// out of range. The contract says so.
#[verifier::external_body]
fn parse_u64(text: &str) -> (r: Option<u64>)
    ensures
        r == parsed_u64(text@),
{
    text.parse::<u64>().ok()
}

/// What the command line asks for.
pub struct Cli {
    /// Delay before the command is killed.
    pub sleep: Option<u64>,
    /// Watch the whole host instead of one command.
    pub daemon: bool,
    /// Grant the command every capability that the caller may pass on.
    pub all_capabilities: bool,
    /// The capabilities to grant the command, where not all.
    pub capabilities: CapSet,
    /// Where to write the policy.
    pub output: Option<String>,
    /// The verbosity asked for.
    pub log_level: Option<String>,
    /// The command and its arguments.
    pub command: Vec<String>,
}

/// The contents of a [`Cli`].
pub struct CliView {
    pub sleep: Option<u64>,
    pub daemon: bool,
    pub all_capabilities: bool,
    pub capabilities: Set<nat>,
    pub output: Option<Seq<char>>,
    pub log_level: Option<Seq<char>>,
    pub command: Seq<Seq<char>>,
}

impl View for Cli {
    type V = CliView;

    open spec fn view(&self) -> CliView {
        CliView {
            sleep: self.sleep,
            daemon: self.daemon,
            all_capabilities: self.all_capabilities,
            capabilities: self.capabilities@,
            output: match self.output {
                Some(s) => Some(s@),
                None => None,
            },
            log_level: match self.log_level {
                Some(s) => Some(s@),
                None => None,
            },
            command: texts(self.command@),
        }
    }
}

impl Default for Cli {
    /// The command line of a call without arguments.
    fn default() -> (r: Cli)
        ensures
            r@ == default_cli(),
    {
        let cli = Cli {
            sleep: None,
            daemon: false,
            all_capabilities: false,
            capabilities: CapSet::empty(),
            output: None,
            log_level: None,
            command: Vec::new(),
        };
        proof {
            assert(texts(cli.command@) =~= Seq::empty());
        }
        cli
    }
}

/// An option that the tool does not know.
pub struct CliError {
    pub option: String,
}

impl CliError {
    /// The error as a sentence.
    pub fn message(&self) -> (r: String)
        ensures
            r@ == "Unknown option: "@ + self.option@,
    {
        let mut out = String::from_str("Unknown option: ");
        out.append(self.option.as_str());
        out
    }
}

/// The command line of a call without arguments.
pub open spec fn default_cli() -> CliView {
    CliView {
        sleep: None,
        daemon: false,
        all_capabilities: false,
        capabilities: Set::empty(),
        output: None,
        log_level: None,
        command: Seq::empty(),
    }
}

/// The argument behind argument `i`, if there is one.
pub open spec fn arg_after(args: Seq<Seq<char>>, i: int) -> Option<Seq<char>> {
    if 0 <= i && i + 1 < args.len() {
        Some(args[i + 1])
    } else {
        None
    }
}

/// The capabilities that a list with commas names: those of its pieces
/// where each piece names one, else none.
pub open spec fn listed_caps(list: Seq<char>) -> Set<nat> {
    let parts = split_on(list, ',');
    if forall|p: int| 0 <= p < parts.len() ==> is_cap_text(#[trigger] parts[p]) {
        named_caps(parts)
    } else {
        Set::empty()
    }
}

/// The words of the command as it gets them.
pub open spec fn escaped_words(words: Seq<Seq<char>>) -> Seq<Seq<char>> {
    words.map_values(|w: Seq<char>| quotes_escaped(unquoted(w)))
}

/// Whether the argument is one of the two spellings of an option.
pub open spec fn is_option(arg: Seq<char>, short: Seq<char>, long: Seq<char>) -> bool {
    arg == short || arg == long
}

/// The command line after the arguments from `i` on, starting from `acc`.
/// An option that takes a value takes the next argument, whatever it is.
/// The first argument that is no option begins the command, which takes
/// all that follows.
pub open spec fn options_from(args: Seq<Seq<char>>, i: int, acc: CliView) -> Result<
    CliView,
    Seq<char>,
>
    decreases args.len() + 1 - i,
{
    if i < 0 || i >= args.len() {
        Ok(acc)
    } else if is_option(args[i], "-s"@, "--sleep"@) {
        options_from(
            args,
            i + 2,
            CliView {
                sleep: match arg_after(args, i) {
                    Some(value) => parsed_u64(value),
                    None => None,
                },
                ..acc
            },
        )
    } else if is_option(args[i], "-d"@, "--daemon"@) {
        options_from(args, i + 1, CliView { daemon: true, ..acc })
    } else if is_option(args[i], "-c"@, "--capabilities"@) {
        options_from(
            args,
            i + 2,
            match arg_after(args, i) {
                Some(value) => if ascii_upper(value) == "ALL"@ {
                    CliView { all_capabilities: true, capabilities: Set::empty(), ..acc }
                } else {
                    CliView { all_capabilities: false, capabilities: listed_caps(value), ..acc }
                },
                None => CliView { all_capabilities: false, capabilities: Set::empty(), ..acc },
            },
        )
    } else if is_option(args[i], "-o"@, "--output"@) {
        options_from(args, i + 2, CliView { output: arg_after(args, i), ..acc })
    } else if is_option(args[i], "-l"@, "--log-level"@) {
        options_from(
            args,
            i + 2,
            CliView {
                log_level: match arg_after(args, i) {
                    Some(value) => Some(value),
                    None => Some("info"@),
                },
                ..acc
            },
        )
    } else if args[i].len() > 0 && args[i][0] == '-' {
        Err(args[i])
    } else {
        Ok(CliView { command: escaped_words(args.subrange(i, args.len() as int)), ..acc })
    }
}

/// What the arguments of a call ask for; the first one is the name of the
/// tool and is passed over.
pub open spec fn parsed_cli(args: Seq<Seq<char>>) -> Result<CliView, Seq<char>> {
    options_from(args, 1, default_cli())
}

fn is_all(text: &str) -> (r: bool)
    ensures
        r == (ascii_upper(text@) == "ALL"@),
{
    proof {
        reveal_strlit("ALL");
    }
    if text.unicode_len() != 3 {
        proof {
            assert(ascii_upper(text@).len() == text@.len());
            assert("ALL"@.len() == 3);
        }
        return false;
    }
    let a = text.get_char(0);
    let b = text.get_char(1);
    let c = text.get_char(2);
    let r = (a == 'A' || a == 'a') && (b == 'L' || b == 'l') && (c == 'L' || c == 'l');
    proof {
        let upper = ascii_upper(text@);
        assert(upper.len() == 3);
        assert(upper[0] == crate::capset::ascii_upper_char(a));
        assert(upper[1] == crate::capset::ascii_upper_char(b));
        assert(upper[2] == crate::capset::ascii_upper_char(c));
        if r {
            assert(upper =~= "ALL"@);
        }
    }
    r
}

fn caps_of_list(list: &str) -> (r: CapSet)
    ensures
        r@ == listed_caps(list@),
{
    let parts = split_text(list, ',');
    match parse_capset_iter(&parts) {
        Ok(set) => {
            proof {
                assert forall|p: int| 0 <= p < texts(parts@).len() implies is_cap_text(
                    #[trigger] texts(parts@)[p],
                ) by {
                    assert(is_cap_text(parts@[p]@));
                }
            }
            set
        },
        Err(e) => {
            proof {
                assert(texts(parts@)[e.position as int] == parts@[e.position as int]@);
            }
            CapSet::empty()
        },
    }
}

fn escape_words(args: &Vec<String>, from: usize) -> (r: Vec<String>)
    requires
        from <= args.len(),
    ensures
        texts(r@) == escaped_words(texts(args@).subrange(from as int, args@.len() as int)),
{
    let mut out: Vec<String> = Vec::new();
    let mut i: usize = from;
    let ghost words = texts(args@).subrange(from as int, args@.len() as int);
    proof {
        assert(texts(out@) =~= escaped_words(words).take(0));
    }
    while i < args.len()
        invariant
            from <= i <= args.len(),
            words == texts(args@).subrange(from as int, args@.len() as int),
            texts(out@) == escaped_words(words).take(i - from),
        decreases args.len() - i,
    {
        let word = escape_parser_string(args[i].as_str());
        proof {
            lemma_texts_push(out@, word);
            assert(words[i - from] == args@[i as int]@);
            assert(escaped_words(words).take(i - from).push(word@) =~= escaped_words(words).take(
                i - from + 1,
            ));
        }
        out.push(word);
        i = i + 1;
    }
    proof {
        assert(escaped_words(words).take(i - from) =~= escaped_words(words));
    }
    out
}

/// Reads the command line.
#[verifier::rlimit(50)]
pub fn getopt(args: &Vec<String>) -> (r: Result<Cli, CliError>)
    ensures
        match (r, parsed_cli(texts(args@))) {
            (Ok(cli), Ok(expected)) => cli@ == expected,
            (Err(e), Err(option)) => e.option@ == option,
            _ => false,
        },
{
    let mut cli = Cli::default();
    let ghost all = texts(args@);
    let mut i: usize = 1;
    while i < args.len()
        invariant
            1 <= i,
            all == texts(args@),
            parsed_cli(all) == options_from(all, i as int, cli@),
        decreases args.len() - i,
    {
        let arg = args[i].as_str();
        let has_next = i + 1 < args.len();
        proof {
            assert(all[i as int] == arg@);
            if has_next {
                assert(all[i as int + 1] == args@[i as int + 1]@);
            }
            reveal_strlit("-s");
            reveal_strlit("--sleep");
            reveal_strlit("-d");
            reveal_strlit("--daemon");
        }
        if same_text(arg, "-s") || same_text(arg, "--sleep") {
            cli.sleep = if has_next {
                parse_u64(args[i + 1].as_str())
            } else {
                None
            };
            if !has_next {
                proof {
                    assert(options_from(all, i as int + 2, cli@) == Ok::<CliView, Seq<char>>(
                        cli@,
                    ));
                }
                return Ok(cli);
            }
            i = i + 2;
        } else if same_text(arg, "-d") || same_text(arg, "--daemon") {
            cli.daemon = true;
            i = i + 1;
        } else if same_text(arg, "-c") || same_text(arg, "--capabilities") {
            if has_next {
                let value = args[i + 1].as_str();
                if is_all(value) {
                    cli.all_capabilities = true;
                    cli.capabilities = CapSet::empty();
                } else {
                    cli.all_capabilities = false;
                    cli.capabilities = caps_of_list(value);
                }
            } else {
                cli.all_capabilities = false;
                cli.capabilities = CapSet::empty();
                proof {
                    assert(options_from(all, i as int + 2, cli@) == Ok::<CliView, Seq<char>>(
                        cli@,
                    ));
                }
                return Ok(cli);
            }
            i = i + 2;
        } else if same_text(arg, "-o") || same_text(arg, "--output") {
            if has_next {
                cli.output = Some(args[i + 1].clone());
            } else {
                cli.output = None;
                proof {
                    assert(options_from(all, i as int + 2, cli@) == Ok::<CliView, Seq<char>>(
                        cli@,
                    ));
                }
                return Ok(cli);
            }
            i = i + 2;
        } else if same_text(arg, "-l") || same_text(arg, "--log-level") {
            if has_next {
                cli.log_level = Some(args[i + 1].clone());
            } else {
                cli.log_level = Some(String::from_str("info"));
                proof {
                    assert(options_from(all, i as int + 2, cli@) == Ok::<CliView, Seq<char>>(
                        cli@,
                    ));
                }
                return Ok(cli);
            }
            i = i + 2;
        } else if arg.unicode_len() > 0 && arg.get_char(0) == '-' {
            return Err(CliError { option: args[i].clone() });
        } else {
            cli.command = escape_words(args, i);
            return Ok(cli);
        }
    }
    Ok(cli)
}

} // verus!
