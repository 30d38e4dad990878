//! The system calls of a trace: their record, and how a parsed line of the
//! trace becomes records.

use vstd::prelude::*;
use vstd::string::StringExecFns;
use crate::text::{
    all_digits, clone_texts, digits_value, joined, texts, trim_end, trim_start,
};

verus! {

/// One system call of the trace.
pub struct Syscall {
    pub syscall: String,
    pub args: Vec<Parameter>,
    pub return_code: ReturnCode,
}

/// One argument of a system call.
pub enum Parameter {
    String(String),
    Array(Vec<String>),
    Constant(String),
    Comment(String),
    /// The fields of a structure, each key once, in the order in which the
    /// keys first came.
    Dict(Vec<(String, String)>),
}

/// What a system call returned.
pub struct ReturnCode {
    pub code: i32,
    pub constant: Option<String>,
    pub message: Option<String>,
}

/// The contents of a [`Parameter`].
pub enum ParameterView {
    String(Seq<char>),
    Array(Seq<Seq<char>>),
    Constant(Seq<char>),
    Comment(Seq<char>),
    Dict(Seq<(Seq<char>, Seq<char>)>),
}

/// The contents of a [`ReturnCode`].
pub struct ReturnCodeView {
    pub code: i32,
    pub constant: Option<Seq<char>>,
    pub message: Option<Seq<char>>,
}

/// The contents of a [`Syscall`].
pub struct SyscallView {
    pub syscall: Seq<char>,
    pub args: Seq<ParameterView>,
    pub return_code: ReturnCodeView,
}

/// The contents of a list of pairs of strings.
pub open spec fn pairs_view(pairs: Seq<(String, String)>) -> Seq<(Seq<char>, Seq<char>)> {
    pairs.map_values(|p: (String, String)| (p.0@, p.1@))
}

/// The contents of an optional string.
pub open spec fn option_view(text: Option<String>) -> Option<Seq<char>> {
    match text {
        Some(s) => Some(s@),
        None => None,
    }
}

impl View for Parameter {
    type V = ParameterView;

    open spec fn view(&self) -> ParameterView {
        match self {
            Parameter::String(s) => ParameterView::String(s@),
            Parameter::Array(a) => ParameterView::Array(texts(a@)),
            Parameter::Constant(s) => ParameterView::Constant(s@),
            Parameter::Comment(s) => ParameterView::Comment(s@),
            Parameter::Dict(d) => ParameterView::Dict(pairs_view(d@)),
        }
    }
}

impl View for ReturnCode {
    type V = ReturnCodeView;

    open spec fn view(&self) -> ReturnCodeView {
        ReturnCodeView {
            code: self.code,
            constant: option_view(self.constant),
            message: option_view(self.message),
        }
    }
}

/// The contents of a list of parameters.
pub open spec fn params_view(args: Seq<Parameter>) -> Seq<ParameterView> {
    args.map_values(|p: Parameter| p@)
}

impl View for Syscall {
    type V = SyscallView;

    open spec fn view(&self) -> SyscallView {
        SyscallView {
            syscall: self.syscall@,
            args: params_view(self.args@),
            return_code: self.return_code@,
        }
    }
}

/// The contents of a list of system calls.
pub open spec fn calls_view(calls: Seq<Syscall>) -> Seq<SyscallView> {
    calls.map_values(|c: Syscall| c@)
}

/// What `{:?}` writes for a string: the text between double quotes, with
/// its special characters escaped.
pub uninterp spec fn str_debug(text: Seq<char>) -> Seq<char>;

/// Writes a string by `Debug` of `str`, through `format!`. The contract
/// says only that the result is the debug form of the text.
#[verifier::external_body]
fn debug_text(text: &str) -> (r: String)
    ensures
        r@ == str_debug(text@),
{
    format!("{:?}", text)
}

/// The debug form of each text.
pub open spec fn debug_each(list: Seq<Seq<char>>) -> Seq<Seq<char>> {
    list.map_values(|s: Seq<char>| str_debug(s))
}

/// The debug form of each pair: key, colon, blank, value.
pub open spec fn debug_pairs(pairs: Seq<(Seq<char>, Seq<char>)>) -> Seq<Seq<char>> {
    pairs.map_values(|p: (Seq<char>, Seq<char>)| str_debug(p.0) + ": "@ + str_debug(p.1))
}

/// The text of a parameter: a string, constant or comment as it is; a list
/// as its members in debug form between square brackets; a structure as
/// its fields in debug form between braces.
pub open spec fn parameter_text(p: ParameterView) -> Seq<char> {
    match p {
        ParameterView::String(s) => s,
        ParameterView::Constant(s) => s,
        ParameterView::Comment(s) => s,
        ParameterView::Array(a) => "["@ + joined(debug_each(a), ", "@) + "]"@,
        ParameterView::Dict(d) => "{"@ + joined(debug_pairs(d), ", "@) + "}"@,
    }
}

fn join_commas(parts: &Vec<String>) -> (r: String)
    ensures
        r@ == joined(texts(parts@), ", "@),
{
    let mut out = String::new();
    let mut i: usize = 0;
    proof {
        assert(texts(parts@).take(0) =~= Seq::<Seq<char>>::empty());
    }
    while i < parts.len()
        invariant
            i <= parts.len(),
            out@ == joined(texts(parts@).take(i as int), ", "@),
        decreases parts.len() - i,
    {
        if i > 0 {
            out.append(", ");
        }
        out.append(parts[i].as_str());
        proof {
            let all = texts(parts@);
            let next = all.take(i as int + 1);
            assert(next.drop_last() =~= all.take(i as int));
            assert(next.last() == parts@[i as int]@);
            if i == 0 {
                assert(out@ =~= next[0]);
            }
        }
        i = i + 1;
    }
    proof {
        assert(texts(parts@).take(i as int) =~= texts(parts@));
    }
    out
}

fn clone_pairs(pairs: &Vec<(String, String)>) -> (r: Vec<(String, String)>)
    ensures
        pairs_view(r@) == pairs_view(pairs@),
{
    let mut out: Vec<(String, String)> = Vec::new();
    let mut i: usize = 0;
    while i < pairs.len()
        invariant
            i <= pairs.len(),
            pairs_view(out@) == pairs_view(pairs@).take(i as int),
        decreases pairs.len() - i,
    {
        let pair = (pairs[i].0.clone(), pairs[i].1.clone());
        proof {
            assert(pairs_view(out@.push(pair)) =~= pairs_view(out@).push((pair.0@, pair.1@)));
            assert(pairs_view(pairs@).take(i as int + 1) =~= pairs_view(pairs@).take(
                i as int,
            ).push((pairs@[i as int].0@, pairs@[i as int].1@)));
        }
        out.push(pair);
        i = i + 1;
    }
    proof {
        assert(pairs_view(pairs@).take(i as int) =~= pairs_view(pairs@));
    }
    out
}

impl Clone for Parameter {
    fn clone(&self) -> (r: Parameter)
        ensures
            r@ == self@,
    {
        match self {
            Parameter::String(s) => Parameter::String(s.clone()),
            Parameter::Array(a) => Parameter::Array(clone_texts(a)),
            Parameter::Constant(s) => Parameter::Constant(s.clone()),
            Parameter::Comment(s) => Parameter::Comment(s.clone()),
            Parameter::Dict(d) => Parameter::Dict(clone_pairs(d)),
        }
    }
}

impl Parameter {
    /// The parameter written as text.
    #[verifier::rlimit(50)]
    pub fn to_text(&self) -> (r: String)
        ensures
            r@ == parameter_text(self@),
    {
        match self {
            Parameter::String(s) => s.clone(),
            Parameter::Constant(s) => s.clone(),
            Parameter::Comment(s) => s.clone(),
            Parameter::Array(a) => {
                let mut parts: Vec<String> = Vec::new();
                let mut i: usize = 0;
                while i < a.len()
                    invariant
                        i <= a.len(),
                        texts(parts@) == debug_each(texts(a@).take(i as int)),
                    decreases a.len() - i,
                {
                    let part = debug_text(a[i].as_str());
                    proof {
                        assert(texts(parts@.push(part)) =~= texts(parts@).push(part@));
                        assert(texts(a@).take(i as int + 1) =~= texts(a@).take(i as int).push(
                            a@[i as int]@,
                        ));
                        assert(debug_each(texts(a@).take(i as int).push(a@[i as int]@))
                            =~= debug_each(texts(a@).take(i as int)).push(str_debug(a@[i as int]@)));
                    }
                    parts.push(part);
                    i = i + 1;
                }
                proof {
                    assert(texts(a@).take(i as int) =~= texts(a@));
                }
                let mut out = String::from_str("[");
                out.append(join_commas(&parts).as_str());
                out.append("]");
                out
            },
            Parameter::Dict(d) => {
                let mut parts: Vec<String> = Vec::new();
                let mut i: usize = 0;
                while i < d.len()
                    invariant
                        i <= d.len(),
                        texts(parts@) == debug_pairs(pairs_view(d@).take(i as int)),
                    decreases d.len() - i,
                {
                    let mut part = debug_text(d[i].0.as_str());
                    part.append(": ");
                    part.append(debug_text(d[i].1.as_str()).as_str());
                    proof {
                        let pair = (d@[i as int].0@, d@[i as int].1@);
                        assert(texts(parts@.push(part)) =~= texts(parts@).push(part@));
                        assert(pairs_view(d@).take(i as int + 1) =~= pairs_view(d@).take(
                            i as int,
                        ).push(pair));
                        assert(debug_pairs(pairs_view(d@).take(i as int).push(pair))
                            =~= debug_pairs(pairs_view(d@).take(i as int)).push(
                            str_debug(pair.0) + ": "@ + str_debug(pair.1),
                        ));
                    }
                    parts.push(part);
                    i = i + 1;
                }
                proof {
                    assert(pairs_view(d@).take(i as int) =~= pairs_view(d@));
                }
                let mut out = String::from_str("{");
                out.append(join_commas(&parts).as_str());
                out.append("}");
                out
            },
        }
    }
}

/// The kinds of nodes of a parsed trace.
#[derive(Clone, Copy, Debug, PartialEq, Eq, Structural)]
pub enum Rule {
    File,
    SyscallCall,
    Exit,
    Eoi,
    Syscall,
    Array,
    String,
    Constant,
    Comment,
    Structure,
    Key,
    ReturnCode,
    ReturnValue,
    Message,
    Signal,
    Other,
}

/// A node without parts, with the text that it spans.
pub struct Leaf {
    pub rule: Rule,
    pub text: String,
}

/// A part of a system-call line, with the text that it spans and its own
/// parts.
pub struct Branch {
    pub rule: Rule,
    pub text: String,
    pub inner: Vec<Leaf>,
}

/// A top-level node of the trace, with its parts.
pub struct Line {
    pub rule: Rule,
    pub inner: Vec<Branch>,
}

/// What stops the reading of a parsed trace.
#[derive(Clone, Copy, Debug, PartialEq, Eq, Structural)]
pub enum StraceError {
    /// A structure ends with a key that has no value.
    DanglingKey,
    /// A return value is not a number of 32 bits.
    BadReturnValue,
}

/// The text without the white space at its two ends.
pub open spec fn trim_text(text: Seq<char>) -> Seq<char> {
    trim_end(trim_start(text))
}

/// The number of 32 bits that the text writes in decimal: digits behind an
/// optional sign, and nothing else; none where the text is of another
/// form or the number is out of range.
pub open spec fn parsed_i32(text: Seq<char>) -> Option<i32> {
    let negative = text.len() > 0 && text[0] == '-';
    let digits = if text.len() > 0 && (text[0] == '-' || text[0] == '+') {
        text.drop_first()
    } else {
        text
    };
    if !all_digits(digits) {
        None
    } else if negative {
        if digits_value(digits) <= 0x8000_0000 {
            Some((0 - digits_value(digits)) as i32)
        } else {
            None
        }
    } else {
        if digits_value(digits) <= 0x7fff_ffff {
            Some(digits_value(digits) as i32)
        } else {
            None
        }
    }
}

/// Calls `str::trim`, which by its documentation returns the text with
/// leading and trailing white space removed, white space being the
/// characters with the Unicode property `White_Space`. The contract says
/// so.
#[verifier::external_body]
pub(crate) fn trimmed(text: &str) -> (r: &str)
    ensures
        r@ == trim_text(text@),
{
    text.trim()
}

/// Calls `str::parse` for an `i32`, which by the documentation of the
/// integer types reads an optional `+` or `-` sign followed by decimal
/// digits only, and fails on an empty text, on any other character and on a
/// number out of range. The contract says so.
#[verifier::external_body]
fn parse_i32(text: &str) -> (r: Option<i32>)
    ensures
        r == parsed_i32(text@),
{
    text.parse::<i32>().ok()
}

/// The texts that the leaves span.
pub open spec fn leaf_texts(leaves: Seq<Leaf>) -> Seq<Seq<char>> {
    leaves.map_values(|l: Leaf| l.text@)
}

/// The position of `key` among the pairs, or their number where it is
/// none of their keys.
pub open spec fn key_position(pairs: Seq<(Seq<char>, Seq<char>)>, key: Seq<char>) -> int
    decreases pairs.len(),
{
    if pairs.len() == 0 {
        0
    } else if pairs[0].0 == key {
        0
    } else {
        1 + key_position(pairs.drop_first(), key)
    }
}

/// The pairs with `value` under `key`: in the place of the pair that held
/// the key, or at the end.
pub open spec fn dict_insert(
    pairs: Seq<(Seq<char>, Seq<char>)>,
    key: Seq<char>,
    value: Seq<char>,
) -> Seq<(Seq<char>, Seq<char>)> {
    let at = key_position(pairs, key);
    if at < pairs.len() {
        pairs.update(at, (key, value))
    } else {
        pairs.push((key, value))
    }
}

/// The fields of a structure from leaf `i` on, added to `acc`: each key
/// takes the leaf behind it as its value, and other leaves are passed over.
pub open spec fn dict_from(leaves: Seq<Leaf>, i: int, acc: Seq<(Seq<char>, Seq<char>)>) -> Result<
    Seq<(Seq<char>, Seq<char>)>,
    StraceError,
>
    decreases leaves.len() - i,
{
    if i < 0 || i >= leaves.len() {
        Ok(acc)
    } else if leaves[i].rule == Rule::Key {
        if i + 1 >= leaves.len() {
            Err(StraceError::DanglingKey)
        } else {
            dict_from(leaves, i + 2, dict_insert(acc, leaves[i].text@, leaves[i + 1].text@))
        }
    } else {
        dict_from(leaves, i + 1, acc)
    }
}

/// The return code after the leaves from `i` on, starting from `acc`.
pub open spec fn return_code_from(leaves: Seq<Leaf>, i: int, acc: ReturnCodeView) -> Result<
    ReturnCodeView,
    StraceError,
>
    decreases leaves.len() - i,
{
    if i < 0 || i >= leaves.len() {
        Ok(acc)
    } else {
        match leaves[i].rule {
            Rule::ReturnValue => match parsed_i32(trim_text(leaves[i].text@)) {
                Some(code) => return_code_from(
                    leaves,
                    i + 1,
                    ReturnCodeView { code, constant: acc.constant, message: acc.message },
                ),
                None => Err(StraceError::BadReturnValue),
            },
            Rule::Constant => return_code_from(
                leaves,
                i + 1,
                ReturnCodeView {
                    code: acc.code,
                    constant: Some(leaves[i].text@),
                    message: acc.message,
                },
            ),
            Rule::Message => return_code_from(
                leaves,
                i + 1,
                ReturnCodeView {
                    code: acc.code,
                    constant: acc.constant,
                    message: Some(leaves[i].text@),
                },
            ),
            _ => return_code_from(leaves, i + 1, acc),
        }
    }
}

/// The system calls read so far, and the one being read.
pub struct Reading {
    pub done: Seq<SyscallView>,
    pub current: SyscallView,
}

/// A system call without name and arguments, with return code zero.
pub open spec fn blank_call() -> SyscallView {
    SyscallView {
        syscall: Seq::empty(),
        args: Seq::empty(),
        return_code: ReturnCodeView { code: 0, constant: None, message: None },
    }
}

/// The call being read with one more argument.
pub open spec fn with_arg(state: Reading, arg: ParameterView) -> Reading {
    Reading {
        done: state.done,
        current: SyscallView {
            syscall: state.current.syscall,
            args: state.current.args.push(arg),
            return_code: state.current.return_code,
        },
    }
}

/// The reading after one more part of the line. A name ends the call being
/// read where that one has a name, and begins the next.
pub open spec fn read_part(state: Reading, part: Branch) -> Result<Reading, StraceError> {
    match part.rule {
        Rule::Syscall => if state.current.syscall.len() > 0 {
            Ok(
                Reading {
                    done: state.done.push(state.current),
                    current: SyscallView {
                        syscall: part.text@,
                        args: Seq::empty(),
                        return_code: ReturnCodeView { code: 0, constant: None, message: None },
                    },
                },
            )
        } else {
            Ok(
                Reading {
                    done: state.done,
                    current: SyscallView {
                        syscall: part.text@,
                        args: state.current.args,
                        return_code: state.current.return_code,
                    },
                },
            )
        },
        Rule::Array => Ok(with_arg(state, ParameterView::Array(leaf_texts(part.inner@)))),
        Rule::String => Ok(with_arg(state, ParameterView::String(part.text@))),
        Rule::Constant => Ok(with_arg(state, ParameterView::Constant(part.text@))),
        Rule::Comment => Ok(with_arg(state, ParameterView::Comment(part.text@))),
        Rule::Structure => match dict_from(part.inner@, 0, Seq::empty()) {
            Ok(fields) => Ok(with_arg(state, ParameterView::Dict(fields))),
            Err(e) => Err(e),
        },
        Rule::ReturnCode => match return_code_from(part.inner@, 0, state.current.return_code) {
            Ok(code) => Ok(
                Reading {
                    done: state.done,
                    current: SyscallView {
                        syscall: state.current.syscall,
                        args: state.current.args,
                        return_code: code,
                    },
                },
            ),
            Err(e) => Err(e),
        },
        _ => Ok(state),
    }
}

/// The reading after the first `n` parts of a line, from a blank call on.
pub open spec fn reading_after(parts: Seq<Branch>, n: int) -> Result<Reading, StraceError>
    decreases n,
{
    if n <= 0 {
        Ok(Reading { done: Seq::empty(), current: blank_call() })
    } else {
        match reading_after(parts, n - 1) {
            Ok(state) => read_part(state, parts[n - 1]),
            Err(e) => Err(e),
        }
    }
}

/// The system calls of one line of the trace: those that a later name has
/// ended, and the one that was being read at the end of the line.
pub open spec fn line_calls(parts: Seq<Branch>) -> Result<Seq<SyscallView>, StraceError> {
    match reading_after(parts, parts.len() as int) {
        Ok(state) => Ok(state.done.push(state.current)),
        Err(e) => Err(e),
    }
}

/// Where the first `i` pairs do not hold `key`, its position is `i` plus
/// its position among the rest.
proof fn lemma_key_position_skips(pairs: Seq<(Seq<char>, Seq<char>)>, key: Seq<char>, i: int)
    requires
        0 <= i <= pairs.len(),
        forall|j: int| 0 <= j < i ==> pairs[j].0 != key,
    ensures
        key_position(pairs, key) == i + key_position(pairs.subrange(i, pairs.len() as int), key),
    decreases i,
{
    if i == 0 {
        assert(pairs.subrange(0, pairs.len() as int) =~= pairs);
    } else {
        let rest = pairs.drop_first();
        assert forall|j: int| 0 <= j < i - 1 implies rest[j].0 != key by {
            assert(rest[j] == pairs[j + 1]);
        }
        lemma_key_position_skips(rest, key, i - 1);
        assert(rest.subrange(i - 1, rest.len() as int) =~= pairs.subrange(i, pairs.len() as int));
    }
}

/// Puts `value` under `key`, in the place of an earlier value of that key
/// or at the end.
#[verifier::rlimit(50)]
fn insert_field(pairs: &mut Vec<(String, String)>, key: String, value: String)
    ensures
        pairs_view(final(pairs)@) == dict_insert(pairs_view(old(pairs)@), key@, value@),
{
    let ghost before = pairs_view(pairs@);
    let mut i: usize = 0;
    while i < pairs.len()
        invariant
            i <= pairs.len(),
            pairs@ == old(pairs)@,
            before == pairs_view(pairs@),
            forall|j: int| 0 <= j < i ==> before[j].0 != key@,
        decreases pairs.len() - i,
    {
        if pairs[i].0 == key {
            proof {
                lemma_key_position_skips(before, key@, i as int);
                assert(before.subrange(i as int, before.len() as int)[0] == before[i as int]);
            }
            pairs.set(i, (key, value));
            proof {
                assert(pairs_view(pairs@) =~= before.update(i as int, (key@, value@)));
            }
            return ;
        }
        i = i + 1;
    }
    proof {
        lemma_key_position_skips(before, key@, i as int);
        assert(before.subrange(i as int, before.len() as int).len() == 0);
    }
    pairs.push((key, value));
    proof {
        assert(pairs_view(pairs@) =~= before.push((key@, value@)));
    }
}

/// Reads the fields of a structure from its leaves.
fn read_fields(leaves: &Vec<Leaf>) -> (r: Result<Vec<(String, String)>, StraceError>)
    ensures
        match (r, dict_from(leaves@, 0, Seq::empty())) {
            (Ok(fields), Ok(expected)) => pairs_view(fields@) == expected,
            (Err(e), Err(expected)) => e == expected,
            _ => false,
        },
{
    let mut fields: Vec<(String, String)> = Vec::new();
    let mut i: usize = 0;
    proof {
        assert(pairs_view(fields@) =~= Seq::empty());
    }
    while i < leaves.len()
        invariant
            i <= leaves.len(),
            dict_from(leaves@, 0, Seq::empty()) == dict_from(leaves@, i as int, pairs_view(fields@)),
        decreases leaves.len() - i,
    {
        if leaves[i].rule == Rule::Key {
            if i + 1 >= leaves.len() {
                return Err(StraceError::DanglingKey);
            }
            insert_field(&mut fields, leaves[i].text.clone(), leaves[i + 1].text.clone());
            i = i + 2;
        } else {
            i = i + 1;
        }
    }
    Ok(fields)
}

/// Reads the return code from its leaves, starting from `code`.
fn read_return_code(leaves: &Vec<Leaf>, code: ReturnCode) -> (r: Result<ReturnCode, StraceError>)
    ensures
        match (r, return_code_from(leaves@, 0, code@)) {
            (Ok(read), Ok(expected)) => read@ == expected,
            (Err(e), Err(expected)) => e == expected,
            _ => false,
        },
{
    let mut read = code;
    let mut i: usize = 0;
    while i < leaves.len()
        invariant
            i <= leaves.len(),
            return_code_from(leaves@, 0, code@) == return_code_from(leaves@, i as int, read@),
        decreases leaves.len() - i,
    {
        match leaves[i].rule {
            Rule::ReturnValue => {
                match parse_i32(trimmed(leaves[i].text.as_str())) {
                    Some(value) => {
                        read.code = value;
                    },
                    None => {
                        proof {
                            assert(return_code_from(leaves@, i as int, read@) == Err::<
                                ReturnCodeView,
                                StraceError,
                            >(StraceError::BadReturnValue));
                        }
                        return Err(StraceError::BadReturnValue);
                    },
                }
            },
            Rule::Constant => {
                read.constant = Some(leaves[i].text.clone());
            },
            Rule::Message => {
                read.message = Some(leaves[i].text.clone());
            },
            _ => {},
        }
        i = i + 1;
    }
    Ok(read)
}

fn texts_of(leaves: &Vec<Leaf>) -> (r: Vec<String>)
    ensures
        texts(r@) == leaf_texts(leaves@),
{
    let mut out: Vec<String> = Vec::new();
    let mut i: usize = 0;
    while i < leaves.len()
        invariant
            i <= leaves.len(),
            texts(out@) == leaf_texts(leaves@.take(i as int)),
        decreases leaves.len() - i,
    {
        let text = leaves[i].text.clone();
        proof {
            assert(texts(out@.push(text)) =~= texts(out@).push(text@));
            assert(leaf_texts(leaves@.take(i as int + 1)) =~= leaf_texts(leaves@.take(i as int)).push(
                leaves@[i as int].text@,
            ));
        }
        out.push(text);
        i = i + 1;
    }
    proof {
        assert(leaves@.take(i as int) =~= leaves@);
    }
    out
}

/// Reads the system calls of one line of the trace from its parts and adds
/// them to `syscalls`. On an error `syscalls` stays as it was.
#[verifier::rlimit(50)]
pub fn parse_syscall(parts: &Vec<Branch>, syscalls: &mut Vec<Syscall>) -> (r: Result<
    (),
    StraceError,
>)
    ensures
        match (r, line_calls(parts@)) {
            (Ok(()), Ok(calls)) => calls_view(final(syscalls)@) == calls_view(old(syscalls)@)
                + calls,
            (Err(e), Err(expected)) => e == expected && final(syscalls)@ == old(syscalls)@,
            _ => false,
        },
{
    let mut done: Vec<Syscall> = Vec::new();
    let mut current = Syscall {
        syscall: String::new(),
        args: Vec::new(),
        return_code: ReturnCode { code: 0, constant: None, message: None },
    };
    let mut n: usize = 0;
    proof {
        assert(calls_view(done@) =~= Seq::empty());
        assert(params_view(current.args@) =~= Seq::empty());
    }
    while n < parts.len()
        invariant
            n <= parts.len(),
            syscalls@ == old(syscalls)@,
            reading_after(parts@, n as int) == Ok::<Reading, StraceError>(
                Reading { done: calls_view(done@), current: current@ },
            ),
        decreases parts.len() - n,
    {
        let part = &parts[n];
        let ghost state = Reading { done: calls_view(done@), current: current@ };
        proof {
            assert(reading_after(parts@, n as int + 1) == read_part(state, parts@[n as int]));
        }
        match part.rule {
            Rule::Syscall => {
                if !current.syscall.as_str().is_empty() {
                    proof {
                        assert(calls_view(done@.push(current)) =~= calls_view(done@).push(current@));
                    }
                    done.push(current);
                    current = Syscall {
                        syscall: part.text.clone(),
                        args: Vec::new(),
                        return_code: ReturnCode { code: 0, constant: None, message: None },
                    };
                    proof {
                        assert(params_view(current.args@) =~= Seq::empty());
                    }
                } else {
                    current.syscall = part.text.clone();
                }
            },
            Rule::Array => {
                let arg = Parameter::Array(texts_of(&part.inner));
                proof {
                    assert(params_view(current.args@.push(arg)) =~= params_view(current.args@).push(
                        arg@,
                    ));
                }
                current.args.push(arg);
            },
            Rule::String => {
                let arg = Parameter::String(part.text.clone());
                proof {
                    assert(params_view(current.args@.push(arg)) =~= params_view(current.args@).push(
                        arg@,
                    ));
                }
                current.args.push(arg);
            },
            Rule::Constant => {
                let arg = Parameter::Constant(part.text.clone());
                proof {
                    assert(params_view(current.args@.push(arg)) =~= params_view(current.args@).push(
                        arg@,
                    ));
                }
                current.args.push(arg);
            },
            Rule::Comment => {
                let arg = Parameter::Comment(part.text.clone());
                proof {
                    assert(params_view(current.args@.push(arg)) =~= params_view(current.args@).push(
                        arg@,
                    ));
                }
                current.args.push(arg);
            },
            Rule::Structure => {
                match read_fields(&part.inner) {
                    Ok(fields) => {
                        let arg = Parameter::Dict(fields);
                        proof {
                            assert(params_view(current.args@.push(arg)) =~= params_view(
                                current.args@,
                            ).push(arg@));
                        }
                        current.args.push(arg);
                    },
                    Err(e) => {
                        proof {
                            lemma_reading_fails(parts@, n as int + 1);
                        }
                        return Err(e);
                    },
                }
            },
            Rule::ReturnCode => {
                let Syscall { syscall, args, return_code } = current;
                match read_return_code(&part.inner, return_code) {
                    Ok(code) => {
                        current = Syscall { syscall, args, return_code: code };
                    },
                    Err(e) => {
                        proof {
                            lemma_reading_fails(parts@, n as int + 1);
                        }
                        return Err(e);
                    },
                }
            },
            _ => {},
        }
        n = n + 1;
    }
    proof {
        assert(calls_view(done@.push(current)) =~= calls_view(done@).push(current@));
    }
    done.push(current);
    let ghost before = syscalls@;
    let ghost added = done@;
    syscalls.append(&mut done);
    proof {
        assert(calls_view(before + added) =~= calls_view(before) + calls_view(added));
    }
    Ok(())
}

/// A reading that fails after `n` parts fails after any more parts, in the
/// same way.
proof fn lemma_reading_fails(parts: Seq<Branch>, n: int)
    requires
        0 <= n <= parts.len(),
        reading_after(parts, n).is_err(),
    ensures
        reading_after(parts, parts.len() as int) == reading_after(parts, n),
    decreases parts.len() - n,
{
    if n < parts.len() {
        assert(reading_after(parts, n + 1) == reading_after(parts, n));
        lemma_reading_fails(parts, n + 1);
    }
}

/// The system calls of the first `n` lines of a trace. Only the lines that
/// hold system calls count.
pub open spec fn trace_calls(lines: Seq<Line>, n: int) -> Result<Seq<SyscallView>, StraceError>
    decreases n,
{
    if n <= 0 {
        Ok(Seq::empty())
    } else {
        match trace_calls(lines, n - 1) {
            Ok(calls) => if lines[n - 1].rule == Rule::SyscallCall {
                match line_calls(lines[n - 1].inner@) {
                    Ok(more) => Ok(calls + more),
                    Err(e) => Err(e),
                }
            } else {
                Ok(calls)
            },
            Err(e) => Err(e),
        }
    }
}

/// A trace that fails within its first `n` lines fails as a whole, in the
/// same way.
proof fn lemma_trace_fails(lines: Seq<Line>, n: int)
    requires
        0 <= n <= lines.len(),
        trace_calls(lines, n).is_err(),
    ensures
        trace_calls(lines, lines.len() as int) == trace_calls(lines, n),
    decreases lines.len() - n,
{
    if n < lines.len() {
        assert(trace_calls(lines, n + 1) == trace_calls(lines, n));
        lemma_trace_fails(lines, n + 1);
    }
}

/// The system calls of a parsed trace, in the order of the trace.
pub fn read_strace(lines: &Vec<Line>) -> (r: Result<Vec<Syscall>, StraceError>)
    ensures
        match (r, trace_calls(lines@, lines@.len() as int)) {
            (Ok(calls), Ok(expected)) => calls_view(calls@) == expected,
            (Err(e), Err(expected)) => e == expected,
            _ => false,
        },
{
    let mut syscalls: Vec<Syscall> = Vec::new();
    let mut n: usize = 0;
    proof {
        assert(calls_view(syscalls@) =~= Seq::empty());
    }
    while n < lines.len()
        invariant
            n <= lines.len(),
            trace_calls(lines@, n as int) == Ok::<Seq<SyscallView>, StraceError>(
                calls_view(syscalls@),
            ),
        decreases lines.len() - n,
    {
        if lines[n].rule == Rule::SyscallCall {
            match parse_syscall(&lines[n].inner, &mut syscalls) {
                Ok(()) => {},
                Err(e) => {
                    proof {
                        lemma_trace_fails(lines@, n as int + 1);
                    }
                    return Err(e);
                },
            }
        }
        n = n + 1;
    }
    Ok(syscalls)
}

} // verus!
