//! The aggregation of observed capability checks: one entry for each
//! process identity, holding the capabilities that its checks ask for and
//! that the stack filter lets through.

use vstd::prelude::*;
use vstd::std_specs::cmp::PartialEqSpecImpl;
use crate::capset::{
    get_cap, Cap, CapSet, CAP_COUNT, CAP_DAC_OVERRIDE, CAP_DAC_READ_SEARCH, CAP_SETUID,
    CAP_SYS_PTRACE,
};
use crate::request::{
    extract_ns, high_half, low_half, split_uid_gid, Gid, Nsid, Pid, Request, Uid,
};
use crate::symbols::{nearest_symbol, KernelSymbol, KernelSymbols};
use crate::text::same_text;

verus! {

/// The identity under which the checks of one process are merged. The group
/// id is no part of it.
#[derive(Clone, Copy, Debug, PartialEq, Eq, Structural)]
pub struct ProcessKey {
    pub pid: Pid,
    pub ppid: Pid,
    pub uid: Uid,
    pub parent_ns: Nsid,
    pub ns: Nsid,
}

/// A process identity with the capabilities gathered for it.
#[derive(Clone, Copy, Debug)]
pub struct CapSetEntry {
    pub pid: Pid,
    pub ppid: Pid,
    pub uid: Uid,
    pub gid: Gid,
    pub ns: Nsid,
    pub parent_ns: Nsid,
    pub capabilities: CapSet,
}

impl CapSetEntry {
    /// The entry of a process without any capability.
    pub fn new(pid: Pid, ppid: Pid, uid: Uid, gid: Gid, parent_ns: Nsid, ns: Nsid) -> (r:
        CapSetEntry)
        ensures
            r.pid == pid,
            r.ppid == ppid,
            r.uid == uid,
            r.gid == gid,
            r.parent_ns == parent_ns,
            r.ns == ns,
            r.capabilities@ == Set::<nat>::empty(),
    {
        CapSetEntry { pid, ppid, uid, gid, parent_ns, ns, capabilities: CapSet::empty() }
    }

    /// Puts `cap` into the entry's set.
    pub fn add(&mut self, cap: Cap)
        ensures
            final(self).capabilities@ == old(self).capabilities@.insert(cap.spec_index() as nat),
            final(self).spec_key() == old(self).spec_key(),
            final(self).gid == old(self).gid,
    {
        self.capabilities.add(cap);
    }

    /// The identity of the entry's process.
    pub open spec fn spec_key(self) -> ProcessKey {
        ProcessKey {
            pid: self.pid,
            ppid: self.ppid,
            uid: self.uid,
            parent_ns: self.parent_ns,
            ns: self.ns,
        }
    }

    #[verifier::when_used_as_spec(spec_key)]
    pub fn key(self) -> (r: ProcessKey)
        ensures
            r == self.spec_key(),
    {
        ProcessKey {
            pid: self.pid,
            ppid: self.ppid,
            uid: self.uid,
            parent_ns: self.parent_ns,
            ns: self.ns,
        }
    }
}

impl PartialEq for CapSetEntry {
    /// Two entries are equal when they stand for the same process identity.
    fn eq(&self, other: &Self) -> (r: bool) {
        self.pid == other.pid && self.ppid == other.ppid && self.uid == other.uid
            && self.parent_ns == other.parent_ns && self.ns == other.ns
    }
}

impl PartialEqSpecImpl for CapSetEntry {
    open spec fn obeys_eq_spec() -> bool {
        true
    }

    open spec fn eq_spec(&self, other: &Self) -> bool {
        self.pid == other.pid && self.ppid == other.ppid && self.uid == other.uid
            && self.parent_ns == other.parent_ns && self.ns == other.ns
    }
}

impl Eq for CapSetEntry {

}

/// `Hash::hash` of `i32`, which feeds the number to the hasher. Nothing is
/// said of what the hasher then holds.
pub assume_specification<H: std::hash::Hasher>[ <i32 as std::hash::Hash>::hash::<H> ](
    value: &i32,
    state: &mut H,
);

/// `Hash::hash` of `u32`, which feeds the number to the hasher. Nothing is
/// said of what the hasher then holds.
pub assume_specification<H: std::hash::Hasher>[ <u32 as std::hash::Hash>::hash::<H> ](
    value: &u32,
    state: &mut H,
);

impl std::hash::Hash for CapSetEntry {
    /// Feeds the hasher what the equality compares: the identity without
    /// the group id.
    fn hash<H: std::hash::Hasher>(&self, state: &mut H) {
        self.pid.hash(state);
        self.ppid.hash(state);
        self.uid.hash(state);
        self.parent_ns.hash(state);
        self.ns.hash(state);
    }
}

/// A request together with the frames of its kernel stack, as instruction
/// pointers; no frames where the stack-trace table has no entry for it.
pub struct Observation {
    pub request: Request,
    pub stack: Option<Vec<u64>>,
}

/// The identity of the process that a request comes from.
pub open spec fn key_of(request: Request) -> ProcessKey {
    ProcessKey {
        pid: request.pid,
        ppid: request.ppid,
        uid: low_half(request.uid_gid),
        parent_ns: high_half(request.pnsid_nsid),
        ns: low_half(request.pnsid_nsid),
    }
}

/// Whether some frame of the stack lies in the function named `symbol`.
pub open spec fn stack_has_symbol(
    frames: Seq<u64>,
    table: Seq<KernelSymbol>,
    symbol: Seq<char>,
) -> bool {
    exists|f: int|
        0 <= f < frames.len() && nearest_symbol(table, #[trigger] frames[f]) == Some(symbol)
}

/// The stack filter: whether a check of `capability` from this stack is
/// dropped as benign or as too noisy.
pub open spec fn is_filtered(capability: u8, frames: Seq<u64>, table: Seq<KernelSymbol>) -> bool {
    ||| capability == CAP_SETUID && stack_has_symbol(frames, table, "cap_bprm_creds_from_file"@)
    ||| capability == CAP_DAC_OVERRIDE
    ||| capability == CAP_DAC_READ_SEARCH && stack_has_symbol(frames, table, "may_open"@)
    ||| capability == CAP_SYS_PTRACE
}

/// Whether some frame of `stack` resolves to `symbol`.
pub fn skip_priv_sym(stack: &Vec<u64>, ksyms: &KernelSymbols, symbol: &str) -> (r: bool)
    ensures
        r == stack_has_symbol(stack@, ksyms@, symbol@),
{
    let mut f: usize = 0;
    while f < stack.len()
        invariant
            f <= stack.len(),
            forall|g: int| 0 <= g < f ==> nearest_symbol(ksyms@, #[trigger] stack@[g]) != Some(symbol@),
        decreases stack.len() - f,
    {
        match ksyms.resolve(stack[f]) {
            Some(name) => {
                if same_text(name.as_str(), symbol) {
                    return true;
                }
            },
            None => {},
        }
        f = f + 1;
    }
    false
}

/// Applies the stack filter to a check of `capability` from `stack`.
pub fn filter_request(capability: u8, stack: &Vec<u64>, ksyms: &KernelSymbols) -> (r: bool)
    ensures
        r == is_filtered(capability, stack@, ksyms@),
{
    if capability == CAP_SETUID {
        skip_priv_sym(stack, ksyms, "cap_bprm_creds_from_file")
    } else if capability == CAP_DAC_READ_SEARCH {
        skip_priv_sym(stack, ksyms, "may_open")
    } else {
        capability == CAP_DAC_OVERRIDE || capability == CAP_SYS_PTRACE
    }
}

/// Whether the stack of the observation is known, so that it takes part in
/// the aggregation.
pub open spec fn seen(o: Observation) -> bool {
    o.stack.is_some()
}

/// Whether the observation is seen and passes the stack filter.
pub open spec fn counted(o: Observation, table: Seq<KernelSymbol>) -> bool {
    o.stack matches Some(frames) && !is_filtered(o.request.capability, frames@, table)
}

/// Whether the observation gives capability `c` to the process `key`.
pub open spec fn raises(o: Observation, table: Seq<KernelSymbol>, key: ProcessKey, c: nat) -> bool {
    counted(o, table) && key_of(o.request) == key && o.request.capability as nat == c
}

/// The capabilities that the observations give to the process `key`.
pub open spec fn caps_of(obs: Seq<Observation>, table: Seq<KernelSymbol>, key: ProcessKey) -> Set<
    nat,
> {
    Set::new(|c: nat| exists|j: int| 0 <= j < obs.len() && raises(#[trigger] obs[j], table, key, c))
}

/// Whether observation `j` passes the filter with a capability that the
/// table does not know.
pub open spec fn unknown_at(obs: Seq<Observation>, table: Seq<KernelSymbol>, j: int) -> bool {
    0 <= j < obs.len() && counted(obs[j], table) && obs[j].request.capability >= CAP_COUNT
}

/// Whether observation `j` is the first seen one of the process `key`.
pub open spec fn is_first(obs: Seq<Observation>, key: ProcessKey, j: int) -> bool {
    &&& 0 <= j < obs.len()
    &&& seen(obs[j])
    &&& key_of(obs[j].request) == key
    &&& forall|k: int| 0 <= k < j && seen(#[trigger] obs[k]) ==> key_of(obs[k].request) != key
}

/// Whether some entry stands for the process `key`.
pub open spec fn has_key(entries: Seq<CapSetEntry>, key: ProcessKey) -> bool {
    exists|a: int| 0 <= a < entries.len() && (#[trigger] entries[a]).spec_key() == key
}

/// Whether `entries` is the aggregation of the observations, with
/// `firsts[a]` the first seen observation of the process of entry `a`.
pub open spec fn aggregated_with(
    obs: Seq<Observation>,
    table: Seq<KernelSymbol>,
    entries: Seq<CapSetEntry>,
    firsts: Seq<int>,
) -> bool {
    &&& firsts.len() == entries.len()
    &&& forall|j: int|
        0 <= j < obs.len() && seen(#[trigger] obs[j]) ==> has_key(entries, key_of(obs[j].request))
    &&& forall|a: int|
        0 <= a < entries.len() ==> {
            &&& is_first(obs, (#[trigger] entries[a]).spec_key(), firsts[a])
            &&& entries[a].gid == high_half(obs[firsts[a]].request.uid_gid)
            &&& entries[a].capabilities@ == caps_of(obs, table, entries[a].spec_key())
        }
    &&& forall|a: int, b: int| 0 <= a < b < firsts.len() ==> firsts[a] < firsts[b]
}

/// Whether `entries` is the aggregation of the observations: one entry for
/// each process with a seen observation, in the order in which the
/// processes first appear, each with the group id of its first seen
/// observation and with the capabilities that its observations give it.
pub open spec fn aggregated(
    obs: Seq<Observation>,
    table: Seq<KernelSymbol>,
    entries: Seq<CapSetEntry>,
) -> bool {
    exists|firsts: Seq<int>| aggregated_with(obs, table, entries, firsts)
}

/// A check that passes the filter with a capability beyond the table.
#[derive(Clone, Copy, Debug, PartialEq, Eq, Structural)]
pub struct UnknownCapability {
    /// Index of the observation.
    pub position: usize,
    /// The capability index that it holds.
    pub capability: u8,
}

fn find_entry(entries: &Vec<CapSetEntry>, key: ProcessKey) -> (r: Option<usize>)
    ensures
        match r {
            Some(a) => a < entries.len() && entries@[a as int].spec_key() == key,
            None => !has_key(entries@, key),
        },
{
    let mut a: usize = 0;
    while a < entries.len()
        invariant
            a <= entries.len(),
            forall|b: int| 0 <= b < a ==> (#[trigger] entries@[b]).spec_key() != key,
        decreases entries.len() - a,
    {
        if entries[a].key() == key {
            return Some(a);
        }
        a = a + 1;
    }
    None
}

/// The capabilities of a process after one more observation.
#[verifier::rlimit(50)]
proof fn lemma_caps_of_push(
    obs: Seq<Observation>,
    table: Seq<KernelSymbol>,
    key: ProcessKey,
    n: int,
)
    requires
        0 <= n < obs.len(),
    ensures
        caps_of(obs.take(n + 1), table, key) == if counted(obs[n], table) && key_of(obs[n].request)
            == key {
            caps_of(obs.take(n), table, key).insert(obs[n].request.capability as nat)
        } else {
            caps_of(obs.take(n), table, key)
        },
{
    let before = obs.take(n);
    let after = obs.take(n + 1);
    let grown = if counted(obs[n], table) && key_of(obs[n].request) == key {
        caps_of(before, table, key).insert(obs[n].request.capability as nat)
    } else {
        caps_of(before, table, key)
    };
    assert forall|c: nat| caps_of(after, table, key).contains(c) == grown.contains(c) by {
        if caps_of(after, table, key).contains(c) {
            let j = choose|j: int| 0 <= j < after.len() && raises(#[trigger] after[j], table, key, c);
            if j < n {
                assert(raises(before[j], table, key, c));
            }
        }
        if caps_of(before, table, key).contains(c) {
            let j = choose|j: int|
                0 <= j < before.len() && raises(#[trigger] before[j], table, key, c);
            assert(raises(after[j], table, key, c));
        }
        if counted(obs[n], table) && key_of(obs[n].request) == key && c
            == obs[n].request.capability as nat {
            assert(raises(after[n], table, key, c));
        }
    }
    assert(caps_of(after, table, key) =~= grown);
}

/// An observation without a stack leaves the aggregation as it is.
#[verifier::rlimit(50)]
proof fn lemma_pass_over(
    obs: Seq<Observation>,
    table: Seq<KernelSymbol>,
    entries: Seq<CapSetEntry>,
    n: int,
)
    requires
        0 <= n < obs.len(),
        !seen(obs[n]),
        aggregated(obs.take(n), table, entries),
    ensures
        aggregated(obs.take(n + 1), table, entries),
{
    let before = obs.take(n);
    let after = obs.take(n + 1);
    let firsts = choose|firsts: Seq<int>| aggregated_with(before, table, entries, firsts);
    assert forall|j: int| 0 <= j < n implies #[trigger] after[j] == before[j] by {}
    assert forall|j: int| 0 <= j < after.len() && seen(#[trigger] after[j]) implies has_key(
        entries,
        key_of(after[j].request),
    ) by {
        assert(after[j] == before[j]);
    }
    assert forall|a: int| 0 <= a < entries.len() implies {
        &&& is_first(after, (#[trigger] entries[a]).spec_key(), firsts[a])
        &&& entries[a].gid == high_half(after[firsts[a]].request.uid_gid)
        &&& entries[a].capabilities@ == caps_of(after, table, entries[a].spec_key())
    } by {
        lemma_first_stays(obs, entries[a].spec_key(), firsts[a], n);
        lemma_caps_of_push(obs, table, entries[a].spec_key(), n);
    }
    assert(aggregated_with(after, table, entries, firsts));
}

/// The first seen observation of a process stays the first when more
/// observations follow.
proof fn lemma_first_stays(obs: Seq<Observation>, key: ProcessKey, j: int, n: int)
    requires
        0 <= n < obs.len(),
        is_first(obs.take(n), key, j),
    ensures
        is_first(obs.take(n + 1), key, j),
        obs.take(n + 1)[j] == obs.take(n)[j],
{
    let before = obs.take(n);
    let after = obs.take(n + 1);
    assert forall|k: int| 0 <= k < j && seen(#[trigger] after[k]) implies key_of(after[k].request)
        != key by {
        assert(after[k] == before[k]);
    }
}

/// A process has at most one first seen observation.
proof fn lemma_first_unique(obs: Seq<Observation>, key: ProcessKey, i: int, j: int)
    requires
        is_first(obs, key, i),
        is_first(obs, key, j),
    ensures
        i == j,
{
}

/// Takes observation `n`, which has a stack, into the aggregation: `cap` is
/// its capability where it passes the filter.
#[verifier::rlimit(50)]
fn absorb(
    out: &mut Vec<CapSetEntry>,
    observations: &Vec<Observation>,
    ksyms: &KernelSymbols,
    n: usize,
    cap: Option<Cap>,
)
    requires
        n < observations.len(),
        seen(observations@[n as int]),
        cap.is_some() == counted(observations@[n as int], ksyms@),
        cap matches Some(c) ==> c.spec_index() == observations@[n as int].request.capability,
        aggregated(observations@.take(n as int), ksyms@, old(out)@),
    ensures
        aggregated(observations@.take(n as int + 1), ksyms@, final(out)@),
{
    let ghost obs = observations@;
    let ghost table = ksyms@;
    let ghost before = obs.take(n as int);
    let ghost after = obs.take(n as int + 1);
    let ghost old_out = out@;
    let ghost old_firsts = choose|firsts: Seq<int>| aggregated_with(before, table, old_out, firsts);
    let o = &observations[n];
    let (ns, parent_ns) = extract_ns(o.request.pnsid_nsid);
    let (uid, gid) = split_uid_gid(o.request.uid_gid);
    let key = ProcessKey { pid: o.request.pid, ppid: o.request.ppid, uid, parent_ns, ns };
    proof {
        assert(key == key_of(o.request));
        assert(after[n as int] == obs[n as int]);
        assert forall|j: int| 0 <= j < n implies #[trigger] after[j] == before[j] by {}
        assert forall|a: int| 0 <= a < old_out.len() implies {
            &&& is_first(after, (#[trigger] old_out[a]).spec_key(), old_firsts[a])
            &&& old_out[a].gid == high_half(after[old_firsts[a]].request.uid_gid)
        } by {
            lemma_first_stays(obs, old_out[a].spec_key(), old_firsts[a], n as int);
        }
    }
    match find_entry(out, key) {
        Some(a) => {
            let mut entry = out[a];
            match cap {
                Some(cap) => {
                    entry.add(cap);
                },
                None => {},
            }
            out.set(a, entry);
            proof {
                assert forall|j: int| 0 <= j < after.len() && seen(#[trigger] after[j]) implies has_key(
                    out@,
                    key_of(after[j].request),
                ) by {
                    if j < n {
                        assert(after[j] == before[j]);
                        assert(has_key(old_out, key_of(before[j].request)));
                        let b = choose|b: int|
                            0 <= b < old_out.len() && (#[trigger] old_out[b]).spec_key() == key_of(
                                before[j].request,
                            );
                        assert(out@[b].spec_key() == key_of(after[j].request));
                    } else {
                        assert(out@[a as int].spec_key() == key);
                    }
                }
                assert forall|b: int| 0 <= b < out@.len() implies {
                    &&& is_first(after, (#[trigger] out@[b]).spec_key(), old_firsts[b])
                    &&& out@[b].gid == high_half(after[old_firsts[b]].request.uid_gid)
                    &&& out@[b].capabilities@ == caps_of(after, table, out@[b].spec_key())
                } by {
                    assert(old_out[b].spec_key() == out@[b].spec_key());
                    lemma_caps_of_push(obs, table, out@[b].spec_key(), n as int);
                    if b != a {
                        assert(out@[b] == old_out[b]);
                        if old_out[b].spec_key() == key {
                            lemma_first_unique(after, key, old_firsts[b], old_firsts[a as int]);
                        }
                    }
                }
                assert(aggregated_with(after, table, out@, old_firsts));
            }
        },
        None => {
            let mut entry = CapSetEntry::new(o.request.pid, o.request.ppid, uid, gid, parent_ns, ns);
            match cap {
                Some(cap) => {
                    entry.add(cap);
                },
                None => {},
            }
            out.push(entry);
            proof {
                let firsts = old_firsts.push(n as int);
                assert forall|k: int| 0 <= k < n && seen(#[trigger] after[k]) implies key_of(
                    after[k].request,
                ) != key by {
                    assert(after[k] == before[k]);
                    assert(has_key(old_out, key_of(before[k].request)));
                }
                assert(is_first(after, key, n as int));
                assert forall|c: nat| !caps_of(before, table, key).contains(c) by {
                    if caps_of(before, table, key).contains(c) {
                        let j = choose|j: int|
                            0 <= j < before.len() && raises(#[trigger] before[j], table, key, c);
                        assert(has_key(old_out, key_of(before[j].request)));
                    }
                }
                assert(caps_of(before, table, key) =~= Set::<nat>::empty());
                lemma_caps_of_push(obs, table, key, n as int);
                assert forall|j: int| 0 <= j < after.len() && seen(#[trigger] after[j]) implies has_key(
                    out@,
                    key_of(after[j].request),
                ) by {
                    if j < n {
                        assert(after[j] == before[j]);
                        assert(has_key(old_out, key_of(before[j].request)));
                        let b = choose|b: int|
                            0 <= b < old_out.len() && (#[trigger] old_out[b]).spec_key() == key_of(
                                before[j].request,
                            );
                        assert(out@[b].spec_key() == key_of(after[j].request));
                    } else {
                        assert(out@[old_out.len() as int].spec_key() == key);
                    }
                }
                assert forall|b: int| 0 <= b < out@.len() implies {
                    &&& is_first(after, (#[trigger] out@[b]).spec_key(), firsts[b])
                    &&& out@[b].gid == high_half(after[firsts[b]].request.uid_gid)
                    &&& out@[b].capabilities@ == caps_of(after, table, out@[b].spec_key())
                } by {
                    if b < old_out.len() {
                        assert(out@[b] == old_out[b]);
                        assert(has_key(old_out, old_out[b].spec_key()));
                        lemma_caps_of_push(obs, table, out@[b].spec_key(), n as int);
                    }
                }
                assert forall|a: int, b: int| 0 <= a < b < firsts.len() implies firsts[a]
                    < firsts[b] by {
                    if b == old_out.len() {
                        assert(is_first(before, old_out[a].spec_key(), old_firsts[a]));
                    }
                }
                assert(aggregated_with(after, table, out@, firsts));
            }
        },
    }
}

/// Aggregates the observations in the order given. An observation without
/// a stack is passed over. An observation that passes the stack filter
/// with a capability beyond the table ends the aggregation with an error
/// that names the first such observation.
pub fn aggregate_cap_set_entries(observations: &Vec<Observation>, ksyms: &KernelSymbols) -> (r:
    Result<Vec<CapSetEntry>, UnknownCapability>)
    ensures
        match r {
            Ok(entries) => {
                &&& forall|j: int| !unknown_at(observations@, ksyms@, j)
                &&& aggregated(observations@, ksyms@, entries@)
            },
            Err(e) => {
                &&& unknown_at(observations@, ksyms@, e.position as int)
                &&& e.capability == observations@[e.position as int].request.capability
                &&& forall|j: int| 0 <= j < e.position ==> !unknown_at(observations@, ksyms@, j)
            },
        },
{
    let mut out: Vec<CapSetEntry> = Vec::new();
    let mut n: usize = 0;
    proof {
        assert(aggregated_with(observations@.take(0), ksyms@, out@, Seq::<int>::empty()));
    }
    while n < observations.len()
        invariant
            n <= observations.len(),
            forall|j: int| 0 <= j < n ==> !unknown_at(observations@, ksyms@, j),
            aggregated(observations@.take(n as int), ksyms@, out@),
        decreases observations.len() - n,
    {
        let o = &observations[n];
        match &o.stack {
            None => {
                proof {
                    lemma_pass_over(observations@, ksyms@, out@, n as int);
                }
            },
            Some(frames) => {
                let cap = if filter_request(o.request.capability, frames, ksyms) {
                    None
                } else {
                    match get_cap(o.request.capability) {
                        Some(cap) => Some(cap),
                        None => {
                            return Err(
                                UnknownCapability { position: n, capability: o.request.capability },
                            );
                        },
                    }
                };
                absorb(&mut out, observations, ksyms, n, cap);
            },
        }
        n = n + 1;
    }
    proof {
        assert(observations@.take(n as int) =~= observations@);
    }
    Ok(out)
}

/// One side of the commutativity law: what one stream gives a process, any
/// stream with the same observations gives it too.
proof fn lemma_caps_of_within(
    a: Seq<Observation>,
    b: Seq<Observation>,
    table: Seq<KernelSymbol>,
    key: ProcessKey,
)
    requires
        a.to_multiset() == b.to_multiset(),
    ensures
        caps_of(a, table, key).subset_of(caps_of(b, table, key)),
{
    a.to_multiset_ensures();
    b.to_multiset_ensures();
    assert forall|c: nat| caps_of(a, table, key).contains(c) implies caps_of(
        b,
        table,
        key,
    ).contains(c) by {
        let j = choose|j: int| 0 <= j < a.len() && raises(#[trigger] a[j], table, key, c);
        assert(a.contains(a[j]));
        assert(a.to_multiset().count(a[j]) > 0);
        assert(b.to_multiset().count(a[j]) > 0);
        assert(b.contains(a[j]));
        let k = choose|k: int| 0 <= k < b.len() && b[k] == a[j];
        assert(raises(b[k], table, key, c));
    }
}

/// Merging is idempotent: the same observation taken twice gives every
/// process what it gives when taken once.
pub proof fn lemma_merge_idempotent(
    obs: Seq<Observation>,
    table: Seq<KernelSymbol>,
    o: Observation,
    key: ProcessKey,
)
    ensures
        caps_of(obs.push(o).push(o), table, key) == caps_of(obs.push(o), table, key),
{
    let once = obs.push(o);
    let twice = once.push(o);
    assert forall|c: nat| caps_of(twice, table, key).contains(c) == caps_of(
        once,
        table,
        key,
    ).contains(c) by {
        if caps_of(twice, table, key).contains(c) {
            let j = choose|j: int| 0 <= j < twice.len() && raises(#[trigger] twice[j], table, key, c);
            let k = if j < once.len() {
                j
            } else {
                once.len() - 1
            };
            assert(raises(once[k], table, key, c));
        }
        if caps_of(once, table, key).contains(c) {
            let j = choose|j: int| 0 <= j < once.len() && raises(#[trigger] once[j], table, key, c);
            assert(raises(twice[j], table, key, c));
        }
    }
    assert(caps_of(twice, table, key) =~= caps_of(once, table, key));
}

/// Merging commutes: two streams that hold the same observations, in any
/// order, give every process the same capabilities.
pub proof fn lemma_merge_commutes(
    a: Seq<Observation>,
    b: Seq<Observation>,
    table: Seq<KernelSymbol>,
    key: ProcessKey,
)
    requires
        a.to_multiset() == b.to_multiset(),
    ensures
        caps_of(a, table, key) == caps_of(b, table, key),
{
    lemma_caps_of_within(a, b, table, key);
    lemma_caps_of_within(b, a, table, key);
    assert(caps_of(a, table, key) =~= caps_of(b, table, key));
}

/// The filter is monotone: without an observation that does not pass it,
/// every process has the capabilities that it has with it.
pub proof fn lemma_filtered_is_inert(
    obs: Seq<Observation>,
    table: Seq<KernelSymbol>,
    i: int,
    key: ProcessKey,
)
    requires
        0 <= i < obs.len(),
        !counted(obs[i], table),
    ensures
        caps_of(obs.remove(i), table, key) == caps_of(obs, table, key),
{
    let rest = obs.remove(i);
    assert forall|c: nat| caps_of(rest, table, key).contains(c) == caps_of(obs, table, key).contains(
        c,
    ) by {
        if caps_of(rest, table, key).contains(c) {
            let j = choose|j: int| 0 <= j < rest.len() && raises(#[trigger] rest[j], table, key, c);
            let k = if j < i {
                j
            } else {
                j + 1
            };
            assert(raises(obs[k], table, key, c));
        }
        if caps_of(obs, table, key).contains(c) {
            let j = choose|j: int| 0 <= j < obs.len() && raises(#[trigger] obs[j], table, key, c);
            let k = if j < i {
                j
            } else {
                j - 1
            };
            assert(raises(rest[k], table, key, c));
        }
    }
    assert(caps_of(rest, table, key) =~= caps_of(obs, table, key));
}

/// The filter on `DAC_READ_SEARCH` looks at the stack alone: a check whose
/// stack holds `may_open` gives its process nothing, and the same check
/// from any other stack gives it the capability.
pub proof fn lemma_may_open_specific(o: Observation, table: Seq<KernelSymbol>)
    requires
        o.request.capability == CAP_DAC_READ_SEARCH,
        o.stack.is_some(),
    ensures
        caps_of(seq![o], table, key_of(o.request)) == if stack_has_symbol(
            o.stack.unwrap()@,
            table,
            "may_open"@,
        ) {
            Set::<nat>::empty()
        } else {
            Set::<nat>::empty().insert(CAP_DAC_READ_SEARCH as nat)
        },
{
    let key = key_of(o.request);
    let one = seq![o];
    let held = caps_of(one, table, key);
    if stack_has_symbol(o.stack.unwrap()@, table, "may_open"@) {
        assert forall|c: nat| !held.contains(c) by {
            if held.contains(c) {
                let j = choose|j: int| 0 <= j < one.len() && raises(#[trigger] one[j], table, key, c);
            }
        }
        assert(held =~= Set::<nat>::empty());
    } else {
        assert(raises(one[0], table, key, CAP_DAC_READ_SEARCH as nat));
        assert forall|c: nat| held.contains(c) implies c == CAP_DAC_READ_SEARCH as nat by {
            let j = choose|j: int| 0 <= j < one.len() && raises(#[trigger] one[j], table, key, c);
        }
        assert(held =~= Set::<nat>::empty().insert(CAP_DAC_READ_SEARCH as nat));
    }
}

} // verus!
