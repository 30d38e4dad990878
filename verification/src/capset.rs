//! Capability indices, their names, and sets of capabilities held as a
//! 64-bit mask.

use vstd::prelude::*;
use vstd::string::StringExecFns;
use vstd::utf8::is_ascii_chars;
use crate::text::{joined, lemma_texts_push, texts};

verus! {

/// Number of capabilities known to the kernel table.
pub const CAP_COUNT: u8 = 41;

/// Mask with one bit for every known capability.
pub const ALL_BITS: u64 = 0x1ff_ffff_ffff;

/// Index of `DAC_OVERRIDE`.
pub const CAP_DAC_OVERRIDE: u8 = 1;

/// Index of `DAC_READ_SEARCH`.
pub const CAP_DAC_READ_SEARCH: u8 = 2;

/// Index of `SETUID`.
pub const CAP_SETUID: u8 = 7;

/// Index of `SYS_PTRACE`.
pub const CAP_SYS_PTRACE: u8 = 19;

/// Whether bit `i` of `bits` is set.
pub open spec fn bit_is_set(bits: u64, i: nat) -> bool {
    i < 64 && (bits >> (i as u64)) & 1 == 1
}

/// The capability indices that a mask holds.
pub open spec fn mask_members(bits: u64) -> Set<nat> {
    Set::new(|i: nat| bit_is_set(bits, i))
}

/// The set of every known capability index.
pub open spec fn all_caps() -> Set<nat> {
    Set::new(|i: nat| i < CAP_COUNT as nat)
}

proof fn lemma_bit_or_single(bits: u64, c: u64, i: u64)
    requires
        c < 64,
        i < 64,
    ensures
        ((bits | (1u64 << c)) >> i) & 1 == 1 <==> ((bits >> i) & 1 == 1 || i == c),
{
    assert(((bits | (1u64 << c)) >> i) & 1 == 1 <==> ((bits >> i) & 1 == 1 || i == c)) by (bit_vector)
        requires
            c < 64,
            i < 64,
    ;
}

proof fn lemma_bit_and_not_single(bits: u64, c: u64, i: u64)
    requires
        c < 64,
        i < 64,
    ensures
        ((bits & !(1u64 << c)) >> i) & 1 == 1 <==> ((bits >> i) & 1 == 1 && i != c),
{
    assert(((bits & !(1u64 << c)) >> i) & 1 == 1 <==> ((bits >> i) & 1 == 1 && i != c)) by (bit_vector)
        requires
            c < 64,
            i < 64,
    ;
}

proof fn lemma_bit_or(a: u64, b: u64, i: u64)
    requires
        i < 64,
    ensures
        ((a | b) >> i) & 1 == 1 <==> ((a >> i) & 1 == 1 || (b >> i) & 1 == 1),
{
    assert(((a | b) >> i) & 1 == 1 <==> ((a >> i) & 1 == 1 || (b >> i) & 1 == 1)) by (bit_vector)
        requires
            i < 64,
    ;
}

proof fn lemma_bit_truncate(a: u64, i: u64)
    requires
        i < 64,
    ensures
        ((a & 0x1ff_ffff_ffff) >> i) & 1 == 1 <==> (i < 41 && (a >> i) & 1 == 1),
{
    assert(((a & 0x1ff_ffff_ffff) >> i) & 1 == 1 <==> (i < 41 && (a >> i) & 1 == 1)) by (bit_vector)
        requires
            i < 64,
    ;
}

proof fn lemma_bit_test(a: u64, i: u64)
    requires
        i < 64,
    ensures
        (a & (1u64 << i)) != 0 <==> (a >> i) & 1 == 1,
{
    assert((a & (1u64 << i)) != 0 <==> (a >> i) & 1 == 1) by (bit_vector)
        requires
            i < 64,
    ;
}

proof fn lemma_differing_bit(a: u64, b: u64) -> (i: u64)
    requires
        a != b,
    ensures
        i < 64,
        ((a >> i) & 1 == 1) != ((b >> i) & 1 == 1),
{
    let x = a ^ b;
    assert(x != 0) by (bit_vector)
        requires
            x == a ^ b,
            a != b,
    ;
    let i = lemma_set_bit_of_nonzero(x);
    assert(((a >> i) & 1 == 1) != ((b >> i) & 1 == 1)) by (bit_vector)
        requires
            x == a ^ b,
            i < 64,
            (x >> i) & 1 == 1,
    ;
    i
}

proof fn lemma_set_bit_of_nonzero(x: u64) -> (i: u64)
    requires
        x != 0,
    ensures
        i < 64,
        (x >> i) & 1 == 1,
    decreases x,
{
    if x & 1 == 1 {
        assert((x >> 0u64) & 1 == 1) by (bit_vector)
            requires
                x & 1 == 1,
        ;
        0
    } else {
        let y = x >> 1;
        assert(y != 0 && y < x) by (bit_vector)
            requires
                x != 0,
                x & 1 != 1,
                y == x >> 1,
        ;
        let j = lemma_set_bit_of_nonzero(y);
        assert(j < 63) by (bit_vector)
            requires
                y == x >> 1,
                j < 64,
                (y >> j) & 1 == 1,
        ;
        let i = (j + 1) as u64;
        assert((x >> i) & 1 == 1) by (bit_vector)
            requires
                y == x >> 1,
                j < 63,
                i == j + 1,
                (y >> j) & 1 == 1,
        ;
        i
    }
}

/// Two masks with the same members are the same mask.
pub proof fn lemma_mask_members_injective(a: u64, b: u64)
    requires
        mask_members(a) == mask_members(b),
    ensures
        a == b,
{
    if a != b {
        let i = lemma_differing_bit(a, b);
        assert(mask_members(a).contains(i as nat) == bit_is_set(a, i as nat));
        assert(mask_members(b).contains(i as nat) == bit_is_set(b, i as nat));
    }
}

/// A capability: an index into the kernel's table.
#[derive(Clone, Copy, Debug, PartialEq, Eq, Structural)]
pub struct Cap {
    index: u8,
}

impl Cap {
    #[verifier::type_invariant]
    spec fn valid(self) -> bool {
        self.index < CAP_COUNT
    }

    /// The capability's index.
    pub closed spec fn spec_index(self) -> u8 {
        self.index
    }

    #[verifier::when_used_as_spec(spec_index)]
    pub fn index(self) -> (r: u8)
        ensures
            r == self.spec_index(),
            r < CAP_COUNT,
    {
        proof {
            use_type_invariant(self);
        }
        self.index
    }

    /// The capability's name in the kernel's table, without prefix.
    pub fn name(self) -> (r: &'static str)
        ensures
            r@ == cap_name(self.spec_index()),
    {
        proof {
            use_type_invariant(self);
        }
        cap_name_at(self.index)
    }
}

/// The capability with index `val`, if the table has one.
pub fn get_cap(val: u8) -> (r: Option<Cap>)
    ensures
        r.is_some() <==> val < CAP_COUNT,
        r matches Some(cap) ==> cap.spec_index() == val,
{
    if val < CAP_COUNT {
        Some(Cap { index: val })
    } else {
        None
    }
}

/// The kernel's name of capability `index`; empty beyond the table.
pub open spec fn cap_name(index: u8) -> Seq<char> {
    match index {
        0 => "CHOWN"@,
        1 => "DAC_OVERRIDE"@,
        2 => "DAC_READ_SEARCH"@,
        3 => "FOWNER"@,
        4 => "FSETID"@,
        5 => "KILL"@,
        6 => "SETGID"@,
        7 => "SETUID"@,
        8 => "SETPCAP"@,
        9 => "LINUX_IMMUTABLE"@,
        10 => "NET_BIND_SERVICE"@,
        11 => "NET_BROADCAST"@,
        12 => "NET_ADMIN"@,
        13 => "NET_RAW"@,
        14 => "IPC_LOCK"@,
        15 => "IPC_OWNER"@,
        16 => "SYS_MODULE"@,
        17 => "SYS_RAWIO"@,
        18 => "SYS_CHROOT"@,
        19 => "SYS_PTRACE"@,
        20 => "SYS_PACCT"@,
        21 => "SYS_ADMIN"@,
        22 => "SYS_BOOT"@,
        23 => "SYS_NICE"@,
        24 => "SYS_RESOURCE"@,
        25 => "SYS_TIME"@,
        26 => "SYS_TTY_CONFIG"@,
        27 => "MKNOD"@,
        28 => "LEASE"@,
        29 => "AUDIT_WRITE"@,
        30 => "AUDIT_CONTROL"@,
        31 => "SETFCAP"@,
        32 => "MAC_OVERRIDE"@,
        33 => "MAC_ADMIN"@,
        34 => "SYSLOG"@,
        35 => "WAKE_ALARM"@,
        36 => "BLOCK_SUSPEND"@,
        37 => "AUDIT_READ"@,
        38 => "PERFMON"@,
        39 => "BPF"@,
        40 => "CHECKPOINT_RESTORE"@,
        _ => Seq::empty(),
    }
}

#[verifier::rlimit(50)]
fn cap_name_at(index: u8) -> (r: &'static str)
    requires
        index < CAP_COUNT,
    ensures
        r@ == cap_name(index),
{
    match index {
        0 => "CHOWN",
        1 => "DAC_OVERRIDE",
        2 => "DAC_READ_SEARCH",
        3 => "FOWNER",
        4 => "FSETID",
        5 => "KILL",
        6 => "SETGID",
        7 => "SETUID",
        8 => "SETPCAP",
        9 => "LINUX_IMMUTABLE",
        10 => "NET_BIND_SERVICE",
        11 => "NET_BROADCAST",
        12 => "NET_ADMIN",
        13 => "NET_RAW",
        14 => "IPC_LOCK",
        15 => "IPC_OWNER",
        16 => "SYS_MODULE",
        17 => "SYS_RAWIO",
        18 => "SYS_CHROOT",
        19 => "SYS_PTRACE",
        20 => "SYS_PACCT",
        21 => "SYS_ADMIN",
        22 => "SYS_BOOT",
        23 => "SYS_NICE",
        24 => "SYS_RESOURCE",
        25 => "SYS_TIME",
        26 => "SYS_TTY_CONFIG",
        27 => "MKNOD",
        28 => "LEASE",
        29 => "AUDIT_WRITE",
        30 => "AUDIT_CONTROL",
        31 => "SETFCAP",
        32 => "MAC_OVERRIDE",
        33 => "MAC_ADMIN",
        34 => "SYSLOG",
        35 => "WAKE_ALARM",
        36 => "BLOCK_SUSPEND",
        37 => "AUDIT_READ",
        38 => "PERFMON",
        39 => "BPF",
        _ => "CHECKPOINT_RESTORE",
    }
}

/// A set of capabilities, held as a mask with one bit per table index.
#[derive(Clone, Copy, Debug, PartialEq, Eq, Structural)]
pub struct CapSet {
    bits: u64,
}

impl View for CapSet {
    type V = Set<nat>;

    /// The indices of the capabilities in the set.
    open spec fn view(&self) -> Set<nat> {
        mask_members(self.spec_bits()).intersect(all_caps())
    }
}

impl CapSet {
    #[verifier::type_invariant]
    spec fn canonical(self) -> bool {
        self.bits & ALL_BITS == self.bits
    }

    /// The mask that holds the set.
    pub closed spec fn spec_bits(self) -> u64 {
        self.bits
    }

    /// The set without any capability.
    pub fn empty() -> (r: CapSet)
        ensures
            r@ == Set::<nat>::empty(),
            r.spec_bits() == 0,
    {
        proof {
            assert(0u64 & 0x1ff_ffff_ffff == 0u64) by (bit_vector);
            CapSet::lemma_empty_members();
        }
        CapSet { bits: 0 }
    }

    /// The set of every capability of the table.
    pub fn full() -> (r: CapSet)
        ensures
            r@ == all_caps(),
            r.spec_bits() == ALL_BITS,
    {
        proof {
            assert(0x1ff_ffff_ffffu64 & 0x1ff_ffff_ffff == 0x1ff_ffff_ffffu64) by (bit_vector);
            lemma_full_members();
        }
        CapSet { bits: ALL_BITS }
    }

    /// The set whose mask is `bits` without the bits beyond the table.
    pub fn from_bitmask_truncate(bits: u64) -> (r: CapSet)
        ensures
            r@ == mask_members(bits).intersect(all_caps()),
            r.spec_bits() == bits & ALL_BITS,
    {
        let kept: u64 = bits & ALL_BITS;
        proof {
            assert((bits & 0x1ff_ffff_ffff) & 0x1ff_ffff_ffff == bits & 0x1ff_ffff_ffff) by (bit_vector);
            assert forall|i: nat| i < 41 implies bit_is_set(kept, i) == bit_is_set(bits, i) by {
                lemma_bit_truncate(bits, i as u64);
            }
            assert(mask_members(kept).intersect(all_caps()) =~= mask_members(bits).intersect(
                all_caps(),
            ));
        }
        CapSet { bits: kept }
    }

    /// The mask that holds the set: bit `i` is set exactly when capability
    /// `i` is in it.
    #[verifier::when_used_as_spec(spec_bits)]
    pub fn bits(self) -> (r: u64)
        ensures
            r == self.spec_bits(),
            r & ALL_BITS == r,
            mask_members(r) == self@,
    {
        proof {
            use_type_invariant(self);
            lemma_canonical_members(self.bits);
        }
        self.bits
    }

    pub fn is_empty(self) -> (r: bool)
        ensures
            r == (self@ == Set::<nat>::empty()),
    {
        proof {
            use_type_invariant(self);
            lemma_canonical_members(self.bits);
            CapSet::lemma_empty_members();
            if self.bits != 0 && self@ == Set::<nat>::empty() {
                lemma_mask_members_injective(self.bits, 0);
            }
        }
        self.bits == 0
    }

    proof fn lemma_empty_members()
        ensures
            mask_members(0) == Set::<nat>::empty(),
    {
        assert forall|i: nat| !bit_is_set(0u64, i) by {
            if i < 64 {
                let j = i as u64;
                assert((0u64 >> j) & 1 == 0) by (bit_vector);
            }
        }
        assert(mask_members(0) =~= Set::<nat>::empty());
    }

    /// Whether the set holds every capability of the table.
    pub fn is_all(self) -> (r: bool)
        ensures
            r == (self@ == all_caps()),
    {
        proof {
            use_type_invariant(self);
            lemma_canonical_members(self.bits);
            lemma_full_members();
            if self.bits != ALL_BITS && self@ == all_caps() {
                lemma_mask_members_injective(self.bits, ALL_BITS);
            }
        }
        self.bits == ALL_BITS
    }

    /// Whether the set holds `cap`.
    pub fn has(self, cap: Cap) -> (r: bool)
        ensures
            r == self@.contains(cap.spec_index() as nat),
    {
        let i = cap.index();
        proof {
            lemma_bit_test(self.bits, i as u64);
        }
        self.bits & (1u64 << (i as u64)) != 0
    }

    /// Puts `cap` into the set.
    pub fn add(&mut self, cap: Cap)
        ensures
            final(self)@ == old(self)@.insert(cap.spec_index() as nat),
    {
        let i = cap.index();
        proof {
            use_type_invariant(*self);
        }
        let ghost before = self.bits;
        let c: u64 = i as u64;
        let bits: u64 = self.bits | (1u64 << c);
        proof {
            assert(bits & 0x1ff_ffff_ffff == bits) by (bit_vector)
                requires
                    bits == before | (1u64 << c),
                    before & 0x1ff_ffff_ffff == before,
                    c < 41,
            ;
            assert forall|j: nat| j < 64 implies bit_is_set(bits, j) == (bit_is_set(before, j) || j
                == c as nat) by {
                lemma_bit_or_single(before, c, j as u64);
            }
        }
        self.bits = bits;
        proof {
            assert(self@ =~= old(self)@.insert(cap.spec_index() as nat));
        }
    }

    /// Takes `cap` out of the set.
    pub fn drop(&mut self, cap: Cap)
        ensures
            final(self)@ == old(self)@.remove(cap.spec_index() as nat),
    {
        let i = cap.index();
        proof {
            use_type_invariant(*self);
        }
        let ghost before = self.bits;
        let c: u64 = i as u64;
        let bits: u64 = self.bits & !(1u64 << c);
        proof {
            assert(bits & 0x1ff_ffff_ffff == bits) by (bit_vector)
                requires
                    bits == before & !(1u64 << c),
                    before & 0x1ff_ffff_ffff == before,
            ;
            assert forall|j: nat| j < 64 implies bit_is_set(bits, j) == (bit_is_set(before, j) && j
                != c as nat) by {
                lemma_bit_and_not_single(before, c, j as u64);
            }
        }
        self.bits = bits;
        proof {
            assert(self@ =~= old(self)@.remove(cap.spec_index() as nat));
        }
    }

    /// Puts `cap` into the set where `val` holds, and takes it out where
    /// not.
    pub fn set_state(&mut self, cap: Cap, val: bool)
        ensures
            final(self)@ == if val {
                old(self)@.insert(cap.spec_index() as nat)
            } else {
                old(self)@.remove(cap.spec_index() as nat)
            },
    {
        if val {
            self.add(cap);
        } else {
            self.drop(cap);
        }
    }

    /// The capabilities that are in either set.
    pub fn union(self, other: CapSet) -> (r: CapSet)
        ensures
            r@ == self@.union(other@),
    {
        proof {
            use_type_invariant(self);
            use_type_invariant(other);
        }
        let a: u64 = self.bits;
        let b: u64 = other.bits;
        let bits: u64 = a | b;
        proof {
            assert(bits & 0x1ff_ffff_ffff == bits) by (bit_vector)
                requires
                    bits == a | b,
                    a & 0x1ff_ffff_ffff == a,
                    b & 0x1ff_ffff_ffff == b,
            ;
            assert forall|j: nat| j < 64 implies bit_is_set(bits, j) == (bit_is_set(a, j)
                || bit_is_set(b, j)) by {
                lemma_bit_or(a, b, j as u64);
            }
        }
        proof {
            assert(mask_members(bits).intersect(all_caps()) =~= self@.union(other@));
        }
        CapSet { bits }
    }
}

/// A mask without bits beyond the table holds table indices only.
proof fn lemma_canonical_members(bits: u64)
    requires
        bits & ALL_BITS == bits,
    ensures
        mask_members(bits).intersect(all_caps()) == mask_members(bits),
{
    assert forall|i: nat| bit_is_set(bits, i) implies i < 41 by {
        lemma_bit_truncate(bits, i as u64);
    }
    assert(mask_members(bits).intersect(all_caps()) =~= mask_members(bits));
}

proof fn lemma_full_members()
    ensures
        mask_members(ALL_BITS) == all_caps(),
{
    assert forall|i: nat| bit_is_set(ALL_BITS, i) == (i < 41) by {
        if i < 64 {
            let j = i as u64;
            assert(((0x1ff_ffff_ffffu64 >> j) & 1 == 1) == (j < 41)) by (bit_vector)
                requires
                    j < 64,
            ;
        }
    }
    assert(mask_members(ALL_BITS) =~= all_caps());
}

/// The label of capability `index` in a policy: its name behind `CAP_`.
pub open spec fn cap_label(index: u8) -> Seq<char> {
    "CAP_"@ + cap_name(index)
}

/// The labels of the members of `caps` below index `n`, by rising index.
pub open spec fn labels_below(caps: Set<nat>, n: nat) -> Seq<Seq<char>>
    decreases n,
{
    if n == 0 {
        Seq::empty()
    } else if caps.contains((n - 1) as nat) {
        labels_below(caps, (n - 1) as nat).push(cap_label((n - 1) as u8))
    } else {
        labels_below(caps, (n - 1) as nat)
    }
}

/// The capability list of a policy: the single word `ALL` for the whole
/// table, else one label for each member.
pub open spec fn cap_list(caps: Set<nat>) -> Seq<Seq<char>> {
    if caps == all_caps() {
        seq!["ALL"@]
    } else {
        labels_below(caps, CAP_COUNT as nat)
    }
}

/// The capability column of the host table: `ALL` for the whole table, else
/// the labels with one blank between neighbours.
pub open spec fn cap_line(caps: Set<nat>) -> Seq<char> {
    if caps == all_caps() {
        "ALL"@
    } else {
        joined(labels_below(caps, CAP_COUNT as nat), " "@)
    }
}

fn labels_of(set: &CapSet) -> (r: Vec<String>)
    ensures
        texts(r@) == labels_below(set@, CAP_COUNT as nat),
{
    let mut out: Vec<String> = Vec::new();
    let mut i: u8 = 0;
    proof {
        assert(texts(out@) =~= labels_below(set@, 0));
    }
    while i < CAP_COUNT
        invariant
            i <= CAP_COUNT,
            texts(out@) == labels_below(set@, i as nat),
        decreases CAP_COUNT - i,
    {
        match get_cap(i) {
            Some(cap) => {
                if set.has(cap) {
                    let mut label = String::from_str("CAP_");
                    label.append(cap.name());
                    proof {
                        lemma_texts_push(out@, label);
                    }
                    out.push(label);
                }
            },
            None => {},
        }
        i = i + 1;
    }
    out
}

/// The capability list of a policy for `set`.
pub fn capset_to_vec(set: &CapSet) -> (r: Vec<String>)
    ensures
        texts(r@) == cap_list(set@),
{
    if set.is_all() {
        let mut out: Vec<String> = Vec::new();
        let all = String::from_str("ALL");
        proof {
            lemma_texts_push(out@, all);
            assert(texts(out@) =~= Seq::<Seq<char>>::empty());
        }
        out.push(all);
        proof {
            assert(texts(out@) =~= seq!["ALL"@]);
        }
        out
    } else {
        labels_of(set)
    }
}

/// The capability column of the host table for `set`.
pub fn capset_to_string(set: &CapSet) -> (r: String)
    ensures
        r@ == cap_line(set@),
{
    if set.is_all() {
        return String::from_str("ALL");
    }
    let labels = labels_of(set);
    let mut out = String::new();
    let mut i: usize = 0;
    proof {
        assert(texts(labels@).take(0) =~= Seq::<Seq<char>>::empty());
    }
    while i < labels.len()
        invariant
            i <= labels.len(),
            out@ == joined(texts(labels@).take(i as int), " "@),
        decreases labels.len() - i,
    {
        if i > 0 {
            out.append(" ");
        }
        out.append(labels[i].as_str());
        proof {
            let parts = texts(labels@);
            let next = parts.take(i as int + 1);
            assert(next.drop_last() =~= parts.take(i as int));
            assert(next.last() == labels@[i as int]@);
            if i == 0 {
                assert(out@ =~= next[0]);
            }
        }
        i = i + 1;
    }
    proof {
        assert(texts(labels@).take(i as int) =~= texts(labels@));
    }
    out
}

/// The character of `s` at `p`, or a blank beyond its end.
spec fn char_at(s: Seq<char>, p: int) -> char {
    if 0 <= p < s.len() {
        s[p]
    } else {
        ' '
    }
}

/// Length and three characters of a name: enough to tell the table's names
/// apart.
spec fn name_key(s: Seq<char>) -> (nat, char, char, char) {
    (s.len(), char_at(s, 0), char_at(s, 3), char_at(s, 4))
}

spec fn cap_name_key(index: u8) -> (nat, char, char, char) {
    match index {
        0 => (5, 'C', 'W', 'N'),
        1 => (12, 'D', '_', 'O'),
        2 => (15, 'D', '_', 'R'),
        3 => (6, 'F', 'N', 'E'),
        4 => (6, 'F', 'T', 'I'),
        5 => (4, 'K', 'L', ' '),
        6 => (6, 'S', 'G', 'I'),
        7 => (6, 'S', 'U', 'I'),
        8 => (7, 'S', 'P', 'C'),
        9 => (15, 'L', 'U', 'X'),
        10 => (16, 'N', '_', 'B'),
        11 => (13, 'N', '_', 'B'),
        12 => (9, 'N', '_', 'A'),
        13 => (7, 'N', '_', 'R'),
        14 => (8, 'I', '_', 'L'),
        15 => (9, 'I', '_', 'O'),
        16 => (10, 'S', '_', 'M'),
        17 => (9, 'S', '_', 'R'),
        18 => (10, 'S', '_', 'C'),
        19 => (10, 'S', '_', 'P'),
        20 => (9, 'S', '_', 'P'),
        21 => (9, 'S', '_', 'A'),
        22 => (8, 'S', '_', 'B'),
        23 => (8, 'S', '_', 'N'),
        24 => (12, 'S', '_', 'R'),
        25 => (8, 'S', '_', 'T'),
        26 => (14, 'S', '_', 'T'),
        27 => (5, 'M', 'O', 'D'),
        28 => (5, 'L', 'S', 'E'),
        29 => (11, 'A', 'I', 'T'),
        30 => (13, 'A', 'I', 'T'),
        31 => (7, 'S', 'F', 'C'),
        32 => (12, 'M', '_', 'O'),
        33 => (9, 'M', '_', 'A'),
        34 => (6, 'S', 'L', 'O'),
        35 => (10, 'W', 'E', '_'),
        36 => (13, 'B', 'C', 'K'),
        37 => (10, 'A', 'I', 'T'),
        38 => (7, 'P', 'F', 'M'),
        39 => (3, 'B', ' ', ' '),
        40 => (18, 'C', 'C', 'K'),
        _ => (0, ' ', ' ', ' '),
    }
}

#[verifier::rlimit(50)]
proof fn lemma_cap_name_key(index: u8)
    requires
        index < CAP_COUNT,
    ensures
        name_key(cap_name(index)) == cap_name_key(index),
{
    match index {
        0 => {
            reveal_strlit("CHOWN");
        },
        1 => {
            reveal_strlit("DAC_OVERRIDE");
        },
        2 => {
            reveal_strlit("DAC_READ_SEARCH");
        },
        3 => {
            reveal_strlit("FOWNER");
        },
        4 => {
            reveal_strlit("FSETID");
        },
        5 => {
            reveal_strlit("KILL");
        },
        6 => {
            reveal_strlit("SETGID");
        },
        7 => {
            reveal_strlit("SETUID");
        },
        8 => {
            reveal_strlit("SETPCAP");
        },
        9 => {
            reveal_strlit("LINUX_IMMUTABLE");
        },
        10 => {
            reveal_strlit("NET_BIND_SERVICE");
        },
        11 => {
            reveal_strlit("NET_BROADCAST");
        },
        12 => {
            reveal_strlit("NET_ADMIN");
        },
        13 => {
            reveal_strlit("NET_RAW");
        },
        14 => {
            reveal_strlit("IPC_LOCK");
        },
        15 => {
            reveal_strlit("IPC_OWNER");
        },
        16 => {
            reveal_strlit("SYS_MODULE");
        },
        17 => {
            reveal_strlit("SYS_RAWIO");
        },
        18 => {
            reveal_strlit("SYS_CHROOT");
        },
        19 => {
            reveal_strlit("SYS_PTRACE");
        },
        20 => {
            reveal_strlit("SYS_PACCT");
        },
        21 => {
            reveal_strlit("SYS_ADMIN");
        },
        22 => {
            reveal_strlit("SYS_BOOT");
        },
        23 => {
            reveal_strlit("SYS_NICE");
        },
        24 => {
            reveal_strlit("SYS_RESOURCE");
        },
        25 => {
            reveal_strlit("SYS_TIME");
        },
        26 => {
            reveal_strlit("SYS_TTY_CONFIG");
        },
        27 => {
            reveal_strlit("MKNOD");
        },
        28 => {
            reveal_strlit("LEASE");
        },
        29 => {
            reveal_strlit("AUDIT_WRITE");
        },
        30 => {
            reveal_strlit("AUDIT_CONTROL");
        },
        31 => {
            reveal_strlit("SETFCAP");
        },
        32 => {
            reveal_strlit("MAC_OVERRIDE");
        },
        33 => {
            reveal_strlit("MAC_ADMIN");
        },
        34 => {
            reveal_strlit("SYSLOG");
        },
        35 => {
            reveal_strlit("WAKE_ALARM");
        },
        36 => {
            reveal_strlit("BLOCK_SUSPEND");
        },
        37 => {
            reveal_strlit("AUDIT_READ");
        },
        38 => {
            reveal_strlit("PERFMON");
        },
        39 => {
            reveal_strlit("BPF");
        },
        40 => {
            reveal_strlit("CHECKPOINT_RESTORE");
        },
        _ => {},
    }
}

/// No two capabilities of the table share a name, nor a label.
#[verifier::rlimit(50)]
pub proof fn lemma_cap_names_distinct(i: u8, j: u8)
    requires
        i < CAP_COUNT,
        j < CAP_COUNT,
        i != j,
    ensures
        cap_name(i) != cap_name(j),
        cap_label(i) != cap_label(j),
{
    lemma_cap_name_key(i);
    lemma_cap_name_key(j);
    assert(cap_name_key(i) != cap_name_key(j));
    let a = cap_label(i);
    let b = cap_label(j);
    if a == b {
        assert(a.subrange("CAP_"@.len() as int, a.len() as int) =~= cap_name(i));
        assert(b.subrange("CAP_"@.len() as int, b.len() as int) =~= cap_name(j));
    }
}

/// Whether `text` is the label of a member of `caps` with index below `n`.
pub open spec fn labels_member(caps: Set<nat>, n: nat, text: Seq<char>) -> bool {
    exists|k: nat| k < n && #[trigger] caps.contains(k) && text == cap_label(k as u8)
}

#[verifier::rlimit(50)]
proof fn lemma_labels_below(caps: Set<nat>, n: nat)
    requires
        n <= CAP_COUNT,
    ensures
        forall|idx: int|
            0 <= idx < labels_below(caps, n).len() ==> labels_member(
                caps,
                n,
                #[trigger] labels_below(caps, n)[idx],
            ),
        forall|k: nat|
            k < n && #[trigger] caps.contains(k) ==> labels_below(caps, n).contains(
                cap_label(k as u8),
            ),
        labels_below(caps, n).no_duplicates(),
    decreases n,
{
    if n > 0 {
        let m = (n - 1) as nat;
        let before = labels_below(caps, m);
        let list = labels_below(caps, n);
        lemma_labels_below(caps, m);
        assert forall|idx: int| 0 <= idx < list.len() implies labels_member(
            caps,
            n,
            #[trigger] list[idx],
        ) by {
            if idx < before.len() {
                assert(labels_member(caps, m, before[idx]));
                let k = choose|k: nat|
                    k < m && #[trigger] caps.contains(k) && before[idx] == cap_label(k as u8);
                assert(k < n && caps.contains(k));
            } else {
                assert(caps.contains(m));
            }
        }
        assert forall|k: nat| k < n && #[trigger] caps.contains(k) implies list.contains(
            cap_label(k as u8),
        ) by {
            if k < m {
                assert(before.contains(cap_label(k as u8)));
                let idx = choose|idx: int|
                    0 <= idx < before.len() && before[idx] == cap_label(k as u8);
                assert(list[idx] == cap_label(k as u8));
            } else {
                assert(list[list.len() - 1] == cap_label(k as u8));
            }
        }
        if caps.contains(m) {
            assert forall|a: int, b: int| 0 <= a < list.len() && 0 <= b < list.len() && a != b implies list[a] != list[b] by {
                if a == before.len() || b == before.len() {
                    let other = if a == before.len() { b } else { a };
                    assert(labels_member(caps, m, before[other]));
                    let k = choose|k: nat|
                        k < m && #[trigger] caps.contains(k) && before[other] == cap_label(k as u8);
                    lemma_cap_names_distinct(k as u8, m as u8);
                }
            }
        }
    }
}

/// A set that lacks a capability gets one label for each member and no
/// other entry: every member's label stands in the list exactly once, and
/// every entry is the label of a member.
pub proof fn lemma_capability_naming(caps: Set<nat>)
    requires
        caps != all_caps(),
    ensures
        cap_list(caps).no_duplicates(),
        forall|k: nat|
            k < CAP_COUNT && #[trigger] caps.contains(k) ==> cap_list(caps).contains(
                cap_label(k as u8),
            ),
        forall|idx: int|
            0 <= idx < cap_list(caps).len() ==> labels_member(
                caps,
                CAP_COUNT as nat,
                #[trigger] cap_list(caps)[idx],
            ),
{
    lemma_labels_below(caps, CAP_COUNT as nat);
}

/// The whole table is listed as the single word `ALL`; any other set's list
/// does not hold that word.
pub proof fn lemma_all_collapse(caps: Set<nat>)
    ensures
        caps == all_caps() ==> cap_list(caps) == seq!["ALL"@],
        caps != all_caps() ==> !cap_list(caps).contains("ALL"@),
{
    if caps != all_caps() {
        let list = cap_list(caps);
        lemma_labels_below(caps, CAP_COUNT as nat);
        if list.contains("ALL"@) {
            let idx = choose|idx: int| 0 <= idx < list.len() && list[idx] == "ALL"@;
            assert(labels_member(caps, CAP_COUNT as nat, list[idx]));
            let k = choose|k: nat|
                k < CAP_COUNT && #[trigger] caps.contains(k) && list[idx] == cap_label(k as u8);
            reveal_strlit("ALL");
            reveal_strlit("CAP_");
            assert(cap_label(k as u8).len() >= 4);
            assert("ALL"@.len() == 3);
        }
    }
}

/// The upper-case form of an ASCII letter; any other character as it is.
pub open spec fn ascii_upper_char(c: char) -> char {
    if 'a' <= c && c <= 'z' {
        ((c as u8 - 32) as u8) as char
    } else {
        c
    }
}

/// The text with its ASCII letters in upper case.
pub open spec fn ascii_upper(text: Seq<char>) -> Seq<char> {
    text.map_values(|c: char| ascii_upper_char(c))
}

/// Whether `text` names capability `index`: its label, in any mix of upper
/// and lower case.
pub open spec fn names_cap(text: Seq<char>, index: u8) -> bool {
    index < CAP_COUNT && ascii_upper(text) == cap_label(index)
}

/// Whether `text` names a capability of the table.
pub open spec fn is_cap_text(text: Seq<char>) -> bool {
    exists|index: u8| names_cap(text, index)
}

#[verifier::rlimit(50)]
proof fn lemma_cap_name_ascii(index: u8)
    requires
        index < CAP_COUNT,
    ensures
        is_ascii_chars(cap_name(index)),
{
    match index {
        0 => {
            reveal_strlit("CHOWN");
            assert(is_ascii_chars("CHOWN"@));
        },
        1 => {
            reveal_strlit("DAC_OVERRIDE");
            assert(is_ascii_chars("DAC_OVERRIDE"@));
        },
        2 => {
            reveal_strlit("DAC_READ_SEARCH");
            assert(is_ascii_chars("DAC_READ_SEARCH"@));
        },
        3 => {
            reveal_strlit("FOWNER");
            assert(is_ascii_chars("FOWNER"@));
        },
        4 => {
            reveal_strlit("FSETID");
            assert(is_ascii_chars("FSETID"@));
        },
        5 => {
            reveal_strlit("KILL");
            assert(is_ascii_chars("KILL"@));
        },
        6 => {
            reveal_strlit("SETGID");
            assert(is_ascii_chars("SETGID"@));
        },
        7 => {
            reveal_strlit("SETUID");
            assert(is_ascii_chars("SETUID"@));
        },
        8 => {
            reveal_strlit("SETPCAP");
            assert(is_ascii_chars("SETPCAP"@));
        },
        9 => {
            reveal_strlit("LINUX_IMMUTABLE");
            assert(is_ascii_chars("LINUX_IMMUTABLE"@));
        },
        10 => {
            reveal_strlit("NET_BIND_SERVICE");
            assert(is_ascii_chars("NET_BIND_SERVICE"@));
        },
        11 => {
            reveal_strlit("NET_BROADCAST");
            assert(is_ascii_chars("NET_BROADCAST"@));
        },
        12 => {
            reveal_strlit("NET_ADMIN");
            assert(is_ascii_chars("NET_ADMIN"@));
        },
        13 => {
            reveal_strlit("NET_RAW");
            assert(is_ascii_chars("NET_RAW"@));
        },
        14 => {
            reveal_strlit("IPC_LOCK");
            assert(is_ascii_chars("IPC_LOCK"@));
        },
        15 => {
            reveal_strlit("IPC_OWNER");
            assert(is_ascii_chars("IPC_OWNER"@));
        },
        16 => {
            reveal_strlit("SYS_MODULE");
            assert(is_ascii_chars("SYS_MODULE"@));
        },
        17 => {
            reveal_strlit("SYS_RAWIO");
            assert(is_ascii_chars("SYS_RAWIO"@));
        },
        18 => {
            reveal_strlit("SYS_CHROOT");
            assert(is_ascii_chars("SYS_CHROOT"@));
        },
        19 => {
            reveal_strlit("SYS_PTRACE");
            assert(is_ascii_chars("SYS_PTRACE"@));
        },
        20 => {
            reveal_strlit("SYS_PACCT");
            assert(is_ascii_chars("SYS_PACCT"@));
        },
        21 => {
            reveal_strlit("SYS_ADMIN");
            assert(is_ascii_chars("SYS_ADMIN"@));
        },
        22 => {
            reveal_strlit("SYS_BOOT");
            assert(is_ascii_chars("SYS_BOOT"@));
        },
        23 => {
            reveal_strlit("SYS_NICE");
            assert(is_ascii_chars("SYS_NICE"@));
        },
        24 => {
            reveal_strlit("SYS_RESOURCE");
            assert(is_ascii_chars("SYS_RESOURCE"@));
        },
        25 => {
            reveal_strlit("SYS_TIME");
            assert(is_ascii_chars("SYS_TIME"@));
        },
        26 => {
            reveal_strlit("SYS_TTY_CONFIG");
            assert(is_ascii_chars("SYS_TTY_CONFIG"@));
        },
        27 => {
            reveal_strlit("MKNOD");
            assert(is_ascii_chars("MKNOD"@));
        },
        28 => {
            reveal_strlit("LEASE");
            assert(is_ascii_chars("LEASE"@));
        },
        29 => {
            reveal_strlit("AUDIT_WRITE");
            assert(is_ascii_chars("AUDIT_WRITE"@));
        },
        30 => {
            reveal_strlit("AUDIT_CONTROL");
            assert(is_ascii_chars("AUDIT_CONTROL"@));
        },
        31 => {
            reveal_strlit("SETFCAP");
            assert(is_ascii_chars("SETFCAP"@));
        },
        32 => {
            reveal_strlit("MAC_OVERRIDE");
            assert(is_ascii_chars("MAC_OVERRIDE"@));
        },
        33 => {
            reveal_strlit("MAC_ADMIN");
            assert(is_ascii_chars("MAC_ADMIN"@));
        },
        34 => {
            reveal_strlit("SYSLOG");
            assert(is_ascii_chars("SYSLOG"@));
        },
        35 => {
            reveal_strlit("WAKE_ALARM");
            assert(is_ascii_chars("WAKE_ALARM"@));
        },
        36 => {
            reveal_strlit("BLOCK_SUSPEND");
            assert(is_ascii_chars("BLOCK_SUSPEND"@));
        },
        37 => {
            reveal_strlit("AUDIT_READ");
            assert(is_ascii_chars("AUDIT_READ"@));
        },
        38 => {
            reveal_strlit("PERFMON");
            assert(is_ascii_chars("PERFMON"@));
        },
        39 => {
            reveal_strlit("BPF");
            assert(is_ascii_chars("BPF"@));
        },
        40 => {
            reveal_strlit("CHECKPOINT_RESTORE");
            assert(is_ascii_chars("CHECKPOINT_RESTORE"@));
        },
        _ => {},
    }
}

/// A text that names a capability holds ASCII characters only.
proof fn lemma_cap_text_ascii(text: Seq<char>)
    requires
        is_cap_text(text),
    ensures
        is_ascii_chars(text),
{
    let index = choose|index: u8| names_cap(text, index);
    lemma_cap_name_ascii(index);
    reveal_strlit("CAP_");
    let label = cap_label(index);
    assert(is_ascii_chars("CAP_"@));
    assert(is_ascii_chars(label)) by {
        assert forall|i: int| 0 <= i < label.len() implies '\0' <= #[trigger] label[i]
            <= '\u{7f}' by {
            if i >= 4 {
                assert(label[i] == cap_name(index)[i - 4]);
            }
        }
    }
    assert forall|i: int| 0 <= i < text.len() implies '\0' <= #[trigger] text[i] <= '\u{7f}' by {
        assert(ascii_upper(text)[i] == ascii_upper_char(text[i]));
        assert(label[i] == ascii_upper_char(text[i]));
    }
}

/// The error `capctl::caps::ParseCapError` of the capability parser. It
/// carries nothing.
#[verifier::external_type_specification]
#[verifier::external_body]
pub struct ExParseCapError(capctl::caps::ParseCapError);

/// Calls the `FromStr` impl of `capctl::caps::Cap`. That impl accepts a text
/// of more than four bytes whose first four are `CAP_` and whose rest is a
/// name of its table, both compared without regard to ASCII case, and gives
/// the capability of that name; its table is the one of [`cap_name`]. The
/// contract says so: the index of an accepted text is the one whose label
/// the text is, and a refused text is no label. The impl slices the text at
/// byte four, so the text must be ASCII.
#[verifier::external_body]
fn parse_cap(text: &str) -> (r: Result<u8, capctl::caps::ParseCapError>)
    requires
        is_ascii_chars(text@),
    ensures
        match r {
            Ok(index) => names_cap(text@, index),
            Err(_) => !is_cap_text(text@),
        },
{
    match text.parse::<capctl::caps::Cap>() {
        Ok(cap) => Ok(cap as u8),
        Err(e) => Err(e),
    }
}

/// A part of a capability list that names no capability.
#[derive(Clone, Copy, Debug, PartialEq, Eq, Structural)]
pub struct CapParseError {
    /// Index of the first such part.
    pub position: usize,
}

/// The capabilities that the parts name.
pub open spec fn named_caps(parts: Seq<Seq<char>>) -> Set<nat> {
    Set::new(
        |k: nat|
            k < CAP_COUNT && exists|p: int|
                0 <= p < parts.len() && #[trigger] names_cap(parts[p], k as u8),
    )
}

/// The set of the capabilities that `parts` name, each written as its label
/// in any case. The first part that names none is the error.
#[verifier::rlimit(50)]
pub fn parse_capset_iter(parts: &Vec<String>) -> (r: Result<CapSet, CapParseError>)
    ensures
        match r {
            Ok(set) => {
                &&& forall|p: int| 0 <= p < parts.len() ==> is_cap_text(#[trigger] parts@[p]@)
                &&& set@ == named_caps(texts(parts@))
            },
            Err(e) => {
                &&& e.position < parts.len()
                &&& !is_cap_text(parts@[e.position as int]@)
                &&& forall|p: int| 0 <= p < e.position ==> is_cap_text(#[trigger] parts@[p]@)
            },
        },
{
    let mut res = CapSet::empty();
    let mut i: usize = 0;
    proof {
        assert(named_caps(texts(parts@).take(0)) =~= Set::<nat>::empty());
    }
    while i < parts.len()
        invariant
            i <= parts.len(),
            forall|p: int| 0 <= p < i ==> is_cap_text(#[trigger] parts@[p]@),
            res@ == named_caps(texts(parts@).take(i as int)),
        decreases parts.len() - i,
    {
        let part = parts[i].as_str();
        if !part.is_ascii() {
            proof {
                if is_cap_text(part@) {
                    lemma_cap_text_ascii(part@);
                }
            }
            return Err(CapParseError { position: i });
        }
        match parse_cap(part) {
            Ok(index) => {
                match get_cap(index) {
                    Some(cap) => {
                        res.add(cap);
                    },
                    None => {},
                }
                proof {
                    let before = texts(parts@).take(i as int);
                    let after = texts(parts@).take(i as int + 1);
                    assert(after[i as int] == part@);
                    assert forall|k: nat| #[trigger]
                        named_caps(after).contains(k) == (named_caps(before).contains(k) || k
                            == index as nat) by {
                        if named_caps(after).contains(k) {
                            let p = choose|p: int|
                                0 <= p < after.len() && #[trigger] names_cap(after[p], k as u8);
                            if p < i {
                                assert(before[p] == after[p]);
                            } else {
                                if k != index as nat {
                                    lemma_cap_names_distinct(k as u8, index);
                                }
                            }
                        }
                        if named_caps(before).contains(k) {
                            let p = choose|p: int|
                                0 <= p < before.len() && #[trigger] names_cap(before[p], k as u8);
                            assert(before[p] == after[p]);
                        }
                        if k == index as nat {
                            assert(names_cap(after[i as int], k as u8));
                        }
                    }
                    assert(res@ =~= named_caps(after));
                    assert(is_cap_text(part@));
                }
            },
            Err(_) => {
                return Err(CapParseError { position: i });
            },
        }
        i = i + 1;
    }
    proof {
        assert(texts(parts@).take(i as int) =~= texts(parts@));
    }
    Ok(res)
}

/// A capability that is switched on for one operation and off again
/// leaves a set that did not hold it as it was; one that the set held
/// before is gone after.
pub proof fn lemma_bracket(set: Set<nat>, cap: nat)
    ensures
        !set.contains(cap) ==> set.insert(cap).remove(cap) == set,
        set.contains(cap) ==> set.insert(cap).remove(cap) == set.remove(cap),
{
    assert(set.insert(cap).remove(cap) =~= set.remove(cap));
    if !set.contains(cap) {
        assert(set.remove(cap) =~= set);
    }
}

} // verus!
