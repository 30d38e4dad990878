//! From system calls to the paths they touch and the access they ask for.

use vstd::prelude::*;
use vstd::string::{StrSliceExecFns, StringExecFns};
use crate::strace::{parameter_text, Syscall, SyscallView};
use crate::text::{contains_text, has_substring, same_text};

verus! {

/// Read access.
pub const ACCESS_R: u8 = 4;

/// Write access.
pub const ACCESS_W: u8 = 2;

/// Execute access, or search for a directory.
pub const ACCESS_X: u8 = 1;

/// A set of the three kinds of access, one bit each.
#[derive(Clone, Copy, Debug, PartialEq, Eq, Structural)]
pub struct Access {
    bits: u8,
}

impl View for Access {
    type V = u8;

    /// The bits of the set: read 4, write 2, execute 1.
    closed spec fn view(&self) -> u8 {
        self.bits
    }
}

impl Access {
    #[verifier::type_invariant]
    spec fn in_range(self) -> bool {
        self.bits <= 7
    }

    /// No access.
    pub fn empty() -> (r: Access)
        ensures
            r@ == 0,
    {
        Access { bits: 0 }
    }

    /// The set with the low three bits of `bits`.
    pub fn from_bits_truncate(bits: u8) -> (r: Access)
        ensures
            r@ == bits & 7,
    {
        let kept: u8 = bits & 7;
        proof {
            assert(bits & 7 <= 7) by (bit_vector);
        }
        Access { bits: kept }
    }

    /// The bits of the set.
    pub fn bits(self) -> (r: u8)
        ensures
            r == self@,
            r <= 7,
    {
        proof {
            use_type_invariant(self);
        }
        self.bits
    }

    pub fn is_empty(self) -> (r: bool)
        ensures
            r == (self@ == 0),
    {
        self.bits == 0
    }

    /// Whether every access of `other` is in this set.
    pub fn contains(self, other: Access) -> (r: bool)
        ensures
            r == (self@ & other@ == other@),
    {
        self.bits & other.bits == other.bits
    }

    /// The accesses that are in either set.
    pub fn union(self, other: Access) -> (r: Access)
        ensures
            r@ == self@ | other@,
    {
        proof {
            use_type_invariant(self);
            use_type_invariant(other);
        }
        let a: u8 = self.bits;
        let b: u8 = other.bits;
        proof {
            assert(a | b <= 7) by (bit_vector)
                requires
                    a <= 7,
                    b <= 7,
            ;
        }
        Access { bits: a | b }
    }

    /// The accesses that are in both sets.
    pub fn intersection(self, other: Access) -> (r: Access)
        ensures
            r@ == self@ & other@,
    {
        proof {
            use_type_invariant(self);
        }
        let a: u8 = self.bits;
        let b: u8 = other.bits;
        proof {
            assert(a & b <= 7) by (bit_vector)
                requires
                    a <= 7,
            ;
        }
        Access { bits: a & b }
    }

    /// The letters of the accesses in the set, in the order R, W, X.
    pub fn to_text(self) -> (r: String)
        ensures
            r@ == access_text(self@),
    {
        let mut out = String::new();
        if self.bits & ACCESS_R != 0 {
            out.append("R");
        }
        if self.bits & ACCESS_W != 0 {
            out.append("W");
        }
        if self.bits & ACCESS_X != 0 {
            out.append("X");
        }
        proof {
            assert(out@ =~= access_text(self@));
        }
        out
    }
}

/// The letters of the accesses of `bits`, in the order R, W, X.
pub open spec fn access_text(bits: u8) -> Seq<char> {
    (if bits & ACCESS_R != 0 {
        "R"@
    } else {
        Seq::empty()
    }) + (if bits & ACCESS_W != 0 {
        "W"@
    } else {
        Seq::empty()
    }) + (if bits & ACCESS_X != 0 {
        "X"@
    } else {
        Seq::empty()
    })
}

/// Which argument of a system call holds the path.
#[derive(Clone, Copy, Debug, PartialEq, Eq, Structural)]
pub enum Pos {
    /// The call takes no path.
    Absent,
    One,
    Two,
    Three,
    Four,
    Five,
}

impl Pos {
    /// The index of the argument, counted from zero.
    pub open spec fn spec_index(self) -> Option<usize> {
        match self {
            Pos::Absent => None,
            Pos::One => Some(0),
            Pos::Two => Some(1),
            Pos::Three => Some(2),
            Pos::Four => Some(3),
            Pos::Five => Some(4),
        }
    }

    /// The number of the argument, counted from one; no text where the call
    /// takes no path.
    pub fn to_text(self) -> (r: &'static str)
        ensures
            r@ == match self {
                Pos::Absent => ""@,
                Pos::One => "1"@,
                Pos::Two => "2"@,
                Pos::Three => "3"@,
                Pos::Four => "4"@,
                Pos::Five => "5"@,
            },
    {
        match self {
            Pos::Absent => "",
            Pos::One => "1",
            Pos::Two => "2",
            Pos::Three => "3",
            Pos::Four => "4",
            Pos::Five => "5",
        }
    }

    #[verifier::when_used_as_spec(spec_index)]
    pub fn index(self) -> (r: Option<usize>)
        ensures
            r == self.spec_index(),
    {
        match self {
            Pos::Absent => None,
            Pos::One => Some(0),
            Pos::Two => Some(1),
            Pos::Three => Some(2),
            Pos::Four => Some(3),
            Pos::Five => Some(4),
        }
    }
}

/// The number of system calls in the table.
pub const CALLS_LEN: usize = 130;

/// Row `i` of the table of system calls that touch files: the call's name,
/// the place of its path argument, and the bits of the access that the call
/// asks for whatever its other arguments are.
pub open spec fn call_row(i: usize) -> (Seq<char>, Pos, u8) {
    match i {
        0 => ("access"@, Pos::One, 0u8),
        1 => ("acct"@, Pos::One, 0u8),
        2 => ("bsd43_fstat"@, Pos::Absent, 0u8),
        3 => ("bsd43_fstatfs"@, Pos::Absent, 0u8),
        4 => ("bsd43_lstat"@, Pos::Absent, 0u8),
        5 => ("bsd43_oldfstat"@, Pos::Absent, 0u8),
        6 => ("bsd43_oldstat"@, Pos::Absent, 0u8),
        7 => ("bsd43_stat"@, Pos::Absent, 0u8),
        8 => ("bsd43_statfs"@, Pos::Absent, 0u8),
        9 => ("chdir"@, Pos::One, 0u8),
        10 => ("chmod"@, Pos::One, 0u8),
        11 => ("chown"@, Pos::One, 0u8),
        12 => ("chown32"@, Pos::One, 0u8),
        13 => ("chroot"@, Pos::One, 0u8),
        14 => ("creat"@, Pos::One, 2u8),
        15 => ("execv"@, Pos::One, 5u8),
        16 => ("execve"@, Pos::One, 5u8),
        17 => ("execveat"@, Pos::One, 5u8),
        18 => ("faccessat"@, Pos::One, 0u8),
        19 => ("faccessat2"@, Pos::One, 0u8),
        20 => ("fanotify_mark"@, Pos::Five, 0u8),
        21 => ("fchmodat"@, Pos::Two, 0u8),
        22 => ("fchmodat2"@, Pos::One, 0u8),
        23 => ("fchownat"@, Pos::One, 0u8),
        24 => ("fsconfig"@, Pos::Five, 0u8),
        25 => ("fspick"@, Pos::Two, 0u8),
        26 => ("fstat"@, Pos::Absent, 0u8),
        27 => ("fstat64"@, Pos::Absent, 0u8),
        28 => ("fstatat64"@, Pos::Absent, 0u8),
        29 => ("fstatfs"@, Pos::Absent, 0u8),
        30 => ("fstatfs64"@, Pos::Absent, 0u8),
        31 => ("futimesat"@, Pos::One, 2u8),
        32 => ("getcwd"@, Pos::One, 0u8),
        33 => ("getxattr"@, Pos::One, 4u8),
        34 => ("inotify_add_watch"@, Pos::One, 0u8),
        35 => ("lchown"@, Pos::One, 0u8),
        36 => ("lchown32"@, Pos::One, 0u8),
        37 => ("lgetxattr"@, Pos::One, 4u8),
        38 => ("link"@, Pos::Two, 2u8),
        39 => ("linkat"@, Pos::Four, 2u8),
        40 => ("listxattr"@, Pos::One, 4u8),
        41 => ("llistxattr"@, Pos::One, 4u8),
        42 => ("lremovexattr"@, Pos::One, 2u8),
        43 => ("lsetxattr"@, Pos::One, 2u8),
        44 => ("lstat"@, Pos::One, 0u8),
        45 => ("lstat64"@, Pos::One, 0u8),
        46 => ("mkdir"@, Pos::One, 2u8),
        47 => ("mkdirat"@, Pos::Two, 2u8),
        48 => ("mknod"@, Pos::One, 2u8),
        49 => ("mknodat"@, Pos::Two, 2u8),
        50 => ("mount"@, Pos::Absent, 0u8),
        51 => ("mount_setattr"@, Pos::Absent, 0u8),
        52 => ("move_mount"@, Pos::Absent, 0u8),
        53 => ("name_to_handle_at"@, Pos::Two, 4u8),
        54 => ("newfstatat"@, Pos::Two, 4u8),
        55 => ("oldfstat"@, Pos::Absent, 0u8),
        56 => ("oldlstat"@, Pos::Absent, 0u8),
        57 => ("oldstat"@, Pos::Absent, 0u8),
        58 => ("oldumount"@, Pos::Absent, 0u8),
        59 => ("open"@, Pos::One, 0u8),
        60 => ("openat"@, Pos::Two, 0u8),
        61 => ("openat2"@, Pos::Two, 0u8),
        62 => ("open_tree"@, Pos::Two, 0u8),
        63 => ("osf_fstat"@, Pos::Absent, 0u8),
        64 => ("osf_fstatfs"@, Pos::Absent, 0u8),
        65 => ("osf_fstatfs64"@, Pos::Absent, 0u8),
        66 => ("osf_lstat"@, Pos::Absent, 0u8),
        67 => ("osf_old_fstat"@, Pos::Absent, 0u8),
        68 => ("osf_old_lstat"@, Pos::Absent, 0u8),
        69 => ("osf_old_stat"@, Pos::Absent, 0u8),
        70 => ("osf_stat"@, Pos::Absent, 0u8),
        71 => ("osf_statfs"@, Pos::Absent, 0u8),
        72 => ("osf_statfs64"@, Pos::Absent, 0u8),
        73 => ("osf_utimes"@, Pos::One, 2u8),
        74 => ("pivot_root"@, Pos::One, 0u8),
        75 => ("posix_fstat"@, Pos::Absent, 0u8),
        76 => ("posix_fstatfs"@, Pos::Absent, 0u8),
        77 => ("posix_lstat"@, Pos::Absent, 0u8),
        78 => ("posix_stat"@, Pos::Absent, 0u8),
        79 => ("posix_statfs"@, Pos::Absent, 0u8),
        80 => ("quotactl"@, Pos::Absent, 0u8),
        81 => ("readlink"@, Pos::One, 4u8),
        82 => ("readlinkat"@, Pos::Two, 4u8),
        83 => ("removexattr"@, Pos::One, 0u8),
        84 => ("rename"@, Pos::One, 2u8),
        85 => ("renameat"@, Pos::Two, 2u8),
        86 => ("renameat2"@, Pos::Two, 2u8),
        87 => ("rmdir"@, Pos::One, 2u8),
        88 => ("setxattr"@, Pos::One, 0u8),
        89 => ("stat"@, Pos::Absent, 0u8),
        90 => ("stat64"@, Pos::Absent, 0u8),
        91 => ("statfs"@, Pos::Absent, 0u8),
        92 => ("statfs64"@, Pos::Absent, 0u8),
        93 => ("statx"@, Pos::Two, 0u8),
        94 => ("svr4_fstat"@, Pos::Absent, 0u8),
        95 => ("svr4_fstatfs"@, Pos::Absent, 0u8),
        96 => ("svr4_fstatvfs"@, Pos::Absent, 0u8),
        97 => ("svr4_fxstat"@, Pos::Absent, 0u8),
        98 => ("svr4_lstat"@, Pos::Absent, 0u8),
        99 => ("svr4_lxstat"@, Pos::Absent, 0u8),
        100 => ("svr4_stat"@, Pos::Absent, 0u8),
        101 => ("svr4_statfs"@, Pos::Absent, 0u8),
        102 => ("svr4_statvfs"@, Pos::Absent, 0u8),
        103 => ("svr4_xstat"@, Pos::Absent, 0u8),
        104 => ("swapoff"@, Pos::One, 0u8),
        105 => ("swapon"@, Pos::One, 0u8),
        106 => ("symlink"@, Pos::One, 2u8),
        107 => ("symlinkat"@, Pos::Two, 2u8),
        108 => ("sysv_fstat"@, Pos::Absent, 0u8),
        109 => ("sysv_fstatfs"@, Pos::Absent, 0u8),
        110 => ("sysv_fstatvfs"@, Pos::Absent, 0u8),
        111 => ("sysv_fxstat"@, Pos::Absent, 0u8),
        112 => ("sysv_lstat"@, Pos::Absent, 0u8),
        113 => ("sysv_lxstat"@, Pos::Absent, 0u8),
        114 => ("sysv_quotactl"@, Pos::Absent, 0u8),
        115 => ("sysv_stat"@, Pos::Absent, 0u8),
        116 => ("sysv_statfs"@, Pos::Absent, 0u8),
        117 => ("sysv_statvfs"@, Pos::Absent, 0u8),
        118 => ("sysv_xstat"@, Pos::Absent, 0u8),
        119 => ("truncate"@, Pos::One, 2u8),
        120 => ("truncate64"@, Pos::One, 2u8),
        121 => ("umount"@, Pos::Absent, 0u8),
        122 => ("umount2"@, Pos::Absent, 0u8),
        123 => ("unlink"@, Pos::One, 2u8),
        124 => ("unlinkat"@, Pos::Two, 2u8),
        125 => ("uselib"@, Pos::Absent, 0u8),
        126 => ("utime"@, Pos::One, 2u8),
        127 => ("utimensat"@, Pos::Two, 2u8),
        128 => ("utimensat_time64"@, Pos::Two, 2u8),
        129 => ("utimes"@, Pos::One, 2u8),
        _ => (Seq::empty(), Pos::Absent, 0u8),
    }
}

#[verifier::rlimit(50)]
fn row_at(i: usize) -> (r: (&'static str, Pos, u8))
    requires
        i < CALLS_LEN,
    ensures
        r.0@ == call_row(i).0,
        r.1 == call_row(i).1,
        r.2 == call_row(i).2,
        r.2 <= 7,
{
    match i {
        0 => ("access", Pos::One, 0),
        1 => ("acct", Pos::One, 0),
        2 => ("bsd43_fstat", Pos::Absent, 0),
        3 => ("bsd43_fstatfs", Pos::Absent, 0),
        4 => ("bsd43_lstat", Pos::Absent, 0),
        5 => ("bsd43_oldfstat", Pos::Absent, 0),
        6 => ("bsd43_oldstat", Pos::Absent, 0),
        7 => ("bsd43_stat", Pos::Absent, 0),
        8 => ("bsd43_statfs", Pos::Absent, 0),
        9 => ("chdir", Pos::One, 0),
        10 => ("chmod", Pos::One, 0),
        11 => ("chown", Pos::One, 0),
        12 => ("chown32", Pos::One, 0),
        13 => ("chroot", Pos::One, 0),
        14 => ("creat", Pos::One, 2),
        15 => ("execv", Pos::One, 5),
        16 => ("execve", Pos::One, 5),
        17 => ("execveat", Pos::One, 5),
        18 => ("faccessat", Pos::One, 0),
        19 => ("faccessat2", Pos::One, 0),
        20 => ("fanotify_mark", Pos::Five, 0),
        21 => ("fchmodat", Pos::Two, 0),
        22 => ("fchmodat2", Pos::One, 0),
        23 => ("fchownat", Pos::One, 0),
        24 => ("fsconfig", Pos::Five, 0),
        25 => ("fspick", Pos::Two, 0),
        26 => ("fstat", Pos::Absent, 0),
        27 => ("fstat64", Pos::Absent, 0),
        28 => ("fstatat64", Pos::Absent, 0),
        29 => ("fstatfs", Pos::Absent, 0),
        30 => ("fstatfs64", Pos::Absent, 0),
        31 => ("futimesat", Pos::One, 2),
        32 => ("getcwd", Pos::One, 0),
        33 => ("getxattr", Pos::One, 4),
        34 => ("inotify_add_watch", Pos::One, 0),
        35 => ("lchown", Pos::One, 0),
        36 => ("lchown32", Pos::One, 0),
        37 => ("lgetxattr", Pos::One, 4),
        38 => ("link", Pos::Two, 2),
        39 => ("linkat", Pos::Four, 2),
        40 => ("listxattr", Pos::One, 4),
        41 => ("llistxattr", Pos::One, 4),
        42 => ("lremovexattr", Pos::One, 2),
        43 => ("lsetxattr", Pos::One, 2),
        44 => ("lstat", Pos::One, 0),
        45 => ("lstat64", Pos::One, 0),
        46 => ("mkdir", Pos::One, 2),
        47 => ("mkdirat", Pos::Two, 2),
        48 => ("mknod", Pos::One, 2),
        49 => ("mknodat", Pos::Two, 2),
        50 => ("mount", Pos::Absent, 0),
        51 => ("mount_setattr", Pos::Absent, 0),
        52 => ("move_mount", Pos::Absent, 0),
        53 => ("name_to_handle_at", Pos::Two, 4),
        54 => ("newfstatat", Pos::Two, 4),
        55 => ("oldfstat", Pos::Absent, 0),
        56 => ("oldlstat", Pos::Absent, 0),
        57 => ("oldstat", Pos::Absent, 0),
        58 => ("oldumount", Pos::Absent, 0),
        59 => ("open", Pos::One, 0),
        60 => ("openat", Pos::Two, 0),
        61 => ("openat2", Pos::Two, 0),
        62 => ("open_tree", Pos::Two, 0),
        63 => ("osf_fstat", Pos::Absent, 0),
        64 => ("osf_fstatfs", Pos::Absent, 0),
        65 => ("osf_fstatfs64", Pos::Absent, 0),
        66 => ("osf_lstat", Pos::Absent, 0),
        67 => ("osf_old_fstat", Pos::Absent, 0),
        68 => ("osf_old_lstat", Pos::Absent, 0),
        69 => ("osf_old_stat", Pos::Absent, 0),
        70 => ("osf_stat", Pos::Absent, 0),
        71 => ("osf_statfs", Pos::Absent, 0),
        72 => ("osf_statfs64", Pos::Absent, 0),
        73 => ("osf_utimes", Pos::One, 2),
        74 => ("pivot_root", Pos::One, 0),
        75 => ("posix_fstat", Pos::Absent, 0),
        76 => ("posix_fstatfs", Pos::Absent, 0),
        77 => ("posix_lstat", Pos::Absent, 0),
        78 => ("posix_stat", Pos::Absent, 0),
        79 => ("posix_statfs", Pos::Absent, 0),
        80 => ("quotactl", Pos::Absent, 0),
        81 => ("readlink", Pos::One, 4),
        82 => ("readlinkat", Pos::Two, 4),
        83 => ("removexattr", Pos::One, 0),
        84 => ("rename", Pos::One, 2),
        85 => ("renameat", Pos::Two, 2),
        86 => ("renameat2", Pos::Two, 2),
        87 => ("rmdir", Pos::One, 2),
        88 => ("setxattr", Pos::One, 0),
        89 => ("stat", Pos::Absent, 0),
        90 => ("stat64", Pos::Absent, 0),
        91 => ("statfs", Pos::Absent, 0),
        92 => ("statfs64", Pos::Absent, 0),
        93 => ("statx", Pos::Two, 0),
        94 => ("svr4_fstat", Pos::Absent, 0),
        95 => ("svr4_fstatfs", Pos::Absent, 0),
        96 => ("svr4_fstatvfs", Pos::Absent, 0),
        97 => ("svr4_fxstat", Pos::Absent, 0),
        98 => ("svr4_lstat", Pos::Absent, 0),
        99 => ("svr4_lxstat", Pos::Absent, 0),
        100 => ("svr4_stat", Pos::Absent, 0),
        101 => ("svr4_statfs", Pos::Absent, 0),
        102 => ("svr4_statvfs", Pos::Absent, 0),
        103 => ("svr4_xstat", Pos::Absent, 0),
        104 => ("swapoff", Pos::One, 0),
        105 => ("swapon", Pos::One, 0),
        106 => ("symlink", Pos::One, 2),
        107 => ("symlinkat", Pos::Two, 2),
        108 => ("sysv_fstat", Pos::Absent, 0),
        109 => ("sysv_fstatfs", Pos::Absent, 0),
        110 => ("sysv_fstatvfs", Pos::Absent, 0),
        111 => ("sysv_fxstat", Pos::Absent, 0),
        112 => ("sysv_lstat", Pos::Absent, 0),
        113 => ("sysv_lxstat", Pos::Absent, 0),
        114 => ("sysv_quotactl", Pos::Absent, 0),
        115 => ("sysv_stat", Pos::Absent, 0),
        116 => ("sysv_statfs", Pos::Absent, 0),
        117 => ("sysv_statvfs", Pos::Absent, 0),
        118 => ("sysv_xstat", Pos::Absent, 0),
        119 => ("truncate", Pos::One, 2),
        120 => ("truncate64", Pos::One, 2),
        121 => ("umount", Pos::Absent, 0),
        122 => ("umount2", Pos::Absent, 0),
        123 => ("unlink", Pos::One, 2),
        124 => ("unlinkat", Pos::Two, 2),
        125 => ("uselib", Pos::Absent, 0),
        126 => ("utime", Pos::One, 2),
        127 => ("utimensat", Pos::Two, 2),
        128 => ("utimensat_time64", Pos::Two, 2),
        _ => ("utimes", Pos::One, 2),
    }
}

/// Row `i` of the table.
pub fn call_at(i: usize) -> (r: (&'static str, Pos, Access))
    requires
        i < CALLS_LEN,
    ensures
        r.0@ == call_row(i).0,
        r.1 == call_row(i).1,
        r.2@ == call_row(i).2,
{
    let row = row_at(i);
    let bits: u8 = row.2;
    proof {
        assert(bits & 7 == bits) by (bit_vector)
            requires
                bits <= 7,
        ;
    }
    (row.0, row.1, Access::from_bits_truncate(bits))
}

/// Whether row `i` is the rule for the call `name`: the first row of that
/// name among those with a path argument.
pub open spec fn is_rule(name: Seq<char>, i: usize) -> bool {
    &&& i < CALLS_LEN
    &&& call_row(i).0 == name
    &&& call_row(i).1 != Pos::Absent
    &&& forall|j: usize| j < i ==> !(#[trigger] call_row(j).0 == name && call_row(j).1 != Pos::Absent)
}

/// Whether the table has a rule for the call `name`.
pub open spec fn has_rule(name: Seq<char>) -> bool {
    exists|i: usize| is_rule(name, i)
}

/// The row of the rule for the call `name`.
#[verifier::rlimit(50)]
pub fn find_rule(name: &str) -> (r: Option<usize>)
    ensures
        match r {
            Some(i) => is_rule(name@, i),
            None => !has_rule(name@),
        },
{
    let mut i: usize = 0;
    while i < CALLS_LEN
        invariant
            i <= CALLS_LEN,
            forall|j: usize| j < i ==> !(#[trigger] call_row(j).0 == name@ && call_row(j).1 != Pos::Absent),
        decreases CALLS_LEN - i,
    {
        let row = call_at(i);
        if row.1 != Pos::Absent && same_text(row.0, name) {
            return Some(i);
        }
        i = i + 1;
    }
    None
}

/// A path that a system call touches, with the access it asks for.
pub struct SyscallAccessEntry {
    pub path: String,
    pub access: Access,
    pub syscall: String,
}

/// The contents of a [`SyscallAccessEntry`].
pub struct EntryView {
    pub path: Seq<char>,
    pub access: u8,
    pub syscall: Seq<char>,
}

impl View for SyscallAccessEntry {
    type V = EntryView;

    open spec fn view(&self) -> EntryView {
        EntryView { path: self.path@, access: self.access@, syscall: self.syscall@ }
    }
}

/// The contents of a list of entries.
pub open spec fn entries_view(entries: Seq<SyscallAccessEntry>) -> Seq<EntryView> {
    entries.map_values(|e: SyscallAccessEntry| e@)
}

/// What the file system says of a path: the path in canonical form, or as
/// it was given where it has none, and the permission bits that the file
/// grants to others, where it could be examined.
pub struct PathProbe {
    pub path: String,
    pub mode: Option<u8>,
}

/// What a system call asks of the file system, by its arguments alone.
pub struct AccessPlan {
    /// The path argument.
    pub path: String,
    /// The access to the path.
    pub access: Access,
    /// Whether the call makes or removes the path, and so writes to its
    /// directory.
    pub create_or_delete: bool,
}

/// The contents of an [`AccessPlan`].
pub struct PlanView {
    pub path: Seq<char>,
    pub access: u8,
    pub create_or_delete: bool,
}

impl View for AccessPlan {
    type V = PlanView;

    open spec fn view(&self) -> PlanView {
        PlanView {
            path: self.path@,
            access: self.access@,
            create_or_delete: self.create_or_delete,
        }
    }
}

/// Whether the call is one of the open family, whose access is in its
/// flags.
pub open spec fn is_open_call(name: Seq<char>) -> bool {
    name == "open"@ || name == "openat"@ || name == "openat2"@
}

/// Whether the call makes or removes a directory entry.
pub open spec fn makes_or_removes(name: Seq<char>) -> bool {
    ||| name == "mkdir"@
    ||| name == "mkdirat"@
    ||| name == "mknod"@
    ||| name == "mknodat"@
    ||| name == "symlink"@
    ||| name == "symlinkat"@
    ||| name == "unlink"@
    ||| name == "unlinkat"@
}

/// The access that the flags of an open call ask for.
pub open spec fn open_access(flags: Seq<char>) -> u8 {
    (if has_substring(flags, "O_RDONLY"@) {
        ACCESS_R
    } else {
        0u8
    }) | (if has_substring(flags, "O_CREAT"@) || has_substring(flags, "O_WRONLY"@) {
        ACCESS_W
    } else {
        0u8
    }) | (if has_substring(flags, "O_RDWR"@) {
        6u8
    } else {
        0u8
    })
}

/// The flags of a call of the open family: the argument that follows the
/// path, which stands at `at`.
pub open spec fn open_flags(call: SyscallView, at: int) -> Seq<char>
    recommends
        0 <= at,
        at + 1 < call.args.len(),
{
    parameter_text(call.args[at + 1])
}

/// What row `i` of the table makes of the call: nothing where the call
/// lacks the path argument, or the flags of a call of the open family; and
/// nothing where it asks for no access or failed because the path does not
/// exist.
pub open spec fn planned_by(call: SyscallView, i: usize) -> Option<PlanView> {
    let row = call_row(i);
    let at = row.1.spec_index().unwrap();
    if at >= call.args.len() || (is_open_call(call.syscall) && at + 1 >= call.args.len()) {
        None
    } else {
        let access = if is_open_call(call.syscall) {
            row.2 | open_access(open_flags(call, at as int))
        } else {
            row.2
        };
        if access == 0 || call.return_code.constant == Some("ENOENT"@) {
            None
        } else {
            Some(
                PlanView {
                    path: parameter_text(call.args[at as int]),
                    access,
                    create_or_delete: if is_open_call(call.syscall) {
                        has_substring(open_flags(call, at as int), "O_CREAT"@)
                    } else {
                        makes_or_removes(call.syscall)
                    },
                },
            )
        }
    }
}

/// What the call asks of the file system, where the table has a rule for
/// it.
pub open spec fn planned(call: SyscallView) -> Option<PlanView> {
    if has_rule(call.syscall) {
        planned_by(call, choose|i: usize| is_rule(call.syscall, i))
    } else {
        None
    }
}

fn is_open(name: &str) -> (r: bool)
    ensures
        r == is_open_call(name@),
{
    same_text(name, "open") || same_text(name, "openat") || same_text(name, "openat2")
}

fn is_make_or_remove(name: &str) -> (r: bool)
    ensures
        r == makes_or_removes(name@),
{
    same_text(name, "mkdir") || same_text(name, "mkdirat") || same_text(name, "mknod")
        || same_text(name, "mknodat") || same_text(name, "symlink") || same_text(
        name,
        "symlinkat",
    ) || same_text(name, "unlink") || same_text(name, "unlinkat")
}

fn access_of_flags(flags: &str) -> (r: Access)
    ensures
        r@ == open_access(flags@),
{
    let mut access = Access::empty();
    if contains_text(flags, "O_RDONLY") {
        access = access.union(Access::from_bits_truncate(ACCESS_R));
    }
    if contains_text(flags, "O_CREAT") || contains_text(flags, "O_WRONLY") {
        access = access.union(Access::from_bits_truncate(ACCESS_W));
    }
    if contains_text(flags, "O_RDWR") {
        access = access.union(Access::from_bits_truncate(6));
    }
    proof {
        assert(4u8 & 7 == 4u8 && 2u8 & 7 == 2u8 && 6u8 & 7 == 6u8) by (bit_vector);
        assert(forall|a: u8| 0u8 | a == a && a | 0u8 == a) by (bit_vector);
        assert(forall|a: u8, b: u8| #[trigger] (a | b) == b | a) by (bit_vector);
    }
    access
}

/// What the system call asks of the file system: the path to examine and
/// the access to it. Nothing for a call without a rule in the table or
/// without the arguments that the rule reads, for one that asks for no
/// access, and for one that failed with `ENOENT`.
#[verifier::rlimit(50)]
pub fn plan_access(syscall: &Syscall) -> (r: Option<AccessPlan>)
    ensures
        match (r, planned(syscall@)) {
            (Some(plan), Some(expected)) => plan@ == expected,
            (None, None) => true,
            _ => false,
        },
{
    let name = syscall.syscall.as_str();
    let i = match find_rule(name) {
        Some(i) => i,
        None => {
            return None;
        },
    };
    proof {
        let chosen = choose|j: usize| is_rule(name@, j);
        assert(is_rule(name@, chosen));
        assert(chosen == i) by {
            if chosen < i {
                assert(!(call_row(chosen).0 == name@ && call_row(chosen).1 != Pos::Absent));
            }
            if i < chosen {
                assert(!(call_row(i).0 == name@ && call_row(i).1 != Pos::Absent));
            }
        }
    }
    let row = call_at(i);
    let at = match row.1.index() {
        Some(at) => at,
        None => {
            return None;
        },
    };
    let open = is_open(name);
    if at >= syscall.args.len() || (open && at + 1 >= syscall.args.len()) {
        return None;
    }
    let mut access = row.2;
    let mut create_or_delete = false;
    if open {
        let flags = syscall.args[at + 1].to_text();
        access = access.union(access_of_flags(flags.as_str()));
        create_or_delete = contains_text(flags.as_str(), "O_CREAT");
    } else {
        create_or_delete = is_make_or_remove(name);
    }
    if access.is_empty() {
        return None;
    }
    match &syscall.return_code.constant {
        Some(constant) => {
            if same_text(constant.as_str(), "ENOENT") {
                return None;
            }
        },
        None => {},
    }
    Some(AccessPlan { path: syscall.args[at].to_text(), access, create_or_delete })
}

/// The access that a call needs to the directory `k` steps above its
/// path: search, and write to the nearest one where the call makes or
/// removes the path.
pub open spec fn directory_access(k: int, create_or_delete: bool) -> u8 {
    if create_or_delete && k == 0 {
        3u8
    } else {
        ACCESS_X
    }
}

/// Whether the permission bits for others grant all of `access`.
pub open spec fn granted_to_others(mode: u8, access: u8) -> bool {
    (mode & 7) & access == access
}

/// The entries for the first `n` directories above a path, nearest first:
/// one for each directory that could be examined and does not grant the
/// needed access to others.
pub open spec fn directory_entries(
    ancestors: Seq<PathProbe>,
    syscall: Seq<char>,
    create_or_delete: bool,
    n: int,
) -> Seq<EntryView>
    decreases n,
{
    if n <= 0 {
        Seq::empty()
    } else {
        let before = directory_entries(ancestors, syscall, create_or_delete, n - 1);
        let probe = ancestors[n - 1];
        let access = directory_access(n - 1, create_or_delete);
        match probe.mode {
            Some(mode) => if granted_to_others(mode, access) {
                before
            } else {
                before.push(EntryView { path: probe.path@, access, syscall })
            },
            None => before,
        }
    }
}

/// The entries for the directories above the path of a system call, which
/// `ancestors` describes from the nearest one upwards.
#[verifier::rlimit(50)]
pub fn check_directories_access(
    ancestors: &Vec<PathProbe>,
    syscall: &Syscall,
    create_or_delete: bool,
) -> (r: Vec<SyscallAccessEntry>)
    ensures
        entries_view(r@) == directory_entries(
            ancestors@,
            syscall.syscall@,
            create_or_delete,
            ancestors@.len() as int,
        ),
{
    let mut result: Vec<SyscallAccessEntry> = Vec::new();
    let mut k: usize = 0;
    proof {
        assert(entries_view(result@) =~= Seq::empty());
    }
    while k < ancestors.len()
        invariant
            k <= ancestors.len(),
            entries_view(result@) == directory_entries(
                ancestors@,
                syscall.syscall@,
                create_or_delete,
                k as int,
            ),
        decreases ancestors.len() - k,
    {
        match ancestors[k].mode {
            Some(mode) => {
                let access = if create_or_delete && k == 0 {
                    Access::from_bits_truncate(3)
                } else {
                    Access::from_bits_truncate(ACCESS_X)
                };
                proof {
                    assert(3u8 & 7 == 3u8 && 1u8 & 7 == 1u8) by (bit_vector);
                }
                if !Access::from_bits_truncate(mode).contains(access) {
                    let entry = SyscallAccessEntry {
                        access,
                        syscall: syscall.syscall.clone(),
                        path: ancestors[k].path.clone(),
                    };
                    proof {
                        assert(entries_view(result@.push(entry)) =~= entries_view(result@).push(
                            entry@,
                        ));
                    }
                    result.push(entry);
                }
            },
            None => {},
        }
        k = k + 1;
    }
    result
}

/// The entries of a system call: nothing where it asks nothing of the file
/// system, where its path could not be examined, or where the path grants
/// the access to others; else the entries of the directories above the
/// path and, last, the entry of the path.
pub open spec fn call_entries(
    call: SyscallView,
    target: PathProbe,
    ancestors: Seq<PathProbe>,
) -> Option<Seq<EntryView>> {
    match planned(call) {
        Some(plan) => match target.mode {
            Some(mode) => if granted_to_others(mode, plan.access) {
                None
            } else {
                Some(
                    directory_entries(
                        ancestors,
                        call.syscall,
                        plan.create_or_delete,
                        ancestors.len() as int,
                    ).push(
                        EntryView { path: target.path@, access: plan.access, syscall: call.syscall },
                    ),
                )
            },
            None => None,
        },
        None => None,
    }
}

/// The paths that a system call touches and the access that it needs to
/// each, as far as others are not granted it anyway. `target` describes the
/// path of the call's plan, and `ancestors` the directories above it from
/// the nearest one upwards.
pub fn syscall_to_entry(syscall: &Syscall, target: &PathProbe, ancestors: &Vec<PathProbe>) -> (r:
    Option<Vec<SyscallAccessEntry>>)
    ensures
        match (r, call_entries(syscall@, *target, ancestors@)) {
            (Some(entries), Some(expected)) => entries_view(entries@) == expected,
            (None, None) => true,
            _ => false,
        },
{
    let plan = match plan_access(syscall) {
        Some(plan) => plan,
        None => {
            return None;
        },
    };
    let mode = match target.mode {
        Some(mode) => mode,
        None => {
            return None;
        },
    };
    if Access::from_bits_truncate(mode).contains(plan.access) {
        return None;
    }
    let mut result = check_directories_access(ancestors, syscall, plan.create_or_delete);
    let entry = SyscallAccessEntry {
        path: target.path.clone(),
        access: plan.access,
        syscall: syscall.syscall.clone(),
    };
    proof {
        assert(entries_view(result@.push(entry)) =~= entries_view(result@).push(entry@));
    }
    result.push(entry);
    Some(result)
}

/// The union of the accesses of the entries for `path`.
pub open spec fn merged_access(entries: Seq<EntryView>, path: Seq<char>) -> u8
    decreases entries.len(),
{
    if entries.len() == 0 {
        0
    } else if entries.last().path == path {
        merged_access(entries.drop_last(), path) | entries.last().access
    } else {
        merged_access(entries.drop_last(), path)
    }
}

/// Whether some entry is for `path`.
pub open spec fn touches(entries: Seq<EntryView>, path: Seq<char>) -> bool {
    exists|i: int| 0 <= i < entries.len() && (#[trigger] entries[i]).path == path
}

/// Whether entry `i` is the first one for `path`.
pub open spec fn first_touch(entries: Seq<EntryView>, path: Seq<char>, i: int) -> bool {
    &&& 0 <= i < entries.len()
    &&& entries[i].path == path
    &&& forall|k: int| 0 <= k < i ==> (#[trigger] entries[k]).path != path
}

/// Whether `merged` is the file map of the entries: each path of an entry
/// once, in the order in which the paths first come, with the union of the
/// accesses of its entries.
pub open spec fn is_file_map(entries: Seq<EntryView>, merged: Seq<(String, Access)>) -> bool {
    &&& forall|a: int, b: int| 0 <= a < b < merged.len() ==> merged[a].0@ != merged[b].0@
    &&& forall|a: int, b: int, i: int, j: int|
        0 <= a < b < merged.len() && #[trigger] first_touch(entries, merged[a].0@, i)
            && #[trigger] first_touch(entries, merged[b].0@, j) ==> i < j
    &&& forall|i: int|
        0 <= i < entries.len() ==> exists|a: int|
            0 <= a < merged.len() && (#[trigger] merged[a]).0@ == (#[trigger] entries[i]).path
    &&& forall|a: int|
        0 <= a < merged.len() ==> touches(entries, (#[trigger] merged[a]).0@) && merged[a].1@
            == merged_access(entries, merged[a].0@)
}

/// The first entry for a path among one more entry is the first among
/// those before, where one of them is for the path; else it is the new one.
proof fn lemma_first_touch_prefix(entries: Seq<EntryView>, n: int, path: Seq<char>, i: int)
    requires
        0 <= n < entries.len(),
        first_touch(entries.take(n + 1), path, i),
    ensures
        i < n ==> first_touch(entries.take(n), path, i),
        i >= n ==> i == n && !touches(entries.take(n), path),
{
    let before = entries.take(n);
    let after = entries.take(n + 1);
    if i < n {
        assert(before[i] == after[i]);
        assert forall|k: int| 0 <= k < i implies (#[trigger] before[k]).path != path by {
            assert(before[k] == after[k]);
        }
    } else {
        if touches(before, path) {
            let k = choose|k: int| 0 <= k < before.len() && (#[trigger] before[k]).path == path;
            assert(after[k] == before[k]);
        }
    }
}

/// Merges the entries by path.
#[verifier::rlimit(50)]
pub fn merge_accesses(entries: &Vec<SyscallAccessEntry>) -> (r: Vec<(String, Access)>)
    ensures
        is_file_map(entries_view(entries@), r@),
{
    let mut merged: Vec<(String, Access)> = Vec::new();
    let ghost all = entries_view(entries@);
    let mut n: usize = 0;
    proof {
        assert(all.take(0) =~= Seq::empty());
    }
    while n < entries.len()
        invariant
            n <= entries.len(),
            all == entries_view(entries@),
            is_file_map(all.take(n as int), merged@),
        decreases entries.len() - n,
    {
        let entry = &entries[n];
        let ghost before = all.take(n as int);
        let ghost after = all.take(n as int + 1);
        let ghost old_merged = merged@;
        proof {
            assert(after.drop_last() =~= before);
            assert(after.last() == entry@);
            assert forall|path: Seq<char>| touches(before, path) implies touches(after, path) by {
                let i = choose|i: int| 0 <= i < before.len() && (#[trigger] before[i]).path == path;
                assert(after[i].path == path);
            }
        }
        let mut a: usize = 0;
        let mut found = false;
        while a < merged.len() && !found
            invariant
                a <= merged.len(),
                merged@ == old_merged,
                !found ==> forall|b: int| 0 <= b < a ==> (#[trigger] merged@[b]).0@ != entry.path@,
                found ==> a < merged.len() && merged@[a as int].0@ == entry.path@,
            decreases merged.len() - a + (if found { 0int } else { 1int }),
        {
            if merged[a].0 == entry.path {
                found = true;
            } else {
                a = a + 1;
            }
        }
        if found {
            let path = merged[a].0.clone();
            let access = merged[a].1.union(entry.access);
            merged.set(a, (path, access));
            proof {
                assert(touches(after, entry.path@)) by {
                    assert(after[n as int].path == entry.path@);
                }
                assert forall|i: int| 0 <= i < after.len() implies exists|b: int|
                    0 <= b < merged@.len() && (#[trigger] merged@[b]).0@ == (
                    #[trigger] after[i]).path by {
                    if i < n {
                        assert(before[i] == after[i]);
                        let b = choose|b: int|
                            0 <= b < old_merged.len() && (#[trigger] old_merged[b]).0@
                                == before[i].path;
                        assert(merged@[b].0@ == after[i].path);
                    } else {
                        assert(merged@[a as int].0@ == after[i].path);
                    }
                }
                assert forall|b: int| 0 <= b < merged@.len() implies touches(
                    after,
                    (#[trigger] merged@[b]).0@,
                ) && merged@[b].1@ == merged_access(after, merged@[b].0@) by {
                    assert(old_merged[b].0@ == merged@[b].0@);
                    assert(touches(before, old_merged[b].0@));
                    if b != a {
                        assert(merged@[b] == old_merged[b]);
                    }
                }
                assert forall|x: int, y: int, i: int, j: int|
                    0 <= x < y < merged@.len() && #[trigger] first_touch(
                        after,
                        merged@[x].0@,
                        i,
                    ) && #[trigger] first_touch(after, merged@[y].0@, j) implies i < j by {
                    assert(old_merged[x].0@ == merged@[x].0@);
                    assert(old_merged[y].0@ == merged@[y].0@);
                    assert(touches(before, old_merged[x].0@));
                    assert(touches(before, old_merged[y].0@));
                    lemma_first_touch_prefix(all, n as int, merged@[x].0@, i);
                    lemma_first_touch_prefix(all, n as int, merged@[y].0@, j);
                }
            }
        } else {
            merged.push((entry.path.clone(), entry.access));
            proof {
                assert(forall|x: u8| 0u8 | x == x) by (bit_vector);
                assert(merged_access(before, entry.path@) == 0) by {
                    lemma_untouched_is_empty(before, entry.path@);
                    if touches(before, entry.path@) {
                        let i = choose|i: int|
                            0 <= i < before.len() && (#[trigger] before[i]).path == entry.path@;
                        let b = choose|b: int|
                            0 <= b < old_merged.len() && (#[trigger] old_merged[b]).0@
                                == before[i].path;
                    }
                }
                assert(touches(after, entry.path@)) by {
                    assert(after[n as int].path == entry.path@);
                }
                assert forall|i: int| 0 <= i < after.len() implies exists|b: int|
                    0 <= b < merged@.len() && (#[trigger] merged@[b]).0@ == (
                    #[trigger] after[i]).path by {
                    if i < n {
                        assert(before[i] == after[i]);
                        let b = choose|b: int|
                            0 <= b < old_merged.len() && (#[trigger] old_merged[b]).0@
                                == before[i].path;
                        assert(merged@[b].0@ == after[i].path);
                    } else {
                        assert(merged@[old_merged.len() as int].0@ == after[i].path);
                    }
                }
                assert forall|b: int| 0 <= b < merged@.len() implies touches(
                    after,
                    (#[trigger] merged@[b]).0@,
                ) && merged@[b].1@ == merged_access(after, merged@[b].0@) by {
                    if b < old_merged.len() {
                        assert(merged@[b] == old_merged[b]);
                        assert(touches(before, old_merged[b].0@));
                    }
                }
                assert forall|x: int, y: int, i: int, j: int|
                    0 <= x < y < merged@.len() && #[trigger] first_touch(
                        after,
                        merged@[x].0@,
                        i,
                    ) && #[trigger] first_touch(after, merged@[y].0@, j) implies i < j by {
                    assert(merged@[x] == old_merged[x]);
                    assert(touches(before, old_merged[x].0@));
                    lemma_first_touch_prefix(all, n as int, merged@[x].0@, i);
                    lemma_first_touch_prefix(all, n as int, merged@[y].0@, j);
                    if y < old_merged.len() {
                        assert(merged@[y] == old_merged[y]);
                        assert(touches(before, old_merged[y].0@));
                    } else {
                        if j < n {
                            assert(before[j].path == entry.path@);
                            assert(touches(before, entry.path@));
                        }
                    }
                }
            }
        }
        n = n + 1;
    }
    proof {
        assert(all.take(n as int) =~= all);
    }
    merged
}

/// Entries of which none is for `path` give it no access.
proof fn lemma_untouched_is_empty(entries: Seq<EntryView>, path: Seq<char>)
    requires
        !touches(entries, path),
    ensures
        merged_access(entries, path) == 0,
    decreases entries.len(),
{
    if entries.len() > 0 {
        let rest = entries.drop_last();
        assert(entries[entries.len() - 1].path != path);
        assert(!touches(rest, path)) by {
            if touches(rest, path) {
                let i = choose|i: int| 0 <= i < rest.len() && (#[trigger] rest[i]).path == path;
                assert(entries[i].path == path);
            }
        }
        lemma_untouched_is_empty(rest, path);
    }
}

/// Access merge: a path that two system calls touch, one with access `a`
/// and one with access `b`, gets the access `a | b`.
pub proof fn lemma_access_merge(first: EntryView, second: EntryView)
    requires
        first.path == second.path,
    ensures
        merged_access(seq![first, second], first.path) == first.access | second.access,
{
    let both = seq![first, second];
    let one = seq![first];
    assert(both.drop_last() =~= one);
    assert(both.last() == second);
    assert(one.last() == first);
    assert(one.drop_last().len() == 0);
    assert(merged_access(one.drop_last(), first.path) == 0);
    assert(merged_access(one, first.path) == 0u8 | first.access);
    let a = first.access;
    assert(0u8 | a == a) by (bit_vector);
}

/// The access that two lists of entries give to a path is the union of
/// what each of them gives to it.
pub proof fn lemma_merged_access_concat(left: Seq<EntryView>, right: Seq<EntryView>, path: Seq<char>)
    ensures
        merged_access(left + right, path) == merged_access(left, path) | merged_access(right, path),
    decreases right.len(),
{
    if right.len() == 0 {
        assert(left + right =~= left);
        let a = merged_access(left, path);
        assert(a | 0u8 == a) by (bit_vector);
    } else {
        let all = left + right;
        assert(all.drop_last() =~= left + right.drop_last());
        assert(all.last() == right.last());
        lemma_merged_access_concat(left, right.drop_last(), path);
        let a = merged_access(left, path);
        let b = merged_access(right.drop_last(), path);
        let c = right.last().access;
        assert((a | b) | c == a | (b | c)) by (bit_vector);
    }
}

} // verus!
