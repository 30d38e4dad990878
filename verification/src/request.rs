//! The record that the kernel probe writes for each capability check, and
//! the packing of its fields.

use vstd::prelude::*;

verus! {

pub type Pid = i32;

pub type Nsid = u32;

pub type StackId = i64;

pub type UidGid = u64;

pub type Uid = u32;

pub type Gid = u32;

pub type PnsidNsid = u64;

pub type Capabilities = u64;

/// One observed capability check.
#[derive(Clone, Copy, Debug, PartialEq, Eq, Structural)]
pub struct Request {
    /// Process id in the root PID namespace.
    pub pid: Pid,
    /// Process id of the parent task.
    pub ppid: Pid,
    /// User id in the low half, group id in the high half.
    pub uid_gid: UidGid,
    /// PID-namespace inode in the low half, the parent task's in the high
    /// half.
    pub pnsid_nsid: PnsidNsid,
    /// Index of the capability that was asked for.
    pub capability: u8,
    /// Key of the kernel stack in the stack-trace table.
    pub stackid: StackId,
}

/// The low 32 bits of a packed pair.
pub open spec fn low_half(packed: u64) -> u32 {
    (packed % 0x1_0000_0000) as u32
}

/// The high 32 bits of a packed pair.
pub open spec fn high_half(packed: u64) -> u32 {
    (packed / 0x1_0000_0000) as u32
}

/// The pair `(high, low)` in one word.
pub open spec fn packed_pair(high: u32, low: u32) -> u64 {
    (high * 0x1_0000_0000 + low) as u64
}

/// The namespace inode and the parent's namespace inode of a packed pair,
/// in this order.
pub fn extract_ns(pinum_inum: u64) -> (r: (u32, u32))
    ensures
        r.0 == low_half(pinum_inum),
        r.1 == high_half(pinum_inum),
{
    let ns = (pinum_inum & 0xffffffff) as u32;
    let parent_ns = (pinum_inum >> 32) as u32;
    proof {
        assert(pinum_inum & 0xffffffff == pinum_inum % 0x1_0000_0000) by (bit_vector);
        assert(pinum_inum >> 32 == pinum_inum / 0x1_0000_0000) by (bit_vector);
    }
    (ns, parent_ns)
}

/// The user id and the group id of a packed pair, in this order.
pub fn split_uid_gid(uid_gid: u64) -> (r: (u32, u32))
    ensures
        r.0 == low_half(uid_gid),
        r.1 == high_half(uid_gid),
{
    extract_ns(uid_gid)
}

/// Packs the parent's namespace inode above the namespace inode.
pub fn pack_ns(parent_ns: u32, ns: u32) -> (r: u64)
    ensures
        r == packed_pair(parent_ns, ns),
{
    let high: u64 = parent_ns as u64;
    let low: u64 = ns as u64;
    proof {
        assert((high << 32) | low == high * 0x1_0000_0000 + low) by (bit_vector)
            requires
                high <= 0xffff_ffff,
                low <= 0xffff_ffff,
        ;
    }
    (high << 32) | low
}

/// Unpacking a packed pair gives its two halves back.
pub proof fn lemma_pack_roundtrip(high: u32, low: u32)
    ensures
        low_half(packed_pair(high, low)) == low,
        high_half(packed_pair(high, low)) == high,
{
    let h = high as u64;
    let l = low as u64;
    assert(h * 0x1_0000_0000 + l <= u64::MAX) by (nonlinear_arith)
        requires
            h <= 0xffff_ffff,
            l <= 0xffff_ffff,
    ;
    assert((h * 0x1_0000_0000 + l) % 0x1_0000_0000 == l && (h * 0x1_0000_0000 + l)
        / 0x1_0000_0000 == h) by (nonlinear_arith)
        requires
            h <= 0xffff_ffff,
            l <= 0xffff_ffff,
    ;
}

impl Request {
    /// The key of the request's stack in the stack-trace table; none where
    /// the stack id is negative or beyond the table's key type.
    pub fn stack_key(&self) -> (r: Option<u32>)
        ensures
            r.is_some() <==> 0 <= self.stackid <= i32::MAX,
            r matches Some(key) ==> key == self.stackid,
    {
        if 0 <= self.stackid && self.stackid <= 0x7fff_ffff {
            Some(self.stackid as u32)
        } else {
            None
        }
    }
}

} // verus!
