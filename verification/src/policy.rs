//! The policy of the traced command, put together from the capabilities,
//! the file accesses and the D-Bus calls that were observed; and the table
//! of a host-wide observation.

use vstd::prelude::*;
use crate::aggregate::CapSetEntry;
use crate::capset::{
    cap_line, cap_list, capset_to_string, capset_to_vec, get_cap, CapSet, CAP_SYS_PTRACE,
};
use crate::launcher::{decimal, decimal_text};
use crate::request::{Nsid, Pid};
use crate::strace::{calls_view, trim_text, trimmed, Syscall, SyscallView};
use crate::syscalls::{entries_view, is_file_map, merge_accesses, Access, SyscallAccessEntry};
use crate::text::{same_text, texts};

verus! {

/// Whether the trace holds a `ptrace` call.
pub open spec fn traces_ptrace(calls: Seq<SyscallView>) -> bool {
    exists|i: int| 0 <= i < calls.len() && trim_text((#[trigger] calls[i]).syscall) == "ptrace"@
}

/// Whether the trace holds a `ptrace` call.
pub fn saw_ptrace(syscalls: &Vec<Syscall>) -> (r: bool)
    ensures
        r == traces_ptrace(calls_view(syscalls@)),
{
    let mut i: usize = 0;
    while i < syscalls.len()
        invariant
            i <= syscalls.len(),
            forall|j: int|
                0 <= j < i ==> trim_text((#[trigger] calls_view(syscalls@)[j]).syscall)
                    != "ptrace"@,
        decreases syscalls.len() - i,
    {
        if same_text(trimmed(syscalls[i].syscall.as_str()), "ptrace") {
            proof {
                assert(calls_view(syscalls@)[i as int].syscall == syscalls@[i as int].syscall@);
            }
            return true;
        }
        proof {
            assert(calls_view(syscalls@)[i as int].syscall == syscalls@[i as int].syscall@);
        }
        i = i + 1;
    }
    false
}

/// The capabilities of the policy: those of the namespace tree, and
/// `SYS_PTRACE` where the trace holds a `ptrace` call.
pub open spec fn policy_caps(tree: Set<nat>, ptrace: bool) -> Set<nat> {
    if ptrace {
        tree.insert(CAP_SYS_PTRACE as nat)
    } else {
        tree
    }
}

/// The policy of the traced command.
pub struct ProgramResult {
    /// The labels of the capabilities, or the single word `ALL`.
    pub capabilities: Vec<String>,
    /// Each path with the access that the command needs to it.
    pub files: Vec<(String, Access)>,
    /// The D-Bus methods that the command called.
    pub dbus: Vec<String>,
    /// The environment at launch.
    pub env_vars: Vec<(String, String)>,
}

/// Puts the policy together. `capset` is the union over the namespace tree
/// of the command, `syscalls` its trace, `entries` the file accesses found
/// in the trace, `dbus` its D-Bus methods and `env_vars` its environment.
pub fn program_result(
    capset: CapSet,
    syscalls: &Vec<Syscall>,
    entries: &Vec<SyscallAccessEntry>,
    dbus: Vec<String>,
    env_vars: Vec<(String, String)>,
) -> (r: ProgramResult)
    ensures
        texts(r.capabilities@) == cap_list(
            policy_caps(capset@, traces_ptrace(calls_view(syscalls@))),
        ),
        is_file_map(entries_view(entries@), r.files@),
        r.dbus == dbus,
        r.env_vars == env_vars,
{
    let mut capset = capset;
    if saw_ptrace(syscalls) {
        match get_cap(CAP_SYS_PTRACE) {
            Some(cap) => {
                capset.add(cap);
            },
            None => {},
        }
    }
    ProgramResult {
        capabilities: capset_to_vec(&capset),
        files: merge_accesses(entries),
        dbus,
        env_vars,
    }
}

/// One row of the table of a host-wide observation.
pub struct CapabilitiesTable {
    pub pid: Pid,
    pub ppid: Pid,
    pub uid: String,
    pub gid: String,
    pub ns: Nsid,
    pub parent_ns: Nsid,
    pub name: String,
    pub capabilities: String,
}

/// What the host knows of a process: its program, and the names of its
/// user and group, each where it has one.
pub struct Identity {
    pub name: String,
    pub username: Option<String>,
    pub groupname: Option<String>,
}

/// The contents of a row of the table.
pub struct RowView {
    pub pid: Pid,
    pub ppid: Pid,
    pub uid: Seq<char>,
    pub gid: Seq<char>,
    pub ns: Nsid,
    pub parent_ns: Nsid,
    pub name: Seq<char>,
    pub capabilities: Seq<char>,
}

impl View for CapabilitiesTable {
    type V = RowView;

    open spec fn view(&self) -> RowView {
        RowView {
            pid: self.pid,
            ppid: self.ppid,
            uid: self.uid@,
            gid: self.gid@,
            ns: self.ns,
            parent_ns: self.parent_ns,
            name: self.name@,
            capabilities: self.capabilities@,
        }
    }
}

/// The contents of a list of rows.
pub open spec fn rows_view(rows: Seq<CapabilitiesTable>) -> Seq<RowView> {
    rows.map_values(|row: CapabilitiesTable| row@)
}

/// A name, or the number in decimal where there is no name.
pub open spec fn name_or_number(name: Option<String>, number: u32) -> Seq<char> {
    match name {
        Some(name) => name@,
        None => decimal(number as int),
    }
}

/// The row of an entry: user and group by name, or by number where the
/// host has no name for them; the capabilities in one line.
pub open spec fn row_of(entry: CapSetEntry, identity: Identity) -> RowView {
    RowView {
        pid: entry.pid,
        ppid: entry.ppid,
        uid: name_or_number(identity.username, entry.uid),
        gid: name_or_number(identity.groupname, entry.gid),
        ns: entry.ns,
        parent_ns: entry.parent_ns,
        name: identity.name@,
        capabilities: cap_line(entry.capabilities@),
    }
}

/// The rows of the first `n` entries, each with the identity at its place.
pub open spec fn rows_of(entries: Seq<CapSetEntry>, identities: Seq<Identity>, n: int) -> Seq<
    RowView,
>
    decreases n,
{
    if n <= 0 {
        Seq::empty()
    } else {
        rows_of(entries, identities, n - 1).push(row_of(entries[n - 1], identities[n - 1]))
    }
}

/// The row of an entry.
pub fn capabilities_row(entry: &CapSetEntry, identity: &Identity) -> (r: CapabilitiesTable)
    ensures
        r@ == row_of(*entry, *identity),
{
    CapabilitiesTable {
        pid: entry.pid,
        ppid: entry.ppid,
        uid: match &identity.username {
            Some(name) => name.clone(),
            None => decimal_text(entry.uid as i64),
        },
        gid: match &identity.groupname {
            Some(name) => name.clone(),
            None => decimal_text(entry.gid as i64),
        },
        ns: entry.ns,
        parent_ns: entry.parent_ns,
        name: identity.name.clone(),
        capabilities: capset_to_string(&entry.capabilities),
    }
}

/// Adds to the table one row for each entry, with the identity that stands
/// at the entry's place; entries beyond the identities get no row.
pub fn process_data_map(
    entries: &Vec<CapSetEntry>,
    identities: &Vec<Identity>,
    capabilities_table: &mut Vec<CapabilitiesTable>,
)
    ensures
        rows_view(final(capabilities_table)@) == rows_view(old(capabilities_table)@) + rows_of(
            entries@,
            identities@,
            if entries@.len() <= identities@.len() {
                entries@.len() as int
            } else {
                identities@.len() as int
            },
        ),
{
    let ghost before = rows_view(capabilities_table@);
    let mut i: usize = 0;
    proof {
        assert(before + rows_of(entries@, identities@, 0) =~= before);
    }
    while i < entries.len() && i < identities.len()
        invariant
            i <= entries.len(),
            i <= identities.len(),
            rows_view(capabilities_table@) == before + rows_of(entries@, identities@, i as int),
        decreases entries.len() - i,
    {
        let row = capabilities_row(&entries[i], &identities[i]);
        proof {
            assert(rows_view(capabilities_table@.push(row)) =~= rows_view(
                capabilities_table@,
            ).push(row@));
            assert(before + rows_of(entries@, identities@, i as int).push(row@) =~= (before
                + rows_of(entries@, identities@, i as int)).push(row@));
        }
        capabilities_table.push(row);
        i = i + 1;
    }
}

} // verus!
