//! Aggregation of observed capability checks, file accesses and D-Bus calls
//! into the least-privilege policy of a traced command.
//!
//! The kernel probe writes one [`request::Request`] for each capability
//! check. [`aggregate`] merges the requests by process and drops those that
//! the stack filter finds benign; [`nstree`] unions what is left over the
//! tree of PID namespaces below the command. [`strace`] and [`syscalls`]
//! turn the command's trace into the paths it touches, [`bus`] attributes
//! D-Bus method calls to namespaces, and [`policy`] puts the three together.

pub mod aggregate;
pub mod bus;
pub mod capset;
pub mod cli;
pub mod launcher;
pub mod nstree;
pub mod policy;
pub mod request;
pub mod strace;
pub mod symbols;
pub mod syscalls;
pub mod text;
