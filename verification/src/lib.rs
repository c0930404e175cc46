//! Choosing processes to signal, the way the `slay` command does: targets are
//! process names, process ids or ports (`:8080`); the processes they name are
//! found from what `/proc` holds, shown in a table, and signalled after the
//! user agrees.
//!
//! Every function here computes on plain values; reading `/proc`, asking the
//! user and sending signals is left to the caller.

pub mod text;
pub mod num;
pub mod paint;
pub mod signal;
pub mod target;
pub mod args;
pub mod procs;
pub mod net;
pub mod matching;
pub mod listing;
pub mod render;
pub mod flow;
