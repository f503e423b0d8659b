//! Blocking locks on atomic words and the futex, as verified step machines.
//!
//! A lock operation is a short program whose every instruction is one atomic
//! access to the words of the lock, or a request to the kernel to sleep or to
//! wake. This crate holds those programs in a form in which they can be
//! proved: a stage says which access comes next (`access`), and the reply to
//! that access says which stage follows (`after`). Whoever drives a stage
//! through its accesses until there is none left has performed the
//! operation; a thread of a real program does so on atomic cells and calls
//! the kernel where it is told to.
//!
//! The lock modules (`mutex`, `reentrant`, `rwlock`) define the words, the
//! accesses, the stages and what an access does to the words. The workload
//! modules (`contention`, `nesting`, `sharing`) put any number of threads
//! around one lock, let them take their accesses in any order, let the
//! kernel put them to sleep and wake them as it may, and prove what holds
//! whatever the order: mutual exclusion, reentrancy, the exclusion of
//! writers and readers, that no increment of the guarded counter is lost,
//! and that no wake-up is. `cells` performs the accesses on atomic words.
//!
//! The remaining modules are the pure parts of the runtime around the
//! locks: paths, search paths and environment entries, signal sets, and the
//! planning of a sleep.

pub mod access;
pub mod cells;
pub mod contention;
pub mod cstr;
pub mod mutex;
pub mod nesting;
pub mod os;
pub mod path;
pub mod reentrant;
pub mod rwlock;
pub mod separator;
pub mod sharing;
pub mod signal;
pub mod sleep;
pub mod split;
pub mod tally;
pub mod util;
