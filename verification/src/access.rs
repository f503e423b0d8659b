//! Vocabulary shared by the three locks: how one atomic access is ordered,
//! how wide a wake-up is, and what an access hands back to the thread.

use vstd::prelude::*;

verus! {

/// The memory ordering that an atomic access is issued with.
#[derive(Clone, Copy, Debug, PartialEq, Eq)]
pub enum MemoryOrder {
    /// No ordering beyond atomicity; used for the advisory waiter counter.
    Relaxed,
    /// Later accesses of the thread stay after this one; used to acquire.
    Acquire,
    /// Earlier accesses of the thread stay before this one; used to release.
    Release,
}

/// How many sleeping threads a wake-up reaches.
#[derive(Clone, Copy, Debug, PartialEq, Eq)]
pub enum Width {
    /// At most one sleeper: only one thread can win the next acquisition.
    One,
    /// Every sleeper: several of them may be able to proceed together.
    All,
}

/// What one access hands back to the thread that issued it.
#[derive(Clone, Copy, Debug, PartialEq, Eq)]
pub enum Reply {
    /// The value that a boolean word held when it was accessed.
    Flag(bool),
    /// The value that an unsigned word held when it was accessed.
    Count(usize),
    /// The thread that an owner word named when it was accessed, if any.
    Owner(Option<usize>),
    /// The access has no result: a store, a wait or a wake-up.
    Nothing,
}

/// `n + 1` as a word-sized atomic addition computes it.
pub open spec fn wrapping_succ(n: usize) -> usize {
    if n == usize::MAX {
        0
    } else {
        (n + 1) as usize
    }
}

/// `n - 1` as a word-sized atomic subtraction computes it.
pub open spec fn wrapping_pred(n: usize) -> usize {
    if n == 0 {
        usize::MAX
    } else {
        (n - 1) as usize
    }
}

/// Whether two replies are of the same kind, whatever they hold.
pub open spec fn same_kind(a: Reply, b: Reply) -> bool {
    match (a, b) {
        (Reply::Flag(_), Reply::Flag(_)) => true,
        (Reply::Count(_), Reply::Count(_)) => true,
        (Reply::Owner(_), Reply::Owner(_)) => true,
        (Reply::Nothing, Reply::Nothing) => true,
        _ => false,
    }
}

/// One step of a schedule of threads: the thread that takes it, and the
/// sleeper that the kernel wakes if the step is a wake-up of one.
pub struct Turn {
    /// The index of the thread.
    pub who: int,
    /// The index of the sleeper that the kernel would wake.
    pub wakes: int,
}

} // verus!
