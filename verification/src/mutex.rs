//! The simple mutex: one boolean word and an advisory waiter counter.

use vstd::prelude::*;
use crate::access::{same_kind, wrapping_pred, wrapping_succ, MemoryOrder, Reply, Width};

verus! {

/// One atomic access to the words of a mutex.
#[derive(Clone, Copy, Debug, PartialEq, Eq)]
pub enum MutexAccess {
    /// Compare-and-swap on `locked`: store `new` if the word holds `current`.
    SwapLocked { current: bool, new: bool, order: MemoryOrder },
    /// Add one to `waiters`, relaxed.
    AddWaiter,
    /// Take one from `waiters`, relaxed.
    RemoveWaiter,
    /// Load `waiters`, relaxed.
    LoadWaiters,
    /// Sleep on `locked` for as long as it holds `expected`.
    Wait { expected: bool },
    /// Wake threads that sleep on `locked`.
    Wake { width: Width },
}

/// The words of a mutex, as one atomic access finds and leaves them.
#[derive(Clone, Copy, Debug, PartialEq, Eq)]
pub struct Mutex {
    /// True iff a thread holds the lock.
    pub locked: bool,
    /// The number of threads that announced that they are about to sleep.
    pub waiters: usize,
}

/// Where a thread stands in `lock`.
#[derive(Clone, Copy, Debug, PartialEq, Eq)]
pub enum Lock {
    /// About to try `locked` false -> true.
    Swap,
    /// The swap failed; about to announce itself as a waiter.
    Enqueue,
    /// Announced; about to sleep while `locked` is still true.
    Park,
    /// Woken; about to withdraw the announcement and try again.
    Dequeue,
    /// The thread holds the lock.
    Held,
}

/// Where a thread stands in `unlock`.
#[derive(Clone, Copy, Debug, PartialEq, Eq)]
pub enum Unlock {
    /// About to try `locked` true -> false.
    Swap,
    /// The lock is free again; about to see whether anyone sleeps.
    CheckWaiters,
    /// Someone may sleep; about to wake one thread.
    Wake,
    /// Done: the lock was released.
    Released,
    /// Fatal: the mutex was not locked.
    NotLocked,
}

/// Where a thread stands in `try_lock`.
#[derive(Clone, Copy, Debug, PartialEq, Eq)]
pub enum TryLock {
    /// About to try `locked` false -> true, once.
    Swap,
    /// Done: the thread holds the lock.
    Acquired,
    /// Done: the lock was held already; nothing was changed.
    Busy,
}

impl Mutex {
    /// What `access` hands back when it finds the words as `self`.
    pub open spec fn reply_to(self, access: MutexAccess) -> Reply {
        match access {
            MutexAccess::SwapLocked { .. } => Reply::Flag(self.locked),
            MutexAccess::AddWaiter => Reply::Count(self.waiters),
            MutexAccess::RemoveWaiter => Reply::Count(self.waiters),
            MutexAccess::LoadWaiters => Reply::Count(self.waiters),
            MutexAccess::Wait { .. } => Reply::Nothing,
            MutexAccess::Wake { .. } => Reply::Nothing,
        }
    }

    /// The words as `access` leaves them when it finds them as `self`.
    pub open spec fn after_access(self, access: MutexAccess) -> Mutex {
        match access {
            MutexAccess::SwapLocked { current, new, .. } => Mutex {
                locked: if self.locked == current { new } else { self.locked },
                waiters: self.waiters,
            },
            MutexAccess::AddWaiter => Mutex {
                locked: self.locked,
                waiters: wrapping_succ(self.waiters),
            },
            MutexAccess::RemoveWaiter => Mutex {
                locked: self.locked,
                waiters: wrapping_pred(self.waiters),
            },
            MutexAccess::LoadWaiters => self,
            MutexAccess::Wait { .. } => self,
            MutexAccess::Wake { .. } => self,
        }
    }

    /// An unlocked mutex on which nobody waits.
    pub fn new() -> (m: Mutex)
        ensures
            m == (Mutex { locked: false, waiters: 0 }),
    {
        Mutex { locked: false, waiters: 0 }
    }

    /// The lock word.
    pub fn locked_raw(&self) -> (word: bool)
        ensures
            word == self.locked,
    {
        self.locked
    }

    /// Prepares the mutex for use; its words need no preparation.
    pub fn init(&mut self)
        ensures
            *final(self) == *old(self),
    {
    }

    /// Retires the mutex; its words need no teardown.
    pub fn destroy(&mut self)
        ensures
            *final(self) == *old(self),
    {
    }

    /// The whole of `try_lock`, which is a single access: takes the lock iff
    /// it is free, and never waits.
    pub fn try_lock(&mut self) -> (acquired: bool)
        ensures
            acquired == !old(self).locked,
            final(self).locked,
            final(self).waiters == old(self).waiters,
            (TryLock::Swap).step(*old(self)) == (
                if acquired { TryLock::Acquired } else { TryLock::Busy },
                *final(self),
            ),
    {
        let stage = TryLock::start();
        match stage.access() {
            Some(access) => {
                let reply = self.perform(access);
                match stage.after(reply) {
                    TryLock::Acquired => true,
                    _ => false,
                }
            },
            None => false,
        }
    }

    /// One access of a thread that stands at `stage` of `lock`.
    pub fn lock(&mut self, stage: Lock) -> (next: Lock)
        ensures
            (next, *final(self)) == stage.step(*old(self)),
    {
        match stage.access() {
            Some(access) => {
                let reply = self.perform(access);
                stage.after(reply)
            },
            None => stage,
        }
    }

    /// One access of a thread that stands at `stage` of `unlock`.
    pub fn unlock(&mut self, stage: Unlock) -> (next: Unlock)
        ensures
            (next, *final(self)) == stage.step(*old(self)),
    {
        match stage.access() {
            Some(access) => {
                let reply = self.perform(access);
                stage.after(reply)
            },
            None => stage,
        }
    }

    /// Performs one access on the words.
    pub fn perform(&mut self, access: MutexAccess) -> (reply: Reply)
        ensures
            reply == old(self).reply_to(access),
            *final(self) == old(self).after_access(access),
    {
        match access {
            MutexAccess::SwapLocked { current, new, order: _ } => {
                let prev = self.locked;
                if prev == current {
                    self.locked = new;
                }
                Reply::Flag(prev)
            },
            MutexAccess::AddWaiter => {
                let prev = self.waiters;
                self.waiters = prev.wrapping_add(1);
                Reply::Count(prev)
            },
            MutexAccess::RemoveWaiter => {
                let prev = self.waiters;
                self.waiters = prev.wrapping_sub(1);
                Reply::Count(prev)
            },
            MutexAccess::LoadWaiters => Reply::Count(self.waiters),
            MutexAccess::Wait { expected: _ } => Reply::Nothing,
            MutexAccess::Wake { width: _ } => Reply::Nothing,
        }
    }
}

impl TryLock {
    /// The access that the thread issues next; none once it is done.
    pub open spec fn request(self) -> Option<MutexAccess> {
        match self {
            TryLock::Swap => Some(
                MutexAccess::SwapLocked { current: false, new: true, order: MemoryOrder::Acquire },
            ),
            TryLock::Acquired => None,
            TryLock::Busy => None,
        }
    }

    /// Where the thread stands once its access has handed back `reply`.
    pub open spec fn resume(self, reply: Reply) -> TryLock {
        match (self, reply) {
            (TryLock::Swap, Reply::Flag(prev)) => if prev {
                TryLock::Busy
            } else {
                TryLock::Acquired
            },
            _ => self,
        }
    }

    /// The stage and the words after the thread's next access on `m`.
    pub open spec fn step(self, m: Mutex) -> (TryLock, Mutex) {
        match self.request() {
            Some(access) => (self.resume(m.reply_to(access)), m.after_access(access)),
            None => (self, m),
        }
    }

    /// The stage in which `try_lock` begins.
    pub fn start() -> (stage: TryLock)
        ensures
            stage == TryLock::Swap,
    {
        TryLock::Swap
    }

    /// The access to issue at this stage.
    pub fn access(&self) -> (access: Option<MutexAccess>)
        ensures
            access == self.request(),
    {
        match self {
            TryLock::Swap => Some(
                MutexAccess::SwapLocked { current: false, new: true, order: MemoryOrder::Acquire },
            ),
            TryLock::Acquired => None,
            TryLock::Busy => None,
        }
    }

    /// Takes the reply to the access of this stage and moves on.
    pub fn after(self, reply: Reply) -> (next: TryLock)
        ensures
            next == self.resume(reply),
    {
        match self {
            TryLock::Swap => match reply {
                Reply::Flag(prev) => if prev {
                    TryLock::Busy
                } else {
                    TryLock::Acquired
                },
                _ => self,
            },
            _ => self,
        }
    }
}

impl Lock {
    /// The access that the thread issues next; none once it holds the lock.
    pub open spec fn request(self) -> Option<MutexAccess> {
        match self {
            Lock::Swap => Some(
                MutexAccess::SwapLocked { current: false, new: true, order: MemoryOrder::Acquire },
            ),
            Lock::Enqueue => Some(MutexAccess::AddWaiter),
            Lock::Park => Some(MutexAccess::Wait { expected: true }),
            Lock::Dequeue => Some(MutexAccess::RemoveWaiter),
            Lock::Held => None,
        }
    }

    /// Where the thread stands once its access has handed back `reply`.
    pub open spec fn resume(self, reply: Reply) -> Lock {
        match (self, reply) {
            (Lock::Swap, Reply::Flag(prev)) => if prev {
                Lock::Enqueue
            } else {
                Lock::Held
            },
            (Lock::Enqueue, Reply::Count(_)) => Lock::Park,
            (Lock::Park, Reply::Nothing) => Lock::Dequeue,
            (Lock::Dequeue, Reply::Count(_)) => Lock::Swap,
            _ => self,
        }
    }

    /// The stage and the words after the thread's next access on `m`.
    pub open spec fn step(self, m: Mutex) -> (Lock, Mutex) {
        match self.request() {
            Some(access) => (self.resume(m.reply_to(access)), m.after_access(access)),
            None => (self, m),
        }
    }

    /// The stage in which `lock` begins.
    pub fn start() -> (stage: Lock)
        ensures
            stage == Lock::Swap,
    {
        Lock::Swap
    }

    /// The access to issue at this stage.
    pub fn access(&self) -> (access: Option<MutexAccess>)
        ensures
            access == self.request(),
    {
        match self {
            Lock::Swap => Some(
                MutexAccess::SwapLocked { current: false, new: true, order: MemoryOrder::Acquire },
            ),
            Lock::Enqueue => Some(MutexAccess::AddWaiter),
            Lock::Park => Some(MutexAccess::Wait { expected: true }),
            Lock::Dequeue => Some(MutexAccess::RemoveWaiter),
            Lock::Held => None,
        }
    }

    /// Takes the reply to the access of this stage and moves on.
    pub fn after(self, reply: Reply) -> (next: Lock)
        ensures
            next == self.resume(reply),
    {
        match self {
            Lock::Swap => match reply {
                Reply::Flag(prev) => if prev {
                    Lock::Enqueue
                } else {
                    Lock::Held
                },
                _ => self,
            },
            Lock::Enqueue => match reply {
                Reply::Count(_) => Lock::Park,
                _ => self,
            },
            Lock::Park => match reply {
                Reply::Nothing => Lock::Dequeue,
                _ => self,
            },
            Lock::Dequeue => match reply {
                Reply::Count(_) => Lock::Swap,
                _ => self,
            },
            Lock::Held => self,
        }
    }
}

impl Unlock {
    /// The access that the thread issues next; none once it is done.
    pub open spec fn request(self) -> Option<MutexAccess> {
        match self {
            Unlock::Swap => Some(
                MutexAccess::SwapLocked { current: true, new: false, order: MemoryOrder::Release },
            ),
            Unlock::CheckWaiters => Some(MutexAccess::LoadWaiters),
            Unlock::Wake => Some(MutexAccess::Wake { width: Width::One }),
            Unlock::Released => None,
            Unlock::NotLocked => None,
        }
    }

    /// Where the thread stands once its access has handed back `reply`.
    pub open spec fn resume(self, reply: Reply) -> Unlock {
        match (self, reply) {
            (Unlock::Swap, Reply::Flag(prev)) => if prev {
                Unlock::CheckWaiters
            } else {
                Unlock::NotLocked
            },
            (Unlock::CheckWaiters, Reply::Count(n)) => if n != 0 {
                Unlock::Wake
            } else {
                Unlock::Released
            },
            (Unlock::Wake, Reply::Nothing) => Unlock::Released,
            _ => self,
        }
    }

    /// The stage and the words after the thread's next access on `m`.
    pub open spec fn step(self, m: Mutex) -> (Unlock, Mutex) {
        match self.request() {
            Some(access) => (self.resume(m.reply_to(access)), m.after_access(access)),
            None => (self, m),
        }
    }

    /// Whether this stage is the fatal end: the caller unlocked a mutex
    /// that was not locked.
    pub open spec fn is_fatal(self) -> bool {
        self is NotLocked
    }

    /// The stage in which `unlock` begins.
    pub fn start() -> (stage: Unlock)
        ensures
            stage == Unlock::Swap,
    {
        Unlock::Swap
    }

    /// The access to issue at this stage.
    pub fn access(&self) -> (access: Option<MutexAccess>)
        ensures
            access == self.request(),
    {
        match self {
            Unlock::Swap => Some(
                MutexAccess::SwapLocked { current: true, new: false, order: MemoryOrder::Release },
            ),
            Unlock::CheckWaiters => Some(MutexAccess::LoadWaiters),
            Unlock::Wake => Some(MutexAccess::Wake { width: Width::One }),
            Unlock::Released => None,
            Unlock::NotLocked => None,
        }
    }

    /// Takes the reply to the access of this stage and moves on.
    pub fn after(self, reply: Reply) -> (next: Unlock)
        ensures
            next == self.resume(reply),
    {
        match self {
            Unlock::Swap => match reply {
                Reply::Flag(prev) => if prev {
                    Unlock::CheckWaiters
                } else {
                    Unlock::NotLocked
                },
                _ => self,
            },
            Unlock::CheckWaiters => match reply {
                Reply::Count(n) => if n != 0 {
                    Unlock::Wake
                } else {
                    Unlock::Released
                },
                _ => self,
            },
            Unlock::Wake => match reply {
                Reply::Nothing => Unlock::Released,
                _ => self,
            },
            _ => self,
        }
    }
}

/// The mutex is not reentrant: `try_lock` on a mutex that is held fails,
/// whoever calls it, and leaves the words as they are; on a free mutex it
/// takes the lock.
pub proof fn law_try_lock_fails_iff_held(m: Mutex)
    ensures
        m.locked ==> (TryLock::Swap).step(m) == (TryLock::Busy, m),
        !m.locked ==> (TryLock::Swap).step(m) == (
            TryLock::Acquired,
            Mutex { locked: true, waiters: m.waiters },
        ),
{
}

/// `lock` takes a free mutex with its first access, and on a held mutex
/// announces itself, sleeps for as long as the word stays true, withdraws
/// the announcement and stands at the first access again: it never takes a
/// held mutex, and it changes nothing but the waiter counter.
pub proof fn law_lock_takes_only_a_free_mutex(m: Mutex, stage: Lock)
    ensures
        stage.step(m).0 is Held && !(stage is Held) ==> stage is Swap && !m.locked
            && stage.step(m).1.locked,
        m.locked ==> stage.step(m).1.locked,
        stage is Swap && m.locked ==> stage.step(m) == (Lock::Enqueue, m),
        stage is Park ==> stage.request() == Some(MutexAccess::Wait { expected: true }),
{
}

/// Unlocking a mutex that is not locked is fatal and changes nothing;
/// unlocking a locked one frees it and then wakes one thread iff the waiter
/// counter is not zero.
pub proof fn law_unlock_is_fatal_iff_unlocked(m: Mutex)
    ensures
        (Unlock::Swap).step(m).0.is_fatal() <==> !m.locked,
        !(Unlock::CheckWaiters).step(m).0.is_fatal(),
        !(Unlock::Wake).step(m).0.is_fatal(),
        !m.locked ==> (Unlock::Swap).step(m) == (Unlock::NotLocked, m),
        m.locked ==> (Unlock::Swap).step(m) == (
            Unlock::CheckWaiters,
            Mutex { locked: false, waiters: m.waiters },
        ),
        (Unlock::CheckWaiters).step(m) == (
            if m.waiters != 0 {
                Unlock::Wake
            } else {
                Unlock::Released
            },
            m,
        ),
        (Unlock::Wake).step(m) == (Unlock::Released, m),
        (Unlock::Wake).request() == Some(MutexAccess::Wake { width: Width::One }),
{
}

/// A reply of the kind that its access asks for always moves a stage on, so
/// whoever performs the accesses of an operation one after the other never
/// performs the same step twice without a change.
pub proof fn law_right_reply_moves_on(m: Mutex, reply: Reply)
    ensures
        forall|stage: TryLock|
            (#[trigger] stage.request()) matches Some(a) && same_kind(reply, m.reply_to(a))
                ==> stage.resume(reply) != stage,
        forall|stage: Lock|
            (#[trigger] stage.request()) matches Some(a) && same_kind(reply, m.reply_to(a))
                ==> stage.resume(reply) != stage,
        forall|stage: Unlock|
            (#[trigger] stage.request()) matches Some(a) && same_kind(reply, m.reply_to(a))
                ==> stage.resume(reply) != stage,
{
}

} // verus!
