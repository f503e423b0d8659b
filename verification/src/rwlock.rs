//! The reader-writer lock: one word that counts the users of the lock, and
//! an advisory waiter counter.
//!
//! `users` is 0 while the lock is free, `WRITER` while one writer holds it,
//! and the number of readers otherwise. There is no way to count one reader
//! more than `WRITER - 1`: a reader that finds that many fails fatally.

use vstd::prelude::*;
use crate::access::{same_kind, wrapping_pred, wrapping_succ, MemoryOrder, Reply, Width};

verus! {

/// The value of `users` that says that a writer holds the lock.
pub const WRITER: usize = usize::MAX;

/// One atomic access to the words of a reader-writer lock.
#[derive(Clone, Copy, Debug, PartialEq, Eq)]
pub enum RwAccess {
    /// Load `users`.
    LoadUsers { order: MemoryOrder },
    /// Compare-and-swap on `users`: store `new` if the word holds `current`.
    SwapUsers { current: usize, new: usize, order: MemoryOrder },
    /// Add one to `waiters`, relaxed.
    AddWaiter,
    /// Take one from `waiters`, relaxed.
    RemoveWaiter,
    /// Load `waiters`, relaxed.
    LoadWaiters,
    /// Sleep on `users` for as long as it holds `expected`.
    Wait { expected: usize },
    /// Wake threads that sleep on `users`.
    Wake { width: Width },
}

/// The words of a reader-writer lock, as one atomic access finds and leaves
/// them.
#[derive(Clone, Copy, Debug, PartialEq, Eq)]
pub struct RWLock {
    /// 0: free; `WRITER`: held by one writer; else the number of readers.
    pub users: usize,
    /// The number of threads that announced that they are about to sleep.
    pub waiters: usize,
}

/// Where a thread stands in `read` or in `try_read`. The two differ in one
/// place: where a writer holds the lock, `read` waits and `try_read` gives up.
#[derive(Clone, Copy, Debug, PartialEq, Eq)]
pub enum Read {
    /// About to load `users`.
    Load,
    /// Found `seen` readers; about to try `users` seen -> seen + 1.
    Swap { seen: usize },
    /// Found a writer; about to announce itself as a waiter.
    Enqueue { seen: usize },
    /// Announced; about to sleep while `users` still holds `seen`.
    Park { seen: usize },
    /// Woken; about to withdraw the announcement and load again.
    Dequeue,
    /// Done: the thread holds the lock as a reader.
    Reading,
    /// Done (`try_read` only): a writer holds the lock.
    Busy,
    /// Fatal: the readers cannot be counted any higher.
    Exhausted,
}

/// Where a thread stands in `write` or in `try_write`. The two differ in one
/// place: where the lock is not free, `write` waits and `try_write` gives up.
#[derive(Clone, Copy, Debug, PartialEq, Eq)]
pub enum Write {
    /// About to try `users` 0 -> `WRITER`.
    Swap,
    /// Found the lock in use; about to announce itself as a waiter.
    Enqueue { seen: usize },
    /// Announced; about to sleep while `users` still holds `seen`.
    Park { seen: usize },
    /// Woken; about to withdraw the announcement and try again.
    Dequeue,
    /// Done: the thread holds the lock as the writer.
    Writing,
    /// Done (`try_write` only): the lock is in use.
    Busy,
}

/// Where a thread stands in `read_unlock`.
#[derive(Clone, Copy, Debug, PartialEq, Eq)]
pub enum ReadUnlock {
    /// About to load `users`.
    Load,
    /// Found `seen` readers; about to try `users` seen -> seen - 1.
    Swap { seen: usize },
    /// The last reader left; about to see whether anyone sleeps.
    CheckWaiters,
    /// Someone may sleep; about to wake one thread, which must be a writer.
    Wake,
    /// Done: the reader has left.
    Released,
    /// Fatal: a writer holds the lock.
    HeldByWriter,
    /// Fatal: no reader holds the lock.
    NotHeld,
}

/// Where a thread stands in `write_unlock`.
#[derive(Clone, Copy, Debug, PartialEq, Eq)]
pub enum WriteUnlock {
    /// About to try `users` `WRITER` -> 0.
    Swap,
    /// The lock is free again; about to see whether anyone sleeps.
    CheckWaiters,
    /// Someone may sleep; about to wake every thread, readers and writers.
    Wake,
    /// Done: the writer has left.
    Released,
    /// Fatal: no writer holds the lock.
    NotWriter,
}

impl RWLock {
    /// What `access` hands back when it finds the words as `self`.
    pub open spec fn reply_to(self, access: RwAccess) -> Reply {
        match access {
            RwAccess::LoadUsers { .. } => Reply::Count(self.users),
            RwAccess::SwapUsers { .. } => Reply::Count(self.users),
            RwAccess::AddWaiter => Reply::Count(self.waiters),
            RwAccess::RemoveWaiter => Reply::Count(self.waiters),
            RwAccess::LoadWaiters => Reply::Count(self.waiters),
            RwAccess::Wait { .. } => Reply::Nothing,
            RwAccess::Wake { .. } => Reply::Nothing,
        }
    }

    /// The words as `access` leaves them when it finds them as `self`.
    pub open spec fn after_access(self, access: RwAccess) -> RWLock {
        match access {
            RwAccess::SwapUsers { current, new, .. } => RWLock {
                users: if self.users == current { new } else { self.users },
                waiters: self.waiters,
            },
            RwAccess::AddWaiter => RWLock {
                users: self.users,
                waiters: wrapping_succ(self.waiters),
            },
            RwAccess::RemoveWaiter => RWLock {
                users: self.users,
                waiters: wrapping_pred(self.waiters),
            },
            _ => self,
        }
    }

    /// Whether a writer holds the lock.
    pub open spec fn write_held(self) -> bool {
        self.users == WRITER
    }

    /// Whether at least one reader holds the lock.
    pub open spec fn read_held(self) -> bool {
        0 < self.users < WRITER
    }

    /// A free lock on which nobody waits.
    pub fn new() -> (l: RWLock)
        ensures
            l == (RWLock { users: 0, waiters: 0 }),
    {
        RWLock { users: 0, waiters: 0 }
    }

    /// The users word.
    pub fn users_raw(&self) -> (word: usize)
        ensures
            word == self.users,
    {
        self.users
    }

    /// Retires the lock; its words need no teardown.
    pub fn destroy(&mut self)
        ensures
            *final(self) == *old(self),
    {
    }

    /// Performs one access on the words.
    pub fn perform(&mut self, access: RwAccess) -> (reply: Reply)
        ensures
            reply == old(self).reply_to(access),
            *final(self) == old(self).after_access(access),
    {
        match access {
            RwAccess::LoadUsers { order: _ } => Reply::Count(self.users),
            RwAccess::SwapUsers { current, new, order: _ } => {
                let prev = self.users;
                if prev == current {
                    self.users = new;
                }
                Reply::Count(prev)
            },
            RwAccess::AddWaiter => {
                let prev = self.waiters;
                self.waiters = prev.wrapping_add(1);
                Reply::Count(prev)
            },
            RwAccess::RemoveWaiter => {
                let prev = self.waiters;
                self.waiters = prev.wrapping_sub(1);
                Reply::Count(prev)
            },
            RwAccess::LoadWaiters => Reply::Count(self.waiters),
            RwAccess::Wait { expected: _ } => Reply::Nothing,
            RwAccess::Wake { width: _ } => Reply::Nothing,
        }
    }

    /// One access of a thread that stands at `stage` of `read`.
    pub fn read(&mut self, stage: Read) -> (next: Read)
        ensures
            (next, *final(self)) == stage.step(true, *old(self)),
    {
        match stage.access() {
            Some(access) => {
                let reply = self.perform(access);
                stage.after(true, reply)
            },
            None => stage,
        }
    }

    /// One access of a thread that stands at `stage` of `try_read`.
    pub fn try_read(&mut self, stage: Read) -> (next: Read)
        ensures
            (next, *final(self)) == stage.step(false, *old(self)),
    {
        match stage.access() {
            Some(access) => {
                let reply = self.perform(access);
                stage.after(false, reply)
            },
            None => stage,
        }
    }

    /// One access of a thread that stands at `stage` of `write`.
    pub fn write(&mut self, stage: Write) -> (next: Write)
        ensures
            (next, *final(self)) == stage.step(true, *old(self)),
    {
        match stage.access() {
            Some(access) => {
                let reply = self.perform(access);
                stage.after(true, reply)
            },
            None => stage,
        }
    }

    /// The whole of `try_write`, which is a single access: takes the lock as
    /// the writer iff it is free, and never waits.
    pub fn try_write(&mut self) -> (acquired: bool)
        ensures
            acquired == (old(self).users == 0),
            final(self).users == if acquired { WRITER } else { old(self).users },
            final(self).waiters == old(self).waiters,
            (Write::Swap).step(false, *old(self)) == (
                if acquired { Write::Writing } else { Write::Busy },
                *final(self),
            ),
    {
        let stage = Write::start();
        match stage.access() {
            Some(access) => {
                let reply = self.perform(access);
                match stage.after(false, reply) {
                    Write::Writing => true,
                    _ => false,
                }
            },
            None => false,
        }
    }

    /// One access of a thread that stands at `stage` of `read_unlock`.
    pub fn read_unlock(&mut self, stage: ReadUnlock) -> (next: ReadUnlock)
        ensures
            (next, *final(self)) == stage.step(*old(self)),
    {
        match stage.access() {
            Some(access) => {
                let reply = self.perform(access);
                stage.after(reply)
            },
            None => stage,
        }
    }

    /// One access of a thread that stands at `stage` of `write_unlock`.
    pub fn write_unlock(&mut self, stage: WriteUnlock) -> (next: WriteUnlock)
        ensures
            (next, *final(self)) == stage.step(*old(self)),
    {
        match stage.access() {
            Some(access) => {
                let reply = self.perform(access);
                stage.after(reply)
            },
            None => stage,
        }
    }
}

impl Read {
    /// What a thread does once it knows that `users` held `seen`.
    pub open spec fn decide(seen: usize, patient: bool) -> Read {
        if seen == WRITER {
            if patient {
                Read::Enqueue { seen }
            } else {
                Read::Busy
            }
        } else if seen == WRITER - 1 {
            Read::Exhausted
        } else {
            Read::Swap { seen }
        }
    }

    /// The access that the thread issues next; none once it is done.
    pub open spec fn request(self) -> Option<RwAccess> {
        match self {
            Read::Load => Some(RwAccess::LoadUsers { order: MemoryOrder::Acquire }),
            Read::Swap { seen } => Some(
                RwAccess::SwapUsers {
                    current: seen,
                    new: wrapping_succ(seen),
                    order: MemoryOrder::Acquire,
                },
            ),
            Read::Enqueue { .. } => Some(RwAccess::AddWaiter),
            Read::Park { seen } => Some(RwAccess::Wait { expected: seen }),
            Read::Dequeue => Some(RwAccess::RemoveWaiter),
            Read::Reading => None,
            Read::Busy => None,
            Read::Exhausted => None,
        }
    }

    /// Where the thread stands once its access has handed back `reply`;
    /// `patient` tells `read` from `try_read`.
    pub open spec fn resume(self, patient: bool, reply: Reply) -> Read {
        match (self, reply) {
            (Read::Load, Reply::Count(users)) => Self::decide(users, patient),
            (Read::Swap { seen }, Reply::Count(prev)) => if prev == seen {
                Read::Reading
            } else {
                Self::decide(prev, patient)
            },
            (Read::Enqueue { seen }, Reply::Count(_)) => Read::Park { seen },
            (Read::Park { .. }, Reply::Nothing) => Read::Dequeue,
            (Read::Dequeue, Reply::Count(_)) => Read::Load,
            _ => self,
        }
    }

    /// The stage and the words after the thread's next access on `l`.
    pub open spec fn step(self, patient: bool, l: RWLock) -> (Read, RWLock) {
        match self.request() {
            Some(access) => (self.resume(patient, l.reply_to(access)), l.after_access(access)),
            None => (self, l),
        }
    }

    /// Whether this stage is the fatal end.
    pub open spec fn is_fatal(self) -> bool {
        self is Exhausted
    }

    /// The stage in which `read` and `try_read` begin.
    pub fn start() -> (stage: Read)
        ensures
            stage == Read::Load,
    {
        Read::Load
    }

    /// What a thread does once it knows that `users` held `seen`: wait for
    /// (or give way to) a writer, fail where the count is exhausted, or try
    /// to count itself in.
    pub fn decided(seen: usize, patient: bool) -> (stage: Read)
        ensures
            stage == Self::decide(seen, patient),
    {
        if seen == WRITER {
            if patient {
                Read::Enqueue { seen }
            } else {
                Read::Busy
            }
        } else if seen == WRITER - 1 {
            Read::Exhausted
        } else {
            Read::Swap { seen }
        }
    }

    /// The access to issue at this stage.
    pub fn access(&self) -> (access: Option<RwAccess>)
        ensures
            access == self.request(),
    {
        match self {
            Read::Load => Some(RwAccess::LoadUsers { order: MemoryOrder::Acquire }),
            Read::Swap { seen } => Some(
                RwAccess::SwapUsers {
                    current: *seen,
                    new: seen.wrapping_add(1),
                    order: MemoryOrder::Acquire,
                },
            ),
            Read::Enqueue { seen: _ } => Some(RwAccess::AddWaiter),
            Read::Park { seen } => Some(RwAccess::Wait { expected: *seen }),
            Read::Dequeue => Some(RwAccess::RemoveWaiter),
            Read::Reading => None,
            Read::Busy => None,
            Read::Exhausted => None,
        }
    }

    /// Takes the reply to the access of this stage and moves on; `patient`
    /// tells `read` from `try_read`.
    pub fn after(self, patient: bool, reply: Reply) -> (next: Read)
        ensures
            next == self.resume(patient, reply),
    {
        match self {
            Read::Load => match reply {
                Reply::Count(users) => Self::decided(users, patient),
                _ => self,
            },
            Read::Swap { seen } => match reply {
                Reply::Count(prev) => if prev == seen {
                    Read::Reading
                } else {
                    Self::decided(prev, patient)
                },
                _ => self,
            },
            Read::Enqueue { seen } => match reply {
                Reply::Count(_) => Read::Park { seen },
                _ => self,
            },
            Read::Park { seen: _ } => match reply {
                Reply::Nothing => Read::Dequeue,
                _ => self,
            },
            Read::Dequeue => match reply {
                Reply::Count(_) => Read::Load,
                _ => self,
            },
            _ => self,
        }
    }
}

impl Write {
    /// The access that the thread issues next; none once it is done.
    pub open spec fn request(self) -> Option<RwAccess> {
        match self {
            Write::Swap => Some(
                RwAccess::SwapUsers { current: 0, new: WRITER, order: MemoryOrder::Acquire },
            ),
            Write::Enqueue { .. } => Some(RwAccess::AddWaiter),
            Write::Park { seen } => Some(RwAccess::Wait { expected: seen }),
            Write::Dequeue => Some(RwAccess::RemoveWaiter),
            Write::Writing => None,
            Write::Busy => None,
        }
    }

    /// Where the thread stands once its access has handed back `reply`;
    /// `patient` tells `write` from `try_write`.
    pub open spec fn resume(self, patient: bool, reply: Reply) -> Write {
        match (self, reply) {
            (Write::Swap, Reply::Count(prev)) => if prev == 0 {
                Write::Writing
            } else if patient {
                Write::Enqueue { seen: prev }
            } else {
                Write::Busy
            },
            (Write::Enqueue { seen }, Reply::Count(_)) => Write::Park { seen },
            (Write::Park { .. }, Reply::Nothing) => Write::Dequeue,
            (Write::Dequeue, Reply::Count(_)) => Write::Swap,
            _ => self,
        }
    }

    /// The stage and the words after the thread's next access on `l`.
    pub open spec fn step(self, patient: bool, l: RWLock) -> (Write, RWLock) {
        match self.request() {
            Some(access) => (self.resume(patient, l.reply_to(access)), l.after_access(access)),
            None => (self, l),
        }
    }

    /// The stage in which `write` and `try_write` begin.
    pub fn start() -> (stage: Write)
        ensures
            stage == Write::Swap,
    {
        Write::Swap
    }

    /// The access to issue at this stage.
    pub fn access(&self) -> (access: Option<RwAccess>)
        ensures
            access == self.request(),
    {
        match self {
            Write::Swap => Some(
                RwAccess::SwapUsers { current: 0, new: WRITER, order: MemoryOrder::Acquire },
            ),
            Write::Enqueue { seen: _ } => Some(RwAccess::AddWaiter),
            Write::Park { seen } => Some(RwAccess::Wait { expected: *seen }),
            Write::Dequeue => Some(RwAccess::RemoveWaiter),
            Write::Writing => None,
            Write::Busy => None,
        }
    }

    /// Takes the reply to the access of this stage and moves on; `patient`
    /// tells `write` from `try_write`.
    pub fn after(self, patient: bool, reply: Reply) -> (next: Write)
        ensures
            next == self.resume(patient, reply),
    {
        match self {
            Write::Swap => match reply {
                Reply::Count(prev) => if prev == 0 {
                    Write::Writing
                } else if patient {
                    Write::Enqueue { seen: prev }
                } else {
                    Write::Busy
                },
                _ => self,
            },
            Write::Enqueue { seen } => match reply {
                Reply::Count(_) => Write::Park { seen },
                _ => self,
            },
            Write::Park { seen: _ } => match reply {
                Reply::Nothing => Write::Dequeue,
                _ => self,
            },
            Write::Dequeue => match reply {
                Reply::Count(_) => Write::Swap,
                _ => self,
            },
            _ => self,
        }
    }
}

impl ReadUnlock {
    /// What a thread does once it knows that `users` held `seen`.
    pub open spec fn decide(seen: usize) -> ReadUnlock {
        if seen == WRITER {
            ReadUnlock::HeldByWriter
        } else if seen == 0 {
            ReadUnlock::NotHeld
        } else {
            ReadUnlock::Swap { seen }
        }
    }

    /// The access that the thread issues next; none once it is done.
    pub open spec fn request(self) -> Option<RwAccess> {
        match self {
            ReadUnlock::Load => Some(RwAccess::LoadUsers { order: MemoryOrder::Relaxed }),
            ReadUnlock::Swap { seen } => Some(
                RwAccess::SwapUsers {
                    current: seen,
                    new: wrapping_pred(seen),
                    order: MemoryOrder::Release,
                },
            ),
            ReadUnlock::CheckWaiters => Some(RwAccess::LoadWaiters),
            ReadUnlock::Wake => Some(RwAccess::Wake { width: Width::One }),
            ReadUnlock::Released => None,
            ReadUnlock::HeldByWriter => None,
            ReadUnlock::NotHeld => None,
        }
    }

    /// Where the thread stands once its access has handed back `reply`.
    pub open spec fn resume(self, reply: Reply) -> ReadUnlock {
        match (self, reply) {
            (ReadUnlock::Load, Reply::Count(users)) => Self::decide(users),
            (ReadUnlock::Swap { seen }, Reply::Count(prev)) => if prev == seen {
                if seen == 1 {
                    ReadUnlock::CheckWaiters
                } else {
                    ReadUnlock::Released
                }
            } else {
                Self::decide(prev)
            },
            (ReadUnlock::CheckWaiters, Reply::Count(n)) => if n != 0 {
                ReadUnlock::Wake
            } else {
                ReadUnlock::Released
            },
            (ReadUnlock::Wake, Reply::Nothing) => ReadUnlock::Released,
            _ => self,
        }
    }

    /// The stage and the words after the thread's next access on `l`.
    pub open spec fn step(self, l: RWLock) -> (ReadUnlock, RWLock) {
        match self.request() {
            Some(access) => (self.resume(l.reply_to(access)), l.after_access(access)),
            None => (self, l),
        }
    }

    /// Whether this stage is a fatal end: the caller gave back a read lock
    /// that nobody holds.
    pub open spec fn is_fatal(self) -> bool {
        self is HeldByWriter || self is NotHeld
    }

    /// The stage in which `read_unlock` begins.
    pub fn start() -> (stage: ReadUnlock)
        ensures
            stage == ReadUnlock::Load,
    {
        ReadUnlock::Load
    }

    /// What a thread does once it knows that `users` held `seen`: fail where
    /// no reader holds the lock, or try to count itself out.
    pub fn decided(seen: usize) -> (stage: ReadUnlock)
        ensures
            stage == Self::decide(seen),
    {
        if seen == WRITER {
            ReadUnlock::HeldByWriter
        } else if seen == 0 {
            ReadUnlock::NotHeld
        } else {
            ReadUnlock::Swap { seen }
        }
    }

    /// The access to issue at this stage.
    pub fn access(&self) -> (access: Option<RwAccess>)
        ensures
            access == self.request(),
    {
        match self {
            ReadUnlock::Load => Some(RwAccess::LoadUsers { order: MemoryOrder::Relaxed }),
            ReadUnlock::Swap { seen } => Some(
                RwAccess::SwapUsers {
                    current: *seen,
                    new: seen.wrapping_sub(1),
                    order: MemoryOrder::Release,
                },
            ),
            ReadUnlock::CheckWaiters => Some(RwAccess::LoadWaiters),
            ReadUnlock::Wake => Some(RwAccess::Wake { width: Width::One }),
            ReadUnlock::Released => None,
            ReadUnlock::HeldByWriter => None,
            ReadUnlock::NotHeld => None,
        }
    }

    /// Takes the reply to the access of this stage and moves on.
    pub fn after(self, reply: Reply) -> (next: ReadUnlock)
        ensures
            next == self.resume(reply),
    {
        match self {
            ReadUnlock::Load => match reply {
                Reply::Count(users) => Self::decided(users),
                _ => self,
            },
            ReadUnlock::Swap { seen } => match reply {
                Reply::Count(prev) => if prev == seen {
                    if seen == 1 {
                        ReadUnlock::CheckWaiters
                    } else {
                        ReadUnlock::Released
                    }
                } else {
                    Self::decided(prev)
                },
                _ => self,
            },
            ReadUnlock::CheckWaiters => match reply {
                Reply::Count(n) => if n != 0 {
                    ReadUnlock::Wake
                } else {
                    ReadUnlock::Released
                },
                _ => self,
            },
            ReadUnlock::Wake => match reply {
                Reply::Nothing => ReadUnlock::Released,
                _ => self,
            },
            _ => self,
        }
    }
}

impl WriteUnlock {
    /// The access that the thread issues next; none once it is done.
    pub open spec fn request(self) -> Option<RwAccess> {
        match self {
            WriteUnlock::Swap => Some(
                RwAccess::SwapUsers { current: WRITER, new: 0, order: MemoryOrder::Release },
            ),
            WriteUnlock::CheckWaiters => Some(RwAccess::LoadWaiters),
            WriteUnlock::Wake => Some(RwAccess::Wake { width: Width::All }),
            WriteUnlock::Released => None,
            WriteUnlock::NotWriter => None,
        }
    }

    /// Where the thread stands once its access has handed back `reply`.
    pub open spec fn resume(self, reply: Reply) -> WriteUnlock {
        match (self, reply) {
            (WriteUnlock::Swap, Reply::Count(prev)) => if prev == WRITER {
                WriteUnlock::CheckWaiters
            } else {
                WriteUnlock::NotWriter
            },
            (WriteUnlock::CheckWaiters, Reply::Count(n)) => if n != 0 {
                WriteUnlock::Wake
            } else {
                WriteUnlock::Released
            },
            (WriteUnlock::Wake, Reply::Nothing) => WriteUnlock::Released,
            _ => self,
        }
    }

    /// The stage and the words after the thread's next access on `l`.
    pub open spec fn step(self, l: RWLock) -> (WriteUnlock, RWLock) {
        match self.request() {
            Some(access) => (self.resume(l.reply_to(access)), l.after_access(access)),
            None => (self, l),
        }
    }

    /// Whether this stage is the fatal end: the caller gave back a write
    /// lock that nobody holds.
    pub open spec fn is_fatal(self) -> bool {
        self is NotWriter
    }

    /// The stage in which `write_unlock` begins.
    pub fn start() -> (stage: WriteUnlock)
        ensures
            stage == WriteUnlock::Swap,
    {
        WriteUnlock::Swap
    }

    /// The access to issue at this stage.
    pub fn access(&self) -> (access: Option<RwAccess>)
        ensures
            access == self.request(),
    {
        match self {
            WriteUnlock::Swap => Some(
                RwAccess::SwapUsers { current: WRITER, new: 0, order: MemoryOrder::Release },
            ),
            WriteUnlock::CheckWaiters => Some(RwAccess::LoadWaiters),
            WriteUnlock::Wake => Some(RwAccess::Wake { width: Width::All }),
            WriteUnlock::Released => None,
            WriteUnlock::NotWriter => None,
        }
    }

    /// Takes the reply to the access of this stage and moves on.
    pub fn after(self, reply: Reply) -> (next: WriteUnlock)
        ensures
            next == self.resume(reply),
    {
        match self {
            WriteUnlock::Swap => match reply {
                Reply::Count(prev) => if prev == WRITER {
                    WriteUnlock::CheckWaiters
                } else {
                    WriteUnlock::NotWriter
                },
                _ => self,
            },
            WriteUnlock::CheckWaiters => match reply {
                Reply::Count(n) => if n != 0 {
                    WriteUnlock::Wake
                } else {
                    WriteUnlock::Released
                },
                _ => self,
            },
            WriteUnlock::Wake => match reply {
                Reply::Nothing => WriteUnlock::Released,
                _ => self,
            },
            _ => self,
        }
    }
}

/// While a writer holds the lock, `try_read` and `try_write` fail at once,
/// at whatever stage, and change nothing.
pub proof fn law_writer_refuses_everyone(l: RWLock, seen: usize)
    requires
        l.write_held(),
        seen != WRITER,
    ensures
        (Write::Swap).step(false, l) == (Write::Busy, l),
        (Read::Load).step(false, l) == (Read::Busy, l),
        (Read::Swap { seen }).step(false, l) == (Read::Busy, l),
{
}

/// While readers hold the lock, `try_write` fails and changes nothing, and
/// a reader that is not disturbed between its load and its swap gets in,
/// with `read` as with `try_read`; a reader that is disturbed by other
/// readers tries again with the number that it found, and is not refused.
pub proof fn law_readers_refuse_writers_only(l: RWLock, patient: bool, seen: usize)
    requires
        l.read_held(),
        l.users < WRITER - 1,
        seen < WRITER - 1,
    ensures
        (Write::Swap).step(false, l) == (Write::Busy, l),
        (Read::Load).step(patient, l) == (Read::Swap { seen: l.users }, l),
        (Read::Swap { seen: l.users }).step(patient, l) == (
            Read::Reading,
            RWLock { users: (l.users + 1) as usize, waiters: l.waiters },
        ),
        seen != l.users ==> (Read::Swap { seen }).step(patient, l) == (
            Read::Swap { seen: l.users },
            l,
        ),
{
}

/// A free lock goes to whoever swaps first: to a writer as `WRITER`, to a
/// reader as one reader.
pub proof fn law_free_lock_is_taken(patient: bool, waiters: usize)
    ensures
        (Write::Swap).step(patient, RWLock { users: 0, waiters }) == (
            Write::Writing,
            RWLock { users: WRITER, waiters },
        ),
        (Read::Swap { seen: 0 }).step(patient, RWLock { users: 0, waiters }) == (
            Read::Reading,
            RWLock { users: 1, waiters },
        ),
{
}

/// A reader that finds one reader less than `WRITER` fails fatally and
/// changes nothing: the count never wraps into the writer's value.
pub proof fn law_reader_count_is_never_exceeded(l: RWLock, patient: bool, stage: Read)
    ensures
        l.users == WRITER - 1 && stage is Load ==> stage.step(patient, l) == (Read::Exhausted, l),
        stage matches Read::Swap { seen } && seen < WRITER - 1 ==> stage.step(patient, l).1.users
            != WRITER || l.users == WRITER,
{
}

/// Giving back a read lock is fatal, and changes nothing, iff the lock is
/// free or held by a writer; giving back a write lock is fatal, and changes
/// nothing, iff no writer holds the lock.
pub proof fn law_unlock_is_fatal_iff_not_held(l: RWLock)
    ensures
        (ReadUnlock::Load).step(l).0.is_fatal() <==> !l.read_held(),
        (WriteUnlock::Swap).step(l).0.is_fatal() <==> !l.write_held(),
        (Read::Load).step(true, l).0.is_fatal() <==> l.users == WRITER - 1,
        l.users == 0 ==> (ReadUnlock::Load).step(l) == (ReadUnlock::NotHeld, l),
        l.users == WRITER ==> (ReadUnlock::Load).step(l) == (ReadUnlock::HeldByWriter, l),
        l.read_held() ==> (ReadUnlock::Load).step(l) == (ReadUnlock::Swap { seen: l.users }, l),
        l.users != WRITER ==> (WriteUnlock::Swap).step(l) == (WriteUnlock::NotWriter, l),
        l.users == WRITER ==> (WriteUnlock::Swap).step(l) == (
            WriteUnlock::CheckWaiters,
            RWLock { users: 0, waiters: l.waiters },
        ),
{
}

/// The width of the wake-up: the last reader to leave wakes one thread, a
/// writer that leaves wakes all, and both only where the waiter counter is
/// not zero; a reader that is not the last wakes nobody.
pub proof fn law_wake_width(l: RWLock, seen: usize)
    requires
        l.users == seen,
        0 < seen < WRITER,
    ensures
        (ReadUnlock::Swap { seen }).step(l).0 == if seen == 1 {
            ReadUnlock::CheckWaiters
        } else {
            ReadUnlock::Released
        },
        (ReadUnlock::Swap { seen }).step(l).1 == (RWLock {
            users: (seen - 1) as usize,
            waiters: l.waiters,
        }),
        (ReadUnlock::CheckWaiters).step(l).0 == if l.waiters != 0 {
            ReadUnlock::Wake
        } else {
            ReadUnlock::Released
        },
        (WriteUnlock::CheckWaiters).step(l).0 == if l.waiters != 0 {
            WriteUnlock::Wake
        } else {
            WriteUnlock::Released
        },
        (ReadUnlock::Wake).request() == Some(RwAccess::Wake { width: Width::One }),
        (WriteUnlock::Wake).request() == Some(RwAccess::Wake { width: Width::All }),
{
}

/// A reply of the kind that its access asks for always moves a stage on, so
/// whoever performs the accesses of an operation one after the other never
/// performs the same step twice without a change.
pub proof fn law_right_reply_moves_on(l: RWLock, patient: bool, reply: Reply)
    ensures
        forall|stage: Read|
            (#[trigger] stage.request()) matches Some(a) && same_kind(reply, l.reply_to(a))
                ==> stage.resume(patient, reply) != stage,
        forall|stage: Write|
            (#[trigger] stage.request()) matches Some(a) && same_kind(reply, l.reply_to(a))
                ==> stage.resume(patient, reply) != stage,
        forall|stage: ReadUnlock|
            (#[trigger] stage.request()) matches Some(a) && same_kind(reply, l.reply_to(a))
                ==> stage.resume(reply) != stage,
        forall|stage: WriteUnlock|
            (#[trigger] stage.request()) matches Some(a) && same_kind(reply, l.reply_to(a))
                ==> stage.resume(reply) != stage,
{
}

} // verus!
