//! The reentrant mutex: the words of the simple mutex, the thread that owns
//! the lock, and how many times that thread has taken it again.
//!
//! A thread is named by a token: a word that differs between any two live
//! threads and that a thread keeps for its lifetime. Only the holder writes
//! `owner` and `depth`.

use vstd::prelude::*;
use crate::access::{same_kind, wrapping_pred, wrapping_succ, MemoryOrder, Reply, Width};

verus! {

/// One atomic access to the words of a reentrant mutex.
#[derive(Clone, Copy, Debug, PartialEq, Eq)]
pub enum ReentrantAccess {
    /// Compare-and-swap on `locked`: store `new` if the word holds `current`.
    SwapLocked { current: bool, new: bool, order: MemoryOrder },
    /// Load `owner`, relaxed.
    LoadOwner,
    /// Store `owner`, relaxed.
    StoreOwner { owner: Option<usize> },
    /// Load `depth`; only the holder does.
    LoadDepth,
    /// Store `depth`; only the holder does.
    StoreDepth { depth: usize },
    /// Add one to `waiters`, relaxed.
    AddWaiter,
    /// Take one from `waiters`, relaxed.
    RemoveWaiter,
    /// Load `waiters`, relaxed.
    LoadWaiters,
    /// Sleep on `locked` for as long as it holds `expected`.
    Wait { expected: bool },
    /// Wake threads that sleep on `locked`.
    Wake { width: Width },
}

/// The words of a reentrant mutex, as one atomic access finds and leaves
/// them.
#[derive(Clone, Copy, Debug, PartialEq, Eq)]
pub struct ReentrantMutex {
    /// True iff a thread holds the lock.
    pub locked: bool,
    /// The number of threads that announced that they are about to sleep.
    pub waiters: usize,
    /// The token of the thread that holds the lock; none while it is free.
    pub owner: Option<usize>,
    /// How many times the owner has taken the lock beyond the first.
    pub depth: usize,
}

/// Where a thread stands in `lock` or in `try_lock`. The two differ in one
/// place: where another thread owns the lock, `lock` waits and `try_lock`
/// gives up.
#[derive(Clone, Copy, Debug, PartialEq, Eq)]
pub enum Acquire {
    /// About to try `locked` false -> true.
    Swap,
    /// Took the free lock; about to record itself as the owner.
    Claim,
    /// Recorded as the owner; about to set the depth to zero.
    ResetDepth,
    /// The lock is taken; about to see whether by this thread.
    CheckOwner,
    /// This thread owns the lock; about to load the depth.
    ReadDepth,
    /// About to store the depth `to`, one more than it loaded.
    Deepen { to: usize },
    /// Another thread owns the lock; about to announce itself as a waiter.
    Enqueue,
    /// Announced; about to sleep while `locked` is still true.
    Park,
    /// Woken; about to withdraw the announcement and try again.
    Dequeue,
    /// Done: the thread holds the lock, once more than before.
    Held,
    /// Done (`try_lock` only): another thread owns the lock.
    Busy,
    /// Fatal: the depth cannot be counted any higher.
    DepthExhausted,
}

/// Where a thread stands in `unlock`.
#[derive(Clone, Copy, Debug, PartialEq, Eq)]
pub enum Release {
    /// About to see whether this thread owns the lock.
    CheckOwner,
    /// This thread owns the lock; about to load the depth.
    ReadDepth,
    /// An inner hold; about to store the depth `to`, one less than loaded.
    Shallow { to: usize },
    /// The outermost hold; about to clear the owner.
    ClearOwner,
    /// About to try `locked` true -> false.
    Swap,
    /// The lock is free again; about to see whether anyone sleeps.
    CheckWaiters,
    /// Someone may sleep; about to wake one thread.
    Wake,
    /// Done: an inner hold was given up; the thread still holds the lock.
    StillHeld,
    /// Done: the lock was released.
    Released,
    /// Fatal: the lock is owned by another thread, or by none.
    NotOwner,
    /// Fatal: the mutex was not locked.
    NotLocked,
}

impl ReentrantMutex {
    /// What `access` hands back when it finds the words as `self`.
    pub open spec fn reply_to(self, access: ReentrantAccess) -> Reply {
        match access {
            ReentrantAccess::SwapLocked { .. } => Reply::Flag(self.locked),
            ReentrantAccess::LoadOwner => Reply::Owner(self.owner),
            ReentrantAccess::StoreOwner { .. } => Reply::Nothing,
            ReentrantAccess::LoadDepth => Reply::Count(self.depth),
            ReentrantAccess::StoreDepth { .. } => Reply::Nothing,
            ReentrantAccess::AddWaiter => Reply::Count(self.waiters),
            ReentrantAccess::RemoveWaiter => Reply::Count(self.waiters),
            ReentrantAccess::LoadWaiters => Reply::Count(self.waiters),
            ReentrantAccess::Wait { .. } => Reply::Nothing,
            ReentrantAccess::Wake { .. } => Reply::Nothing,
        }
    }

    /// The words as `access` leaves them when it finds them as `self`.
    pub open spec fn after_access(self, access: ReentrantAccess) -> ReentrantMutex {
        match access {
            ReentrantAccess::SwapLocked { current, new, .. } => ReentrantMutex {
                locked: if self.locked == current { new } else { self.locked },
                ..self
            },
            ReentrantAccess::StoreOwner { owner } => ReentrantMutex { owner, ..self },
            ReentrantAccess::StoreDepth { depth } => ReentrantMutex { depth, ..self },
            ReentrantAccess::AddWaiter => ReentrantMutex {
                waiters: wrapping_succ(self.waiters),
                ..self
            },
            ReentrantAccess::RemoveWaiter => ReentrantMutex {
                waiters: wrapping_pred(self.waiters),
                ..self
            },
            _ => self,
        }
    }

    /// Whether thread `me` holds the lock, `depth` times beyond the first.
    pub open spec fn held_by(self, me: usize, depth: usize) -> bool {
        self.locked && self.owner == Some(me) && self.depth == depth
    }

    /// Whether the lock is free.
    pub open spec fn free(self) -> bool {
        !self.locked && self.owner is None
    }

    /// An unlocked mutex without owner, on which nobody waits.
    pub fn new() -> (m: ReentrantMutex)
        ensures
            m == (ReentrantMutex { locked: false, waiters: 0, owner: None, depth: 0 }),
            m.free(),
    {
        ReentrantMutex { locked: false, waiters: 0, owner: None, depth: 0 }
    }

    /// The lock word.
    pub fn locked_raw(&self) -> (word: bool)
        ensures
            word == self.locked,
    {
        self.locked
    }

    /// Prepares the mutex for use; its words need no preparation.
    pub fn init(&mut self)
        ensures
            *final(self) == *old(self),
    {
    }

    /// Performs one access on the words.
    pub fn perform(&mut self, access: ReentrantAccess) -> (reply: Reply)
        ensures
            reply == old(self).reply_to(access),
            *final(self) == old(self).after_access(access),
    {
        match access {
            ReentrantAccess::SwapLocked { current, new, order: _ } => {
                let prev = self.locked;
                if prev == current {
                    self.locked = new;
                }
                Reply::Flag(prev)
            },
            ReentrantAccess::LoadOwner => Reply::Owner(self.owner),
            ReentrantAccess::StoreOwner { owner } => {
                self.owner = owner;
                Reply::Nothing
            },
            ReentrantAccess::LoadDepth => Reply::Count(self.depth),
            ReentrantAccess::StoreDepth { depth } => {
                self.depth = depth;
                Reply::Nothing
            },
            ReentrantAccess::AddWaiter => {
                let prev = self.waiters;
                self.waiters = prev.wrapping_add(1);
                Reply::Count(prev)
            },
            ReentrantAccess::RemoveWaiter => {
                let prev = self.waiters;
                self.waiters = prev.wrapping_sub(1);
                Reply::Count(prev)
            },
            ReentrantAccess::LoadWaiters => Reply::Count(self.waiters),
            ReentrantAccess::Wait { expected: _ } => Reply::Nothing,
            ReentrantAccess::Wake { width: _ } => Reply::Nothing,
        }
    }

    /// One access of thread `me`, which stands at `stage` of `try_lock`.
    pub fn try_lock(&mut self, me: usize, stage: Acquire) -> (next: Acquire)
        ensures
            (next, *final(self)) == stage.step(me, false, *old(self)),
    {
        match stage.access(me) {
            Some(access) => {
                let reply = self.perform(access);
                stage.after(me, false, reply)
            },
            None => stage,
        }
    }

    /// One access of thread `me`, which stands at `stage` of `lock`.
    pub fn lock(&mut self, me: usize, stage: Acquire) -> (next: Acquire)
        ensures
            (next, *final(self)) == stage.step(me, true, *old(self)),
    {
        match stage.access(me) {
            Some(access) => {
                let reply = self.perform(access);
                stage.after(me, true, reply)
            },
            None => stage,
        }
    }

    /// One access of thread `me`, which stands at `stage` of `unlock`.
    pub fn unlock(&mut self, me: usize, stage: Release) -> (next: Release)
        ensures
            (next, *final(self)) == stage.step(me, *old(self)),
    {
        match stage.access() {
            Some(access) => {
                let reply = self.perform(access);
                stage.after(me, reply)
            },
            None => stage,
        }
    }
}

impl Acquire {
    /// The access that thread `me` issues next; none once it is done.
    pub open spec fn request(self, me: usize) -> Option<ReentrantAccess> {
        match self {
            Acquire::Swap => Some(
                ReentrantAccess::SwapLocked {
                    current: false,
                    new: true,
                    order: MemoryOrder::Acquire,
                },
            ),
            Acquire::Claim => Some(ReentrantAccess::StoreOwner { owner: Some(me) }),
            Acquire::ResetDepth => Some(ReentrantAccess::StoreDepth { depth: 0 }),
            Acquire::CheckOwner => Some(ReentrantAccess::LoadOwner),
            Acquire::ReadDepth => Some(ReentrantAccess::LoadDepth),
            Acquire::Deepen { to } => Some(ReentrantAccess::StoreDepth { depth: to }),
            Acquire::Enqueue => Some(ReentrantAccess::AddWaiter),
            Acquire::Park => Some(ReentrantAccess::Wait { expected: true }),
            Acquire::Dequeue => Some(ReentrantAccess::RemoveWaiter),
            Acquire::Held => None,
            Acquire::Busy => None,
            Acquire::DepthExhausted => None,
        }
    }

    /// Where thread `me` stands once its access has handed back `reply`;
    /// `patient` tells `lock` from `try_lock`.
    pub open spec fn resume(self, me: usize, patient: bool, reply: Reply) -> Acquire {
        match (self, reply) {
            (Acquire::Swap, Reply::Flag(prev)) => if prev {
                Acquire::CheckOwner
            } else {
                Acquire::Claim
            },
            (Acquire::Claim, Reply::Nothing) => Acquire::ResetDepth,
            (Acquire::ResetDepth, Reply::Nothing) => Acquire::Held,
            (Acquire::CheckOwner, Reply::Owner(owner)) => if owner == Some(me) {
                Acquire::ReadDepth
            } else if patient {
                Acquire::Enqueue
            } else {
                Acquire::Busy
            },
            (Acquire::ReadDepth, Reply::Count(depth)) => if depth < usize::MAX {
                Acquire::Deepen { to: (depth + 1) as usize }
            } else {
                Acquire::DepthExhausted
            },
            (Acquire::Deepen { .. }, Reply::Nothing) => Acquire::Held,
            (Acquire::Enqueue, Reply::Count(_)) => Acquire::Park,
            (Acquire::Park, Reply::Nothing) => Acquire::Dequeue,
            (Acquire::Dequeue, Reply::Count(_)) => Acquire::Swap,
            _ => self,
        }
    }

    /// The stage and the words after the next access of thread `me` on `m`.
    pub open spec fn step(self, me: usize, patient: bool, m: ReentrantMutex) -> (
        Acquire,
        ReentrantMutex,
    ) {
        match self.request(me) {
            Some(access) => (self.resume(me, patient, m.reply_to(access)), m.after_access(access)),
            None => (self, m),
        }
    }

    /// Whether this stage is a fatal end.
    pub open spec fn is_fatal(self) -> bool {
        self is DepthExhausted
    }

    /// The stage in which `lock` and `try_lock` begin.
    pub fn start() -> (stage: Acquire)
        ensures
            stage == Acquire::Swap,
    {
        Acquire::Swap
    }

    /// The access for thread `me` to issue at this stage.
    pub fn access(&self, me: usize) -> (access: Option<ReentrantAccess>)
        ensures
            access == self.request(me),
    {
        match self {
            Acquire::Swap => Some(
                ReentrantAccess::SwapLocked {
                    current: false,
                    new: true,
                    order: MemoryOrder::Acquire,
                },
            ),
            Acquire::Claim => Some(ReentrantAccess::StoreOwner { owner: Some(me) }),
            Acquire::ResetDepth => Some(ReentrantAccess::StoreDepth { depth: 0 }),
            Acquire::CheckOwner => Some(ReentrantAccess::LoadOwner),
            Acquire::ReadDepth => Some(ReentrantAccess::LoadDepth),
            Acquire::Deepen { to } => Some(ReentrantAccess::StoreDepth { depth: *to }),
            Acquire::Enqueue => Some(ReentrantAccess::AddWaiter),
            Acquire::Park => Some(ReentrantAccess::Wait { expected: true }),
            Acquire::Dequeue => Some(ReentrantAccess::RemoveWaiter),
            Acquire::Held => None,
            Acquire::Busy => None,
            Acquire::DepthExhausted => None,
        }
    }

    /// Takes the reply to the access of this stage and moves on; `patient`
    /// tells `lock` from `try_lock`.
    pub fn after(self, me: usize, patient: bool, reply: Reply) -> (next: Acquire)
        ensures
            next == self.resume(me, patient, reply),
    {
        match self {
            Acquire::Swap => match reply {
                Reply::Flag(prev) => if prev {
                    Acquire::CheckOwner
                } else {
                    Acquire::Claim
                },
                _ => self,
            },
            Acquire::Claim => match reply {
                Reply::Nothing => Acquire::ResetDepth,
                _ => self,
            },
            Acquire::ResetDepth => match reply {
                Reply::Nothing => Acquire::Held,
                _ => self,
            },
            Acquire::CheckOwner => match reply {
                Reply::Owner(owner) => {
                    let mine = match owner {
                        Some(token) => token == me,
                        None => false,
                    };
                    if mine {
                        Acquire::ReadDepth
                    } else if patient {
                        Acquire::Enqueue
                    } else {
                        Acquire::Busy
                    }
                },
                _ => self,
            },
            Acquire::ReadDepth => match reply {
                Reply::Count(depth) => if depth < usize::MAX {
                    Acquire::Deepen { to: depth + 1 }
                } else {
                    Acquire::DepthExhausted
                },
                _ => self,
            },
            Acquire::Deepen { to: _ } => match reply {
                Reply::Nothing => Acquire::Held,
                _ => self,
            },
            Acquire::Enqueue => match reply {
                Reply::Count(_) => Acquire::Park,
                _ => self,
            },
            Acquire::Park => match reply {
                Reply::Nothing => Acquire::Dequeue,
                _ => self,
            },
            Acquire::Dequeue => match reply {
                Reply::Count(_) => Acquire::Swap,
                _ => self,
            },
            _ => self,
        }
    }
}

impl Release {
    /// The access that the thread issues next; none once it is done.
    pub open spec fn request(self) -> Option<ReentrantAccess> {
        match self {
            Release::CheckOwner => Some(ReentrantAccess::LoadOwner),
            Release::ReadDepth => Some(ReentrantAccess::LoadDepth),
            Release::Shallow { to } => Some(ReentrantAccess::StoreDepth { depth: to }),
            Release::ClearOwner => Some(ReentrantAccess::StoreOwner { owner: None }),
            Release::Swap => Some(
                ReentrantAccess::SwapLocked {
                    current: true,
                    new: false,
                    order: MemoryOrder::Release,
                },
            ),
            Release::CheckWaiters => Some(ReentrantAccess::LoadWaiters),
            Release::Wake => Some(ReentrantAccess::Wake { width: Width::One }),
            Release::StillHeld => None,
            Release::Released => None,
            Release::NotOwner => None,
            Release::NotLocked => None,
        }
    }

    /// Where thread `me` stands once its access has handed back `reply`.
    pub open spec fn resume(self, me: usize, reply: Reply) -> Release {
        match (self, reply) {
            (Release::CheckOwner, Reply::Owner(owner)) => if owner == Some(me) {
                Release::ReadDepth
            } else {
                Release::NotOwner
            },
            (Release::ReadDepth, Reply::Count(depth)) => if depth == 0 {
                Release::ClearOwner
            } else {
                Release::Shallow { to: (depth - 1) as usize }
            },
            (Release::Shallow { .. }, Reply::Nothing) => Release::StillHeld,
            (Release::ClearOwner, Reply::Nothing) => Release::Swap,
            (Release::Swap, Reply::Flag(prev)) => if prev {
                Release::CheckWaiters
            } else {
                Release::NotLocked
            },
            (Release::CheckWaiters, Reply::Count(n)) => if n != 0 {
                Release::Wake
            } else {
                Release::Released
            },
            (Release::Wake, Reply::Nothing) => Release::Released,
            _ => self,
        }
    }

    /// The stage and the words after the next access of thread `me` on `m`.
    pub open spec fn step(self, me: usize, m: ReentrantMutex) -> (Release, ReentrantMutex) {
        match self.request() {
            Some(access) => (self.resume(me, m.reply_to(access)), m.after_access(access)),
            None => (self, m),
        }
    }

    /// Whether this stage is a fatal end: the caller unlocked a lock that it
    /// does not own, or one that is not locked.
    pub open spec fn is_fatal(self) -> bool {
        self is NotOwner || self is NotLocked
    }

    /// The stage in which `unlock` begins.
    pub fn start() -> (stage: Release)
        ensures
            stage == Release::CheckOwner,
    {
        Release::CheckOwner
    }

    /// The access to issue at this stage.
    pub fn access(&self) -> (access: Option<ReentrantAccess>)
        ensures
            access == self.request(),
    {
        match self {
            Release::CheckOwner => Some(ReentrantAccess::LoadOwner),
            Release::ReadDepth => Some(ReentrantAccess::LoadDepth),
            Release::Shallow { to } => Some(ReentrantAccess::StoreDepth { depth: *to }),
            Release::ClearOwner => Some(ReentrantAccess::StoreOwner { owner: None }),
            Release::Swap => Some(
                ReentrantAccess::SwapLocked {
                    current: true,
                    new: false,
                    order: MemoryOrder::Release,
                },
            ),
            Release::CheckWaiters => Some(ReentrantAccess::LoadWaiters),
            Release::Wake => Some(ReentrantAccess::Wake { width: Width::One }),
            Release::StillHeld => None,
            Release::Released => None,
            Release::NotOwner => None,
            Release::NotLocked => None,
        }
    }

    /// Takes the reply to the access of this stage and moves on.
    pub fn after(self, me: usize, reply: Reply) -> (next: Release)
        ensures
            next == self.resume(me, reply),
    {
        match self {
            Release::CheckOwner => match reply {
                Reply::Owner(owner) => {
                    let mine = match owner {
                        Some(token) => token == me,
                        None => false,
                    };
                    if mine {
                        Release::ReadDepth
                    } else {
                        Release::NotOwner
                    }
                },
                _ => self,
            },
            Release::ReadDepth => match reply {
                Reply::Count(depth) => if depth == 0 {
                    Release::ClearOwner
                } else {
                    Release::Shallow { to: depth - 1 }
                },
                _ => self,
            },
            Release::Shallow { to: _ } => match reply {
                Reply::Nothing => Release::StillHeld,
                _ => self,
            },
            Release::ClearOwner => match reply {
                Reply::Nothing => Release::Swap,
                _ => self,
            },
            Release::Swap => match reply {
                Reply::Flag(prev) => if prev {
                    Release::CheckWaiters
                } else {
                    Release::NotLocked
                },
                _ => self,
            },
            Release::CheckWaiters => match reply {
                Reply::Count(n) => if n != 0 {
                    Release::Wake
                } else {
                    Release::Released
                },
                _ => self,
            },
            Release::Wake => match reply {
                Reply::Nothing => Release::Released,
                _ => self,
            },
            _ => self,
        }
    }
}

/// A thread that holds the lock takes it again in four accesses, with `lock`
/// as with `try_lock`, without an access to the waiter counter and without
/// a wait; afterwards it holds the lock one level deeper.
pub proof fn law_owner_reenters(m: ReentrantMutex, me: usize, depth: usize, patient: bool)
    requires
        m.held_by(me, depth),
        depth < usize::MAX,
    ensures
        ({
            let (s1, m1) = (Acquire::Swap).step(me, patient, m);
            let (s2, m2) = s1.step(me, patient, m1);
            let (s3, m3) = s2.step(me, patient, m2);
            let (s4, m4) = s3.step(me, patient, m3);
            &&& s1 == Acquire::CheckOwner && m1 == m
            &&& s2 == Acquire::ReadDepth && m2 == m
            &&& s3 == (Acquire::Deepen { to: (depth + 1) as usize }) && m3 == m
            &&& s4 == Acquire::Held
            &&& m4 == (ReentrantMutex { depth: (depth + 1) as usize, ..m })
            &&& m4.held_by(me, (depth + 1) as usize)
        }),
{
}

/// While one thread holds the lock, the lock is not visible to the others:
/// whatever access another thread makes at the stages that `lock` and
/// `try_lock` have for a thread that does not hold the lock, the holder
/// still holds it at the same depth, and the other thread has not got it.
pub proof fn law_others_cannot_enter(
    m: ReentrantMutex,
    me: usize,
    depth: usize,
    you: usize,
    patient: bool,
    stage: Acquire,
)
    requires
        m.held_by(me, depth),
        you != me,
        stage is Swap || stage is CheckOwner || stage is Enqueue || stage is Park
            || stage is Dequeue,
    ensures
        ({
            let (next, after) = stage.step(you, patient, m);
            &&& after.held_by(me, depth)
            &&& next is Swap || next is CheckOwner || next is Enqueue || next is Park
                || next is Dequeue || next is Busy
            &&& next is Busy ==> !patient
            &&& stage is CheckOwner && !patient ==> next is Busy
        }),
{
}

/// An unlock by the holder gives back one level: an inner hold in three
/// accesses, after which the thread still holds the lock; the outermost
/// hold by clearing the owner and freeing the lock word, after which the
/// lock is free.
pub proof fn law_unlock_gives_back_one_level(m: ReentrantMutex, me: usize, depth: usize)
    requires
        m.held_by(me, depth),
    ensures
        ({
            let (s1, m1) = (Release::CheckOwner).step(me, m);
            let (s2, m2) = s1.step(me, m1);
            let (s3, m3) = s2.step(me, m2);
            let (s4, m4) = s3.step(me, m3);
            &&& s1 == Release::ReadDepth && m1 == m
            &&& m2 == m
            &&& depth > 0 ==> s2 == (Release::Shallow { to: (depth - 1) as usize })
                && s3 == Release::StillHeld && m3.held_by(me, (depth - 1) as usize)
            &&& depth == 0 ==> s2 == Release::ClearOwner && s3 == Release::Swap && m3.locked
                && m3.owner is None && s4 == Release::CheckWaiters && m4.free()
        }),
{
}

/// Unlocking a lock that another thread owns, or that nobody owns, is fatal
/// and changes nothing; so is, after the owner check, unlocking a lock whose
/// word is not set.
pub proof fn law_unlock_is_fatal_for_a_stranger(m: ReentrantMutex, me: usize)
    ensures
        (Release::CheckOwner).step(me, m).0.is_fatal() <==> m.owner != Some(me),
        (Release::Swap).step(me, m).0.is_fatal() <==> !m.locked,
        (Acquire::ReadDepth).step(me, true, m).0.is_fatal() <==> m.depth == usize::MAX,
        m.owner != Some(me) ==> (Release::CheckOwner).step(me, m) == (Release::NotOwner, m),
        m.owner == Some(me) ==> (Release::CheckOwner).step(me, m) == (Release::ReadDepth, m),
        !m.locked ==> (Release::Swap).step(me, m) == (Release::NotLocked, m),
{
}

/// A reply of the kind that its access asks for always moves a stage on, so
/// whoever performs the accesses of an operation one after the other never
/// performs the same step twice without a change.
pub proof fn law_right_reply_moves_on(m: ReentrantMutex, me: usize, patient: bool, reply: Reply)
    ensures
        forall|stage: Acquire|
            (#[trigger] stage.request(me)) matches Some(a) && same_kind(reply, m.reply_to(a))
                ==> stage.resume(me, patient, reply) != stage,
        forall|stage: Release|
            (#[trigger] stage.request()) matches Some(a) && same_kind(reply, m.reply_to(a))
                ==> stage.resume(me, reply) != stage,
{
}

} // verus!
