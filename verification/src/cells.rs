//! The accesses of the locks on atomic cells that threads share.
//!
//! These functions perform the accesses that touch memory. What another
//! thread did to a cell decides what an access finds, so nothing is stated
//! of the value that comes back but its kind; what is handed to a cell and
//! what is made of its answer is computed by functions with exact contracts.
//! The wait and the wake-up, which need the kernel, are left to the caller.
//!
//! A lock word is 1 while the lock is held and 0 while it is free. An owner
//! word holds the owner's token, and 0 while there is no owner: no thread
//! has the token 0. Cells that start as zeros are a free lock, so a lock can
//! be laid out before the program starts.

use vstd::prelude::*;
use std::sync::atomic::{AtomicU32, AtomicUsize, Ordering};
use crate::access::{same_kind, MemoryOrder, Reply};
use crate::mutex::{Mutex, MutexAccess};
use crate::reentrant::{ReentrantAccess, ReentrantMutex};
use crate::rwlock::{RWLock, RwAccess};

verus! {

/// The ordering of an access that stores or swaps.
pub fn ordering(order: MemoryOrder) -> (o: Ordering)
    ensures
        order is Relaxed ==> o is Relaxed,
        order is Acquire ==> o is Acquire,
        order is Release ==> o is Release,
{
    match order {
        MemoryOrder::Relaxed => Ordering::Relaxed,
        MemoryOrder::Acquire => Ordering::Acquire,
        MemoryOrder::Release => Ordering::Release,
    }
}

/// The ordering of an access that only loads, as a swap that fails does:
/// what a store would release has nothing to release here.
pub fn load_ordering(order: MemoryOrder) -> (o: Ordering)
    ensures
        order is Acquire ==> o is Acquire,
        !(order is Acquire) ==> o is Relaxed,
{
    match order {
        MemoryOrder::Acquire => Ordering::Acquire,
        _ => Ordering::Relaxed,
    }
}

/// Compare-and-swap on a lock word; hands back whether the word was set.
fn swap_flag(word: &AtomicU32, current: bool, new: bool, order: MemoryOrder) -> (prev: bool) {
    let from: u32 = flag_word(current);
    let to: u32 = flag_word(new);
    let success = ordering(order);
    let failure = load_ordering(order);
    let seen = word.compare_exchange(from, to, success, failure);
    flag_found(seen)
}

/// Compare-and-swap on a counting word; hands back what the word held.
fn swap_count(word: &AtomicUsize, current: usize, new: usize, order: MemoryOrder) -> (prev:
    usize) {
    let success = ordering(order);
    let failure = load_ordering(order);
    let seen = word.compare_exchange(current, new, success, failure);
    count_found(seen)
}

/// What a lock word holds for a flag: 1 for a lock that is held, 0 for one
/// that is free.
pub fn flag_word(flag: bool) -> (word: u32)
    ensures
        word == if flag {
            1u32
        } else {
            0u32
        },
{
    if flag {
        1
    } else {
        0
    }
}

/// Whether the lock word was set when a compare-and-swap found it. The swap
/// hands back what it found whether or not it stored, and a word counts as
/// set unless it is 0.
pub fn flag_found(seen: Result<u32, u32>) -> (prev: bool)
    ensures
        prev == match seen {
            Ok(found) => found != 0,
            Err(found) => found != 0,
        },
{
    match seen {
        Ok(found) => found != 0,
        Err(found) => found != 0,
    }
}

/// What a counting word held when a compare-and-swap found it. The swap
/// hands back what it found whether or not it stored.
pub fn count_found(seen: Result<usize, usize>) -> (prev: usize)
    ensures
        prev == match seen {
            Ok(found) => found,
            Err(found) => found,
        },
{
    match seen {
        Ok(found) => found,
        Err(found) => found,
    }
}

/// Performs an access of a mutex that touches memory and hands back what it
/// found; performs nothing and hands back nothing for a wait or a wake-up.
pub fn mutex_access(locked: &AtomicU32, waiters: &AtomicUsize, access: MutexAccess) -> (reply:
    Option<Reply>)
    ensures
        reply is None <==> access is Wait || access is Wake,
        reply matches Some(r) ==> forall|m: Mutex| same_kind(r, #[trigger] m.reply_to(access)),
{
    match access {
        MutexAccess::SwapLocked { current, new, order } => Some(
            Reply::Flag(swap_flag(locked, current, new, order)),
        ),
        MutexAccess::AddWaiter => Some(Reply::Count(waiters.fetch_add(1, Ordering::Relaxed))),
        MutexAccess::RemoveWaiter => Some(Reply::Count(waiters.fetch_sub(1, Ordering::Relaxed))),
        MutexAccess::LoadWaiters => Some(Reply::Count(waiters.load(Ordering::Relaxed))),
        MutexAccess::Wait { expected: _ } => None,
        MutexAccess::Wake { width: _ } => None,
    }
}

/// Performs an access of a reentrant mutex that touches memory and hands
/// back what it found; performs nothing and hands back nothing for a wait
/// or a wake-up.
pub fn reentrant_access(
    locked: &AtomicU32,
    waiters: &AtomicUsize,
    owner: &AtomicUsize,
    depth: &AtomicUsize,
    access: ReentrantAccess,
) -> (reply: Option<Reply>)
    ensures
        reply is None <==> access is Wait || access is Wake,
        reply matches Some(r) ==> forall|m: ReentrantMutex|
            same_kind(r, #[trigger] m.reply_to(access)),
{
    match access {
        ReentrantAccess::SwapLocked { current, new, order } => Some(
            Reply::Flag(swap_flag(locked, current, new, order)),
        ),
        ReentrantAccess::LoadOwner => {
            let token = owner.load(Ordering::Relaxed);
            if token == 0 {
                Some(Reply::Owner(None))
            } else {
                Some(Reply::Owner(Some(token)))
            }
        },
        ReentrantAccess::StoreOwner { owner: new_owner } => {
            let token = match new_owner {
                Some(token) => token,
                None => 0,
            };
            owner.store(token, Ordering::Relaxed);
            Some(Reply::Nothing)
        },
        ReentrantAccess::LoadDepth => Some(Reply::Count(depth.load(Ordering::Relaxed))),
        ReentrantAccess::StoreDepth { depth: new_depth } => {
            depth.store(new_depth, Ordering::Relaxed);
            Some(Reply::Nothing)
        },
        ReentrantAccess::AddWaiter => Some(Reply::Count(waiters.fetch_add(1, Ordering::Relaxed))),
        ReentrantAccess::RemoveWaiter => Some(
            Reply::Count(waiters.fetch_sub(1, Ordering::Relaxed)),
        ),
        ReentrantAccess::LoadWaiters => Some(Reply::Count(waiters.load(Ordering::Relaxed))),
        ReentrantAccess::Wait { expected: _ } => None,
        ReentrantAccess::Wake { width: _ } => None,
    }
}

/// Performs an access of a reader-writer lock that touches memory and hands
/// back what it found; performs nothing and hands back nothing for a wait
/// or a wake-up.
pub fn rw_access(users: &AtomicUsize, waiters: &AtomicUsize, access: RwAccess) -> (reply: Option<
    Reply,
>)
    ensures
        reply is None <==> access is Wait || access is Wake,
        reply matches Some(r) ==> forall|l: RWLock| same_kind(r, #[trigger] l.reply_to(access)),
{
    match access {
        RwAccess::LoadUsers { order } => Some(Reply::Count(users.load(load_ordering(order)))),
        RwAccess::SwapUsers { current, new, order } => Some(
            Reply::Count(swap_count(users, current, new, order)),
        ),
        RwAccess::AddWaiter => Some(Reply::Count(waiters.fetch_add(1, Ordering::Relaxed))),
        RwAccess::RemoveWaiter => Some(Reply::Count(waiters.fetch_sub(1, Ordering::Relaxed))),
        RwAccess::LoadWaiters => Some(Reply::Count(waiters.load(Ordering::Relaxed))),
        RwAccess::Wait { expected: _ } => None,
        RwAccess::Wake { width: _ } => None,
    }
}

} // verus!
