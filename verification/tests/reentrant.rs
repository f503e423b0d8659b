use futex_locks::access::{MemoryOrder, Reply, Width};
use futex_locks::reentrant::{Acquire, ReentrantAccess, ReentrantMutex, Release};

fn lock_fully(m: &mut ReentrantMutex, me: usize) -> Acquire {
    let mut s = Acquire::start();
    let mut steps = 0;
    while s.access(me).is_some() {
        s = m.lock(me, s);
        steps += 1;
        assert!(steps < 10, "lock had to wait");
    }
    s
}

fn try_lock_fully(m: &mut ReentrantMutex, me: usize) -> Acquire {
    let mut s = Acquire::start();
    while s.access(me).is_some() {
        s = m.try_lock(me, s);
    }
    s
}

fn unlock_fully(m: &mut ReentrantMutex, me: usize) -> Release {
    let mut s = Release::start();
    while s.access().is_some() {
        s = m.unlock(me, s);
    }
    s
}

#[test]
fn new_reentrant_mutex_is_free() {
    let mut m = ReentrantMutex::new();
    assert_eq!(m, ReentrantMutex { locked: false, waiters: 0, owner: None, depth: 0 });
    assert!(!m.locked_raw());
    m.init();
    assert_eq!(m, ReentrantMutex { locked: false, waiters: 0, owner: None, depth: 0 });
}

#[test]
fn first_acquisition_records_owner_and_depth_zero() {
    let mut m = ReentrantMutex { locked: false, waiters: 0, owner: None, depth: 9 };
    let s = m.lock(7, Acquire::Swap);
    assert_eq!(s, Acquire::Claim);
    assert!(m.locked);
    assert_eq!(m.owner, None);
    let s = m.lock(7, s);
    assert_eq!(s, Acquire::ResetDepth);
    assert_eq!(m.owner, Some(7));
    let s = m.lock(7, s);
    assert_eq!(s, Acquire::Held);
    assert_eq!(m, ReentrantMutex { locked: true, waiters: 0, owner: Some(7), depth: 0 });
}

#[test]
fn try_lock_records_the_owner_too() {
    let mut m = ReentrantMutex::new();
    assert_eq!(try_lock_fully(&mut m, 3), Acquire::Held);
    assert_eq!(m, ReentrantMutex { locked: true, waiters: 0, owner: Some(3), depth: 0 });
}

#[test]
fn owner_takes_the_lock_again_without_waiting() {
    let mut m = ReentrantMutex::new();
    assert_eq!(lock_fully(&mut m, 1), Acquire::Held);
    let s = m.lock(1, Acquire::Swap);
    assert_eq!(s, Acquire::CheckOwner);
    let s = m.lock(1, s);
    assert_eq!(s, Acquire::ReadDepth);
    let s = m.lock(1, s);
    assert_eq!(s, Acquire::Deepen { to: 1 });
    let s = m.lock(1, s);
    assert_eq!(s, Acquire::Held);
    assert_eq!(m, ReentrantMutex { locked: true, waiters: 0, owner: Some(1), depth: 1 });
    assert_eq!(try_lock_fully(&mut m, 1), Acquire::Held);
    assert_eq!(m.depth, 2);
}

#[test]
fn another_thread_is_refused_by_try_lock() {
    let mut m = ReentrantMutex::new();
    assert_eq!(lock_fully(&mut m, 1), Acquire::Held);
    let before = m;
    assert_eq!(try_lock_fully(&mut m, 2), Acquire::Busy);
    assert_eq!(m, before);
}

#[test]
fn another_thread_waits_in_lock() {
    let mut m = ReentrantMutex::new();
    assert_eq!(lock_fully(&mut m, 1), Acquire::Held);
    let s = m.lock(2, Acquire::Swap);
    assert_eq!(s, Acquire::CheckOwner);
    let s = m.lock(2, s);
    assert_eq!(s, Acquire::Enqueue);
    let s = m.lock(2, s);
    assert_eq!(s, Acquire::Park);
    assert_eq!(s.access(2), Some(ReentrantAccess::Wait { expected: true }));
    assert_eq!(m.waiters, 1);
    let s = m.lock(2, s);
    assert_eq!(s, Acquire::Dequeue);
    let s = m.lock(2, s);
    assert_eq!(s, Acquire::Swap);
    assert_eq!(m, ReentrantMutex { locked: true, waiters: 0, owner: Some(1), depth: 0 });
}

#[test]
fn lock_stays_held_until_the_matching_unlock() {
    let mut m = ReentrantMutex::new();
    for expected_depth in 0..4usize {
        assert_eq!(lock_fully(&mut m, 5), Acquire::Held);
        assert_eq!(m.depth, expected_depth);
    }
    for left in (1..4usize).rev() {
        assert_eq!(unlock_fully(&mut m, 5), Release::StillHeld);
        assert_eq!(m, ReentrantMutex { locked: true, waiters: 0, owner: Some(5), depth: left - 1 });
        assert_eq!(try_lock_fully(&mut m, 6), Acquire::Busy);
    }
    assert_eq!(unlock_fully(&mut m, 5), Release::Released);
    assert_eq!(m, ReentrantMutex { locked: false, waiters: 0, owner: None, depth: 0 });
    assert_eq!(try_lock_fully(&mut m, 6), Acquire::Held);
    assert_eq!(m.owner, Some(6));
}

#[test]
fn outermost_unlock_clears_owner_then_releases_then_wakes_one() {
    let mut m = ReentrantMutex { locked: true, waiters: 2, owner: Some(4), depth: 0 };
    let s = m.unlock(4, Release::start());
    assert_eq!(s, Release::ReadDepth);
    let s = m.unlock(4, s);
    assert_eq!(s, Release::ClearOwner);
    let s = m.unlock(4, s);
    assert_eq!(s, Release::Swap);
    assert_eq!(m.owner, None);
    assert!(m.locked);
    assert_eq!(
        s.access(),
        Some(ReentrantAccess::SwapLocked {
            current: true,
            new: false,
            order: MemoryOrder::Release
        })
    );
    let s = m.unlock(4, s);
    assert_eq!(s, Release::CheckWaiters);
    assert!(!m.locked);
    let s = m.unlock(4, s);
    assert_eq!(s, Release::Wake);
    assert_eq!(s.access(), Some(ReentrantAccess::Wake { width: Width::One }));
    assert_eq!(m.unlock(4, s), Release::Released);
}

#[test]
fn reentrant_unlock_without_waiters_makes_no_wake() {
    let mut m = ReentrantMutex { locked: true, waiters: 0, owner: Some(4), depth: 0 };
    let mut s = Release::start();
    let mut woke = false;
    while let Some(access) = s.access() {
        if let ReentrantAccess::Wake { .. } = access {
            woke = true;
        }
        s = m.unlock(4, s);
    }
    assert_eq!(s, Release::Released);
    assert!(!woke);
}

#[test]
fn unlock_by_another_thread_is_fatal() {
    let mut m = ReentrantMutex::new();
    assert_eq!(lock_fully(&mut m, 1), Acquire::Held);
    let before = m;
    assert_eq!(unlock_fully(&mut m, 2), Release::NotOwner);
    assert_eq!(m, before);
}

#[test]
fn unlock_of_a_free_mutex_is_fatal() {
    let mut m = ReentrantMutex::new();
    assert_eq!(unlock_fully(&mut m, 1), Release::NotOwner);
    assert_eq!(m, ReentrantMutex::new());
}

#[test]
fn unlock_of_an_owned_but_unlocked_mutex_is_fatal() {
    let mut m = ReentrantMutex { locked: false, waiters: 0, owner: Some(1), depth: 0 };
    assert_eq!(unlock_fully(&mut m, 1), Release::NotLocked);
}

#[test]
fn depth_at_the_largest_word_cannot_grow() {
    let mut m = ReentrantMutex { locked: true, waiters: 0, owner: Some(1), depth: usize::MAX };
    assert_eq!(lock_fully(&mut m, 1), Acquire::DepthExhausted);
    assert_eq!(m.depth, usize::MAX);
    let mut m = ReentrantMutex { locked: true, waiters: 0, owner: Some(1), depth: usize::MAX - 1 };
    assert_eq!(lock_fully(&mut m, 1), Acquire::Held);
    assert_eq!(m.depth, usize::MAX);
}

#[test]
fn acquire_swaps_with_acquire_order_and_owner_accesses_are_exact() {
    assert_eq!(
        Acquire::Swap.access(9),
        Some(ReentrantAccess::SwapLocked {
            current: false,
            new: true,
            order: MemoryOrder::Acquire
        })
    );
    assert_eq!(Acquire::Claim.access(9), Some(ReentrantAccess::StoreOwner { owner: Some(9) }));
    assert_eq!(Acquire::ResetDepth.access(9), Some(ReentrantAccess::StoreDepth { depth: 0 }));
    assert_eq!(Acquire::CheckOwner.access(9), Some(ReentrantAccess::LoadOwner));
    assert_eq!(Acquire::Deepen { to: 3 }.access(9), Some(ReentrantAccess::StoreDepth { depth: 3 }));
    assert_eq!(Release::ClearOwner.access(), Some(ReentrantAccess::StoreOwner { owner: None }));
    assert_eq!(Release::Shallow { to: 2 }.access(), Some(ReentrantAccess::StoreDepth { depth: 2 }));
    assert_eq!(Acquire::Held.access(9), None);
    assert_eq!(Acquire::Busy.access(9), None);
    assert_eq!(Release::NotOwner.access(), None);
}

#[test]
fn owner_check_tells_threads_apart() {
    assert_eq!(Acquire::CheckOwner.after(1, true, Reply::Owner(Some(1))), Acquire::ReadDepth);
    assert_eq!(Acquire::CheckOwner.after(1, true, Reply::Owner(Some(2))), Acquire::Enqueue);
    assert_eq!(Acquire::CheckOwner.after(1, false, Reply::Owner(Some(2))), Acquire::Busy);
    assert_eq!(Acquire::CheckOwner.after(1, true, Reply::Owner(None)), Acquire::Enqueue);
    assert_eq!(Release::CheckOwner.after(1, Reply::Owner(None)), Release::NotOwner);
    assert_eq!(Release::CheckOwner.after(1, Reply::Owner(Some(1))), Release::ReadDepth);
    assert_eq!(Release::ReadDepth.after(1, Reply::Count(3)), Release::Shallow { to: 2 });
    assert_eq!(Release::ReadDepth.after(1, Reply::Count(0)), Release::ClearOwner);
}
