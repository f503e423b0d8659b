use futex_locks::access::{MemoryOrder, Reply, Width};
use futex_locks::mutex::{Lock, Mutex, MutexAccess, TryLock, Unlock};

#[test]
fn new_mutex_is_unlocked_without_waiters() {
    let m = Mutex::new();
    assert!(!m.locked);
    assert_eq!(m.waiters, 0);
    assert!(!m.locked_raw());
}

#[test]
fn init_and_destroy_leave_the_words_alone() {
    let mut m = Mutex { locked: true, waiters: 3 };
    m.init();
    assert_eq!(m, Mutex { locked: true, waiters: 3 });
    m.destroy();
    assert_eq!(m, Mutex { locked: true, waiters: 3 });
}

#[test]
fn try_lock_takes_a_free_mutex() {
    let mut m = Mutex::new();
    assert!(m.try_lock());
    assert_eq!(m, Mutex { locked: true, waiters: 0 });
}

#[test]
fn try_lock_on_a_held_mutex_fails_and_changes_nothing() {
    let mut m = Mutex::new();
    assert!(m.try_lock());
    assert!(!m.try_lock());
    assert!(!m.try_lock());
    assert_eq!(m, Mutex { locked: true, waiters: 0 });
}

#[test]
fn try_lock_issues_one_acquire_swap() {
    let stage = TryLock::start();
    assert_eq!(stage, TryLock::Swap);
    assert_eq!(
        stage.access(),
        Some(MutexAccess::SwapLocked { current: false, new: true, order: MemoryOrder::Acquire })
    );
    assert_eq!(stage.after(Reply::Flag(false)), TryLock::Acquired);
    assert_eq!(stage.after(Reply::Flag(true)), TryLock::Busy);
    assert_eq!(TryLock::Acquired.access(), None);
    assert_eq!(TryLock::Busy.access(), None);
}

#[test]
fn lock_takes_a_free_mutex_in_one_access() {
    let mut m = Mutex::new();
    let stage = m.lock(Lock::start());
    assert_eq!(stage, Lock::Held);
    assert_eq!(m, Mutex { locked: true, waiters: 0 });
    assert_eq!(m.lock(stage), Lock::Held);
    assert_eq!(m, Mutex { locked: true, waiters: 0 });
}

#[test]
fn lock_on_a_held_mutex_announces_sleeps_and_retries() {
    let mut m = Mutex { locked: true, waiters: 0 };
    let s = m.lock(Lock::Swap);
    assert_eq!(s, Lock::Enqueue);
    assert_eq!(m, Mutex { locked: true, waiters: 0 });
    let s = m.lock(s);
    assert_eq!(s, Lock::Park);
    assert_eq!(m, Mutex { locked: true, waiters: 1 });
    let s = m.lock(s);
    assert_eq!(s, Lock::Dequeue);
    assert_eq!(m, Mutex { locked: true, waiters: 1 });
    let s = m.lock(s);
    assert_eq!(s, Lock::Swap);
    assert_eq!(m, Mutex { locked: true, waiters: 0 });
    m.locked = false;
    assert_eq!(m.lock(s), Lock::Held);
    assert!(m.locked);
}

#[test]
fn lock_waits_only_while_the_word_is_still_true() {
    assert_eq!(Lock::Park.access(), Some(MutexAccess::Wait { expected: true }));
    assert_eq!(Lock::Enqueue.access(), Some(MutexAccess::AddWaiter));
    assert_eq!(Lock::Dequeue.access(), Some(MutexAccess::RemoveWaiter));
    assert_eq!(Lock::Held.access(), None);
    assert_eq!(
        Lock::Swap.access(),
        Some(MutexAccess::SwapLocked { current: false, new: true, order: MemoryOrder::Acquire })
    );
}

#[test]
fn unlock_without_waiters_makes_no_wake() {
    let mut m = Mutex { locked: true, waiters: 0 };
    let s = m.unlock(Unlock::start());
    assert_eq!(s, Unlock::CheckWaiters);
    assert!(!m.locked);
    let s = m.unlock(s);
    assert_eq!(s, Unlock::Released);
    assert_eq!(m, Mutex { locked: false, waiters: 0 });
}

#[test]
fn unlock_with_waiters_wakes_one() {
    let mut m = Mutex { locked: true, waiters: 2 };
    let s = m.unlock(Unlock::Swap);
    assert_eq!(s, Unlock::CheckWaiters);
    let s = m.unlock(s);
    assert_eq!(s, Unlock::Wake);
    assert_eq!(s.access(), Some(MutexAccess::Wake { width: Width::One }));
    let s = m.unlock(s);
    assert_eq!(s, Unlock::Released);
    assert_eq!(m, Mutex { locked: false, waiters: 2 });
}

#[test]
fn unlock_releases_with_release_order() {
    assert_eq!(
        Unlock::Swap.access(),
        Some(MutexAccess::SwapLocked { current: true, new: false, order: MemoryOrder::Release })
    );
    assert_eq!(Unlock::CheckWaiters.access(), Some(MutexAccess::LoadWaiters));
    assert_eq!(Unlock::Released.access(), None);
    assert_eq!(Unlock::NotLocked.access(), None);
}

#[test]
fn unlock_of_an_unlocked_mutex_is_fatal() {
    let mut m = Mutex::new();
    let s = m.unlock(Unlock::start());
    assert_eq!(s, Unlock::NotLocked);
    assert_eq!(m, Mutex { locked: false, waiters: 0 });
    assert_eq!(m.unlock(s), Unlock::NotLocked);
}

#[test]
fn second_unlock_is_fatal() {
    let mut m = Mutex::new();
    assert!(m.try_lock());
    let mut s = Unlock::start();
    while s.access().is_some() {
        s = m.unlock(s);
    }
    assert_eq!(s, Unlock::Released);
    let mut s = Unlock::start();
    while s.access().is_some() {
        s = m.unlock(s);
    }
    assert_eq!(s, Unlock::NotLocked);
}

#[test]
fn waiter_counter_wraps_like_the_atomic_word() {
    let mut m = Mutex { locked: false, waiters: usize::MAX };
    assert_eq!(m.perform(MutexAccess::AddWaiter), Reply::Count(usize::MAX));
    assert_eq!(m.waiters, 0);
    assert_eq!(m.perform(MutexAccess::RemoveWaiter), Reply::Count(0));
    assert_eq!(m.waiters, usize::MAX);
}

#[test]
fn perform_hands_back_the_previous_value() {
    let mut m = Mutex { locked: true, waiters: 7 };
    let swap = MutexAccess::SwapLocked { current: false, new: true, order: MemoryOrder::Acquire };
    assert_eq!(m.perform(swap), Reply::Flag(true));
    assert_eq!(m.perform(MutexAccess::LoadWaiters), Reply::Count(7));
    assert_eq!(m.perform(MutexAccess::Wait { expected: true }), Reply::Nothing);
    assert_eq!(m.perform(MutexAccess::Wake { width: Width::All }), Reply::Nothing);
    assert_eq!(m, Mutex { locked: true, waiters: 7 });
}

#[test]
fn a_reply_of_the_wrong_kind_moves_nothing() {
    assert_eq!(Lock::Swap.after(Reply::Count(1)), Lock::Swap);
    assert_eq!(Lock::Park.after(Reply::Flag(true)), Lock::Park);
    assert_eq!(Unlock::Swap.after(Reply::Nothing), Unlock::Swap);
    assert_eq!(Unlock::CheckWaiters.after(Reply::Flag(false)), Unlock::CheckWaiters);
    assert_eq!(TryLock::Swap.after(Reply::Nothing), TryLock::Swap);
}
