use futex_locks::access::{MemoryOrder, Reply, Width};
use futex_locks::cells::{
    load_ordering, mutex_access, ordering, reentrant_access, rw_access,
};
use futex_locks::mutex::{Lock, MutexAccess, TryLock, Unlock};
use futex_locks::reentrant::{Acquire, ReentrantAccess, Release};
use futex_locks::rwlock::{Read, ReadUnlock, RwAccess, Write, WriteUnlock, WRITER};
use std::sync::atomic::{AtomicU32, AtomicUsize, Ordering};

struct MutexCells {
    locked: AtomicU32,
    waiters: AtomicUsize,
}

impl MutexCells {
    fn new() -> MutexCells {
        MutexCells { locked: AtomicU32::new(0), waiters: AtomicUsize::new(0) }
    }

    fn locked_raw(&self) -> &AtomicU32 {
        &self.locked
    }

    fn perform(&self, access: MutexAccess) -> Option<Reply> {
        mutex_access(&self.locked, &self.waiters, access)
    }
}

struct ReentrantCells {
    locked: AtomicU32,
    waiters: AtomicUsize,
    owner: AtomicUsize,
    depth: AtomicUsize,
}

impl ReentrantCells {
    fn new() -> ReentrantCells {
        ReentrantCells {
            locked: AtomicU32::new(0),
            waiters: AtomicUsize::new(0),
            owner: AtomicUsize::new(0),
            depth: AtomicUsize::new(0),
        }
    }

    fn locked_raw(&self) -> &AtomicU32 {
        &self.locked
    }

    fn perform(&self, access: ReentrantAccess) -> Option<Reply> {
        reentrant_access(&self.locked, &self.waiters, &self.owner, &self.depth, access)
    }
}

struct RwCells {
    users: AtomicUsize,
    waiters: AtomicUsize,
}

impl RwCells {
    fn new() -> RwCells {
        RwCells { users: AtomicUsize::new(0), waiters: AtomicUsize::new(0) }
    }

    fn users_raw(&self) -> &AtomicUsize {
        &self.users
    }

    fn perform(&self, access: RwAccess) -> Option<Reply> {
        rw_access(&self.users, &self.waiters, access)
    }
}

fn mutex_reply(cells: &MutexCells, access: MutexAccess) -> Reply {
    cells.perform(access).unwrap_or(Reply::Nothing)
}

fn reentrant_reply(cells: &ReentrantCells, access: ReentrantAccess) -> Reply {
    cells.perform(access).unwrap_or(Reply::Nothing)
}

fn rw_reply(cells: &RwCells, access: RwAccess) -> Reply {
    cells.perform(access).unwrap_or(Reply::Nothing)
}

#[test]
fn orderings_map_one_to_one() {
    assert_eq!(ordering(MemoryOrder::Relaxed), Ordering::Relaxed);
    assert_eq!(ordering(MemoryOrder::Acquire), Ordering::Acquire);
    assert_eq!(ordering(MemoryOrder::Release), Ordering::Release);
    assert_eq!(load_ordering(MemoryOrder::Relaxed), Ordering::Relaxed);
    assert_eq!(load_ordering(MemoryOrder::Acquire), Ordering::Acquire);
    assert_eq!(load_ordering(MemoryOrder::Release), Ordering::Relaxed);
}

#[test]
fn mutex_cells_swap_and_count() {
    let cells = MutexCells::new();
    let take = MutexAccess::SwapLocked { current: false, new: true, order: MemoryOrder::Acquire };
    let give = MutexAccess::SwapLocked { current: true, new: false, order: MemoryOrder::Release };
    assert_eq!(cells.locked_raw().load(Ordering::SeqCst), 0);
    assert_eq!(cells.perform(take), Some(Reply::Flag(false)));
    assert_eq!(cells.locked_raw().load(Ordering::SeqCst), 1);
    assert_eq!(cells.perform(take), Some(Reply::Flag(true)));
    assert_eq!(cells.perform(MutexAccess::LoadWaiters), Some(Reply::Count(0)));
    assert_eq!(cells.perform(MutexAccess::AddWaiter), Some(Reply::Count(0)));
    assert_eq!(cells.perform(MutexAccess::AddWaiter), Some(Reply::Count(1)));
    assert_eq!(cells.perform(MutexAccess::RemoveWaiter), Some(Reply::Count(2)));
    assert_eq!(cells.perform(MutexAccess::LoadWaiters), Some(Reply::Count(1)));
    assert_eq!(cells.perform(give), Some(Reply::Flag(true)));
    assert_eq!(cells.perform(give), Some(Reply::Flag(false)));
    assert_eq!(cells.locked_raw().load(Ordering::SeqCst), 0);
}

#[test]
fn cells_leave_wait_and_wake_to_the_caller() {
    let cells = MutexCells::new();
    assert_eq!(cells.perform(MutexAccess::Wait { expected: true }), None);
    assert_eq!(cells.perform(MutexAccess::Wake { width: Width::One }), None);
    let cells = ReentrantCells::new();
    assert_eq!(cells.perform(ReentrantAccess::Wait { expected: true }), None);
    assert_eq!(cells.perform(ReentrantAccess::Wake { width: Width::One }), None);
    let cells = RwCells::new();
    assert_eq!(cells.perform(RwAccess::Wait { expected: 3 }), None);
    assert_eq!(cells.perform(RwAccess::Wake { width: Width::All }), None);
}

#[test]
fn mutex_on_cells_locks_and_unlocks() {
    let cells = MutexCells::new();
    let mut stage = Lock::start();
    while let Some(access) = stage.access() {
        stage = stage.after(mutex_reply(&cells, access));
    }
    assert_eq!(stage, Lock::Held);
    let probe = TryLock::start();
    assert_eq!(probe.after(mutex_reply(&cells, probe.access().unwrap())), TryLock::Busy);
    let mut stage = Unlock::start();
    while let Some(access) = stage.access() {
        stage = stage.after(mutex_reply(&cells, access));
    }
    assert_eq!(stage, Unlock::Released);
    let mut stage = Unlock::start();
    while let Some(access) = stage.access() {
        stage = stage.after(mutex_reply(&cells, access));
    }
    assert_eq!(stage, Unlock::NotLocked);
    let probe = TryLock::start();
    assert_eq!(probe.after(mutex_reply(&cells, probe.access().unwrap())), TryLock::Acquired);
}

#[test]
fn reentrant_cells_keep_owner_and_depth() {
    let cells = ReentrantCells::new();
    assert_eq!(cells.perform(ReentrantAccess::LoadOwner), Some(Reply::Owner(None)));
    assert_eq!(
        cells.perform(ReentrantAccess::StoreOwner { owner: Some(77) }),
        Some(Reply::Nothing)
    );
    assert_eq!(cells.perform(ReentrantAccess::LoadOwner), Some(Reply::Owner(Some(77))));
    assert_eq!(cells.perform(ReentrantAccess::StoreOwner { owner: None }), Some(Reply::Nothing));
    assert_eq!(cells.perform(ReentrantAccess::LoadOwner), Some(Reply::Owner(None)));
    assert_eq!(cells.perform(ReentrantAccess::StoreDepth { depth: 4 }), Some(Reply::Nothing));
    assert_eq!(cells.perform(ReentrantAccess::LoadDepth), Some(Reply::Count(4)));
    assert_eq!(cells.locked_raw().load(Ordering::SeqCst), 0);
}

#[test]
fn reentrant_mutex_on_cells_nests() {
    let cells = ReentrantCells::new();
    let me = 5usize;
    for depth in 0..3usize {
        let mut stage = Acquire::start();
        while let Some(access) = stage.access(me) {
            stage = stage.after(me, depth % 2 == 0, reentrant_reply(&cells, access));
        }
        assert_eq!(stage, Acquire::Held);
        assert_eq!(cells.perform(ReentrantAccess::LoadDepth), Some(Reply::Count(depth)));
    }
    let mut stage = Acquire::start();
    while let Some(access) = stage.access(6) {
        stage = stage.after(6, false, reentrant_reply(&cells, access));
    }
    assert_eq!(stage, Acquire::Busy);
    let mut ends = vec![];
    for _ in 0..4 {
        let mut stage = Release::start();
        while let Some(access) = stage.access() {
            stage = stage.after(me, reentrant_reply(&cells, access));
        }
        ends.push(stage);
    }
    assert_eq!(
        ends,
        vec![Release::StillHeld, Release::StillHeld, Release::Released, Release::NotOwner]
    );
}

#[test]
fn rwlock_on_cells_counts_readers_and_admits_one_writer() {
    let cells = RwCells::new();
    for readers in 1..=3usize {
        let mut stage = Read::start();
        while let Some(access) = stage.access() {
            stage = stage.after(false, rw_reply(&cells, access));
        }
        assert_eq!(stage, Read::Reading);
        assert_eq!(cells.users_raw().load(Ordering::SeqCst), readers);
    }
    let w = Write::start();
    assert_eq!(w.after(false, rw_reply(&cells, w.access().unwrap())), Write::Busy);
    for _ in 0..3 {
        let mut stage = ReadUnlock::start();
        while let Some(access) = stage.access() {
            stage = stage.after(rw_reply(&cells, access));
        }
        assert_eq!(stage, ReadUnlock::Released);
    }
    assert_eq!(w.after(false, rw_reply(&cells, w.access().unwrap())), Write::Writing);
    assert_eq!(cells.users_raw().load(Ordering::SeqCst), WRITER);
    let mut stage = Read::start();
    while let Some(access) = stage.access() {
        stage = stage.after(false, rw_reply(&cells, access));
    }
    assert_eq!(stage, Read::Busy);
    let mut stage = WriteUnlock::start();
    while let Some(access) = stage.access() {
        stage = stage.after(rw_reply(&cells, access));
    }
    assert_eq!(stage, WriteUnlock::Released);
    assert_eq!(cells.users_raw().load(Ordering::SeqCst), 0);
}

#[test]
fn lock_word_is_one_for_held_and_zero_for_free() {
    assert_eq!(futex_locks::cells::flag_word(true), 1);
    assert_eq!(futex_locks::cells::flag_word(false), 0);
}

#[test]
fn what_a_swap_found_is_read_from_either_outcome() {
    assert!(!futex_locks::cells::flag_found(Ok(0)));
    assert!(futex_locks::cells::flag_found(Ok(1)));
    assert!(!futex_locks::cells::flag_found(Err(0)));
    assert!(futex_locks::cells::flag_found(Err(1)));
    assert!(futex_locks::cells::flag_found(Err(7)));
    assert_eq!(futex_locks::cells::count_found(Ok(3)), 3);
    assert_eq!(futex_locks::cells::count_found(Err(usize::MAX)), usize::MAX);
    assert_eq!(futex_locks::cells::count_found(Err(0)), 0);
}
