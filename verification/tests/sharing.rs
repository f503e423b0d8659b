use futex_locks::rwlock::{Read, WriteUnlock};
use futex_locks::sharing::{Plan, Task, Worker, Workload};

fn pseudo_random(seed: u64) -> impl FnMut(usize) -> usize {
    let mut state = seed;
    move |n| {
        state = state.wrapping_mul(6364136223846793005).wrapping_add(1442695040888963407);
        ((state >> 33) as usize) % n
    }
}

fn sleeping_readers_are_covered(w: &Workload) -> bool {
    let tasks: Vec<Task> = (0..w.threads()).map(|i| w.worker(i).unwrap().task).collect();
    let reader_sleeps = tasks.iter().any(|t| *t == Task::SleepingReader);
    let clearing = tasks.iter().any(|t| {
        *t == Task::WriteUnlocking(WriteUnlock::CheckWaiters)
            || *t == Task::WriteUnlocking(WriteUnlock::Wake)
    });
    !reader_sleeps || w.lock().users == usize::MAX || clearing
}

fn run(w: &mut Workload, mut pick: impl FnMut(usize) -> usize, limit: usize) {
    let n = w.threads();
    let mut steps = 0usize;
    let mut most_readers = 0;
    while !w.finished() {
        assert!(steps < limit, "the workload did not finish");
        for _ in 0..n {
            w.step(pick(n), (steps / 3) % n);
            steps += 1;
        }
        assert!(w.finished() || w.can_go_on());
        let writers = w.writers();
        let readers = w.readers();
        assert!(writers <= 1);
        assert!(writers == 0 || readers == 0);
        assert_eq!(w.lock().users == usize::MAX, writers == 1);
        assert!(!w.misread());
        assert!(sleeping_readers_are_covered(w));
        most_readers = most_readers.max(readers);
    }
    if n > 1 {
        assert!(most_readers > 1, "readers never shared the lock");
    }
    for i in 0..n {
        assert_eq!(w.worker(i), Some(Worker { task: Task::Done, rounds_left: 0 }));
    }
}

#[test]
fn fresh_sharing_workload() {
    let plan = Plan { rounds: 2, probe: true, start: 5 };
    let w = Workload::new(2, plan);
    assert_eq!(w.threads(), 2);
    assert_eq!(w.counter(), 5);
    assert_eq!(w.writers(), 0);
    assert_eq!(w.readers(), 0);
    assert!(!w.misread());
    assert_eq!(w.worker(0), Some(Worker { task: Task::ReadLocking(Read::Load), rounds_left: 2 }));
    assert_eq!(w.worker(2), None);
}

#[test]
fn one_worker_reads_twice_then_writes() {
    let plan = Plan { rounds: 1, probe: true, start: 5 };
    let mut w = Workload::new(1, plan);
    let mut users = vec![0usize];
    let mut steps = 0;
    while !w.finished() {
        w.step(0, 0);
        steps += 1;
        assert!(steps < 100);
        assert!(w.worker(0).unwrap().task != Task::Failed);
        if users.last() != Some(&w.lock().users) {
            users.push(w.lock().users);
        }
    }
    assert_eq!(users, vec![0, 1, 2, 1, 0, usize::MAX, 0]);
    assert_eq!(w.counter(), 6);
}

#[test]
fn hundred_threads_hundred_rounds_read_then_write() {
    let plan = Plan { rounds: 100, probe: true, start: 5 };
    let mut w = Workload::new(100, plan);
    run(&mut w, pseudo_random(5), 400_000_000);
    assert_eq!(w.counter(), 10005);
    assert_eq!(w.lock().users, 0);
    assert_eq!(w.lock().waiters, 0);
}

#[test]
fn hundred_threads_hundred_rounds_without_second_hold() {
    let plan = Plan { rounds: 100, probe: false, start: 5 };
    let mut w = Workload::new(100, plan);
    let mut next = 0usize;
    run(
        &mut w,
        move |n| {
            next = next.wrapping_add(1);
            next % n
        },
        400_000_000,
    );
    assert_eq!(w.counter(), 10005);
}

#[test]
fn step_of_a_missing_worker_leaves_the_lock_alone() {
    let plan = Plan { rounds: 1, probe: false, start: 1 };
    let mut w = Workload::new(1, plan);
    w.step(5, 0);
    assert_eq!(w.counter(), 1);
    assert_eq!(w.lock().users, 0);
}

#[test]
fn reader_sleeps_while_a_writer_holds_and_is_woken_with_all() {
    let plan = Plan { rounds: 1, probe: false, start: 0 };
    let mut w = Workload::new(3, plan);
    // Worker 0 reads, gives the read lock back and takes the write lock.
    while w.worker(0).unwrap().task != Task::Loading {
        w.step(0, 0);
    }
    assert_eq!(w.lock().users, usize::MAX);
    // Workers 1 and 2 find the writer, announce themselves and fall asleep.
    for who in 1..3 {
        for _ in 0..3 {
            w.step(who, 0);
        }
        assert_eq!(w.worker(who).unwrap().task, Task::SleepingReader);
    }
    assert_eq!(w.sleepers(), 2);
    assert_eq!(w.lock().waiters, 2);
    assert!(w.can_go_on());
    // The writer stores, frees the lock, sees the waiters and wakes all.
    while w.worker(0).unwrap().task != Task::Done {
        w.step(0, 1);
    }
    assert_eq!(w.sleepers(), 0);
    for who in 1..3 {
        assert_eq!(w.worker(who).unwrap().task, Task::ReadLocking(Read::Dequeue));
    }
    assert_eq!(w.counter(), 1);
}

#[test]
fn writer_sleeps_while_readers_hold_and_the_last_reader_wakes_one() {
    let plan = Plan { rounds: 1, probe: false, start: 0 };
    let mut w = Workload::new(3, plan);
    // Workers 1 and 2 take the lock as readers.
    for who in 1..3 {
        while w.worker(who).unwrap().task != Task::Peeking {
            w.step(who, 0);
        }
    }
    assert_eq!(w.lock().users, 2);
    // Worker 0 reads, leaves, and then finds the readers in its way.
    let mut steps = 0;
    while w.worker(0).unwrap().task != Task::SleepingWriter {
        w.step(0, 0);
        steps += 1;
        assert!(steps < 20);
    }
    assert_eq!(w.lock().users, 2);
    assert_eq!(w.lock().waiters, 1);
    // The first reader to leave is not the last and wakes nobody.
    while w.worker(1).unwrap().task != Task::WriteLocking(futex_locks::rwlock::Write::Swap) {
        w.step(1, 0);
        assert_eq!(w.worker(0).unwrap().task, Task::SleepingWriter);
    }
    assert_eq!(w.lock().users, 1);
    // The last reader to leave wakes the writer.
    while w.worker(2).unwrap().task != Task::WriteLocking(futex_locks::rwlock::Write::Swap) {
        w.step(2, 0);
    }
    assert_eq!(w.lock().users, 0);
    assert_eq!(
        w.worker(0).unwrap().task,
        Task::WriteLocking(futex_locks::rwlock::Write::Dequeue)
    );
    assert_eq!(w.sleepers(), 0);
}

#[test]
fn sharing_workers_that_wake_only_when_woken_all_finish() {
    for (seed, probe) in [(7u64, true), (31, false)] {
        let plan = Plan { rounds: 100, probe, start: 5 };
        let mut w = Workload::new(100, plan);
        let mut pick = pseudo_random(seed);
        let mut steps = 0usize;
        let mut slept = false;
        while !w.finished() {
            assert!(w.can_go_on(), "every worker that is left sleeps");
            assert!(steps < 400_000_000);
            let mut who = pick(100);
            loop {
                let task = w.worker(who).unwrap().task;
                if task != Task::SleepingReader
                    && task != Task::SleepingWriter
                    && task != Task::Done
                {
                    break;
                }
                who = (who + 1) % 100;
            }
            w.step(who, pick(100));
            slept = slept || w.sleepers() > 0;
            if steps % 64 == 0 {
                assert!(sleeping_readers_are_covered(&w));
            }
            steps += 1;
        }
        assert!(slept);
        assert_eq!(w.counter(), 10005);
        assert_eq!(w.sleepers(), 0);
        assert_eq!(w.lock().waiters, 0);
        assert!(!w.misread());
    }
}
