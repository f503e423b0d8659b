use futex_locks::contention::{Task, Worker, Workload};
use futex_locks::mutex::Lock;

fn run(w: &mut Workload, mut pick: impl FnMut(usize) -> usize, limit: usize) -> usize {
    let n = w.threads();
    let mut steps = 0;
    while !w.finished() {
        assert!(steps < limit, "the workload did not finish");
        for _ in 0..n {
            let who = pick(n);
            let wakes = (steps / 3) % n;
            w.step(who, wakes);
            steps += 1;
        }
        assert!(w.finished() || w.can_go_on());
        assert!(w.holders() <= 1);
        assert_eq!(w.mutex().locked, w.holders() == 1);
        assert!(!w.reentered());
    }
    steps
}

fn round_robin() -> impl FnMut(usize) -> usize {
    let mut next = 0usize;
    move |n| {
        let who = next % n;
        next = next.wrapping_add(1);
        who
    }
}

fn pseudo_random(seed: u64) -> impl FnMut(usize) -> usize {
    let mut state = seed;
    move |n| {
        state = state.wrapping_mul(6364136223846793005).wrapping_add(1442695040888963407);
        ((state >> 33) as usize) % n
    }
}

#[test]
fn fresh_workload_has_every_worker_at_the_first_swap() {
    let w = Workload::new(3, 2, 5, true);
    assert_eq!(w.threads(), 3);
    assert_eq!(w.counter(), 5);
    assert!(!w.finished());
    assert_eq!(w.holders(), 0);
    for i in 0..3 {
        assert_eq!(w.worker(i), Some(Worker { task: Task::Locking(Lock::Swap), rounds_left: 2 }));
    }
    assert_eq!(w.worker(3), None);
}

#[test]
fn workload_without_rounds_is_finished_at_once() {
    let w = Workload::new(4, 0, 9, true);
    assert!(w.finished());
    assert_eq!(w.counter(), 9);
}

#[test]
fn step_of_a_missing_worker_changes_nothing() {
    let mut w = Workload::new(2, 1, 5, true);
    w.step(2, 0);
    w.step(usize::MAX, 0);
    assert_eq!(w.counter(), 5);
    assert_eq!(w.holders(), 0);
    assert_eq!(w.worker(0), Some(Worker { task: Task::Locking(Lock::Swap), rounds_left: 1 }));
}

#[test]
fn one_worker_one_round_step_by_step() {
    let mut w = Workload::new(1, 1, 5, true);
    w.step(0, 0);
    assert_eq!(w.worker(0).unwrap().task, Task::Reading);
    assert!(w.mutex().locked);
    w.step(0, 0);
    assert_eq!(w.worker(0).unwrap().task, Task::Writing { seen: 5 });
    w.step(0, 0);
    assert_eq!(w.worker(0).unwrap().task, Task::Probing);
    assert_eq!(w.counter(), 6);
    w.step(0, 0);
    assert!(!w.reentered());
    assert_eq!(w.holders(), 1);
    w.step(0, 0);
    assert!(!w.mutex().locked);
    assert_eq!(w.holders(), 0);
    w.step(0, 0);
    assert!(w.finished());
    assert_eq!(w.worker(0), Some(Worker { task: Task::Done, rounds_left: 0 }));
    w.step(0, 0);
    assert_eq!(w.counter(), 6);
}

#[test]
fn second_worker_sleeps_while_the_first_holds() {
    let mut w = Workload::new(2, 1, 0, true);
    w.step(0, 0);
    w.step(1, 0);
    assert_eq!(w.worker(1).unwrap().task, Task::Locking(Lock::Enqueue));
    w.step(1, 0);
    assert_eq!(w.worker(1).unwrap().task, Task::Locking(Lock::Park));
    assert_eq!(w.mutex().waiters, 1);
    w.step(1, 0);
    assert_eq!(w.worker(1).unwrap().task, Task::Sleeping);
    assert_eq!(w.sleepers(), 1);
    assert_eq!(w.mutex().waiters, 1);
    assert!(w.can_go_on());
    // For no reason the sleeper wakes, finds the mutex held, and sleeps again.
    w.step(1, 0);
    assert_eq!(w.worker(1).unwrap().task, Task::Locking(Lock::Dequeue));
    w.step(1, 0);
    assert_eq!(w.worker(1).unwrap().task, Task::Locking(Lock::Swap));
    assert_eq!(w.mutex().waiters, 0);
    w.step(1, 0);
    w.step(1, 0);
    w.step(1, 0);
    assert_eq!(w.worker(1).unwrap().task, Task::Sleeping);
    assert_eq!(w.holders(), 1);
}

#[test]
fn unlock_wakes_the_sleeper() {
    let mut w = Workload::new(2, 1, 0, false);
    w.step(0, 0);
    for _ in 0..3 {
        w.step(1, 0);
    }
    assert_eq!(w.worker(1).unwrap().task, Task::Sleeping);
    // Worker 0: load, store, swap, check the waiters, wake.
    for _ in 0..4 {
        w.step(0, 0);
        assert_eq!(w.worker(1).unwrap().task, Task::Sleeping);
    }
    assert_eq!(w.worker(0).unwrap().task, Task::Unlocking(futex_locks::mutex::Unlock::Wake));
    w.step(0, 0);
    assert_eq!(w.worker(0).unwrap().task, Task::Done);
    assert_eq!(w.worker(1).unwrap().task, Task::Locking(Lock::Dequeue));
    assert_eq!(w.sleepers(), 0);
    while !w.finished() {
        assert!(w.can_go_on());
        w.step(1, 0);
    }
    assert_eq!(w.counter(), 2);
}

#[test]
fn a_wait_on_a_free_mutex_returns_at_once() {
    let mut w = Workload::new(2, 1, 0, false);
    w.step(0, 0);
    w.step(1, 0);
    assert_eq!(w.worker(1).unwrap().task, Task::Locking(Lock::Enqueue));
    // Worker 0 runs to its end before worker 1 has announced itself.
    while w.worker(0).unwrap().task != Task::Done {
        w.step(0, 0);
    }
    assert!(!w.mutex().locked);
    w.step(1, 0);
    assert_eq!(w.worker(1).unwrap().task, Task::Locking(Lock::Park));
    w.step(1, 0);
    assert_eq!(w.worker(1).unwrap().task, Task::Locking(Lock::Dequeue));
    assert_eq!(w.sleepers(), 0);
}

#[test]
fn the_kernel_wakes_the_sleeper_it_picks() {
    let mut w = Workload::new(4, 1, 0, false);
    w.step(0, 0);
    for who in 1..4 {
        for _ in 0..3 {
            w.step(who, 0);
        }
        assert_eq!(w.worker(who).unwrap().task, Task::Sleeping);
    }
    assert_eq!(w.sleepers(), 3);
    for _ in 0..4 {
        w.step(0, 2);
    }
    w.step(0, 2);
    assert_eq!(w.worker(1).unwrap().task, Task::Sleeping);
    assert_eq!(w.worker(2).unwrap().task, Task::Locking(Lock::Dequeue));
    assert_eq!(w.worker(3).unwrap().task, Task::Sleeping);
    assert_eq!(w.sleepers(), 2);
}

#[test]
fn sleepers_that_wake_only_when_woken_all_finish() {
    for seed in [3u64, 17, 4242] {
        let mut w = Workload::new(100, 100, 5, seed % 2 == 1);
        let mut pick = pseudo_random(seed);
        let mut steps = 0usize;
        while !w.finished() {
            assert!(w.can_go_on(), "every worker that is left sleeps");
            assert!(steps < 400_000_000);
            let mut who = pick(100);
            loop {
                let task = w.worker(who).unwrap().task;
                if task != Task::Sleeping && task != Task::Done {
                    break;
                }
                who = (who + 1) % 100;
            }
            w.step(who, pick(100));
            steps += 1;
        }
        assert_eq!(w.counter(), 10005);
        assert_eq!(w.sleepers(), 0);
        assert_eq!(w.mutex().waiters, 0);
    }
}

#[test]
fn hundred_threads_hundred_rounds_round_robin() {
    let mut w = Workload::new(100, 100, 5, true);
    run(&mut w, round_robin(), 50_000_000);
    assert_eq!(w.counter(), 10005);
    assert!(!w.reentered());
    assert!(!w.mutex().locked);
    assert_eq!(w.mutex().waiters, 0);
}

#[test]
fn hundred_threads_hundred_rounds_pseudo_random() {
    for seed in [1u64, 0xdead_beef, 42] {
        let mut w = Workload::new(100, 100, 5, true);
        run(&mut w, pseudo_random(seed), 200_000_000);
        assert_eq!(w.counter(), 10005);
        assert!(!w.reentered());
        assert!(!w.mutex().locked);
        assert_eq!(w.mutex().waiters, 0);
    }
}

#[test]
fn no_worker_ever_fails() {
    let mut w = Workload::new(7, 13, 0, true);
    let mut pick = pseudo_random(7);
    let mut steps = 0;
    while !w.finished() {
        assert!(steps < 10_000_000);
        w.step(pick(7), 0);
        steps += 1;
        for i in 0..7 {
            assert!(w.worker(i).unwrap().task != Task::Failed);
        }
    }
    assert_eq!(w.counter(), 7 * 13);
}

#[test]
fn workload_without_probe_goes_from_store_to_unlock() {
    let mut w = Workload::new(1, 1, 5, false);
    w.step(0, 0);
    w.step(0, 0);
    w.step(0, 0);
    assert_eq!(w.counter(), 6);
    assert_eq!(
        w.worker(0).unwrap().task,
        Task::Unlocking(futex_locks::mutex::Unlock::Swap)
    );
    w.step(0, 0);
    w.step(0, 0);
    assert!(w.finished());
}

#[test]
fn hundred_threads_hundred_rounds_without_probe() {
    let mut w = Workload::new(100, 100, 5, false);
    run(&mut w, pseudo_random(99), 200_000_000);
    assert_eq!(w.counter(), 10005);
    assert!(!w.mutex().locked);
}
