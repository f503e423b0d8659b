use futex_locks::nesting::{Plan, Task, Worker, Workload};
use futex_locks::reentrant::Acquire;

fn pseudo_random(seed: u64) -> impl FnMut(usize) -> usize {
    let mut state = seed;
    move |n| {
        state = state.wrapping_mul(6364136223846793005).wrapping_add(1442695040888963407);
        ((state >> 33) as usize) % n
    }
}

fn run(w: &mut Workload, mut pick: impl FnMut(usize) -> usize, limit: usize) {
    let n = w.threads();
    let mut steps = 0usize;
    while !w.finished() {
        assert!(steps < limit, "the workload did not finish");
        for _ in 0..n {
            w.step(pick(n), (steps / 3) % n);
            steps += 1;
        }
        assert!(w.finished() || w.can_go_on());
        assert!(w.holders() <= 1);
        assert_eq!(w.mutex().locked, w.holders() == 1);
    }
    for i in 0..n {
        assert_eq!(w.worker(i), Some(Worker { task: Task::Done, level: 0, rounds_left: 0 }));
    }
}

#[test]
fn fresh_nesting_workload() {
    let plan = Plan { rounds: 2, depth: 3, patient: true, start: 5 };
    let w = Workload::new(2, plan);
    assert_eq!(w.threads(), 2);
    assert_eq!(w.counter(), 5);
    assert_eq!(w.holders(), 0);
    assert_eq!(
        w.worker(1),
        Some(Worker { task: Task::Acquiring(Acquire::Swap), level: 0, rounds_left: 2 })
    );
    assert_eq!(w.worker(2), None);
    assert!(!w.finished());
    assert!(Workload::new(3, Plan { rounds: 0, depth: 1, patient: true, start: 0 }).finished());
}

#[test]
fn one_worker_nests_twice_and_unwinds() {
    let plan = Plan { rounds: 1, depth: 2, patient: false, start: 5 };
    let mut w = Workload::new(1, plan);
    let mut levels = vec![];
    let mut steps = 0;
    while !w.finished() {
        w.step(0, 0);
        steps += 1;
        assert!(steps < 100);
        let worker = w.worker(0).unwrap();
        assert!(worker.task != Task::Failed);
        if levels.last() != Some(&worker.level) {
            levels.push(worker.level);
        }
    }
    assert_eq!(levels, vec![0, 1, 2, 1, 0]);
    assert_eq!(w.counter(), 7);
    assert!(!w.mutex().locked);
    assert_eq!(w.mutex().owner, None);
}

#[test]
fn hundred_threads_hundred_rounds_acquiring_twice_with_lock() {
    let plan = Plan { rounds: 100, depth: 2, patient: true, start: 5 };
    let mut w = Workload::new(100, plan);
    run(&mut w, pseudo_random(11), 400_000_000);
    assert_eq!(w.counter(), 20005);
    assert!(!w.mutex().locked);
    assert_eq!(w.mutex().waiters, 0);
}

#[test]
fn hundred_threads_hundred_rounds_acquiring_twice_with_try_lock() {
    let plan = Plan { rounds: 100, depth: 2, patient: false, start: 5 };
    let mut w = Workload::new(100, plan);
    let mut next = 0usize;
    run(
        &mut w,
        move |n| {
            next = next.wrapping_add(1);
            next % n
        },
        400_000_000,
    );
    assert_eq!(w.counter(), 20005);
}

#[test]
fn three_acquisitions_per_round() {
    let plan = Plan { rounds: 10, depth: 3, patient: false, start: 0 };
    let mut w = Workload::new(9, plan);
    run(&mut w, pseudo_random(3), 50_000_000);
    assert_eq!(w.counter(), 9 * 10 * 3);
}

#[test]
fn step_of_a_missing_worker_changes_nothing_here_either() {
    let plan = Plan { rounds: 1, depth: 1, patient: true, start: 1 };
    let mut w = Workload::new(1, plan);
    w.step(1, 0);
    assert_eq!(w.counter(), 1);
    assert_eq!(w.holders(), 0);
}

#[test]
fn nesting_workers_that_wake_only_when_woken_all_finish() {
    for (seed, patient) in [(5u64, true), (23, false)] {
        let plan = Plan { rounds: 50, depth: 3, patient, start: 5 };
        let mut w = Workload::new(40, plan);
        let mut pick = pseudo_random(seed);
        let mut steps = 0usize;
        let mut slept = false;
        while !w.finished() {
            assert!(w.can_go_on(), "every worker that is left sleeps");
            assert!(steps < 400_000_000);
            let mut who = pick(40);
            loop {
                let task = w.worker(who).unwrap().task;
                if task != Task::Sleeping && task != Task::Done {
                    break;
                }
                who = (who + 1) % 40;
            }
            w.step(who, pick(40));
            slept = slept || w.sleepers() > 0;
            steps += 1;
        }
        assert!(slept);
        assert_eq!(w.counter(), 5 + 40 * 50 * 3);
        assert_eq!(w.sleepers(), 0);
        assert_eq!(w.mutex().waiters, 0);
    }
}

#[test]
fn holder_never_sleeps_on_its_own_mutex() {
    let plan = Plan { rounds: 1, depth: 4, patient: true, start: 0 };
    let mut w = Workload::new(1, plan);
    while !w.finished() {
        w.step(0, 0);
        assert_eq!(w.sleepers(), 0);
        assert!(w.worker(0).unwrap().task != Task::Failed);
    }
    assert_eq!(w.counter(), 4);
}
