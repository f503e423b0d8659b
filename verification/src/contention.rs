//! Threads that contend for one mutex to increment a shared counter.
//!
//! Every worker repeats the same round: it takes the mutex, loads the counter,
//! stores the loaded value plus one, where the workload asks for it tries
//! the mutex once more (which must fail: the mutex is not reentrant), and
//! releases it. A step of the workload
//! is one atomic access of one worker, so a schedule (the order in which the
//! workers take their steps) is an interleaving of the threads.
//!
//! The kernel is part of the workload. A worker whose access is a wait falls
//! asleep iff the lock word still holds what the wait expects, and sleeps
//! until a wake-up picks it, or until it wakes for no reason, which the
//! kernel allows. A wake-up wakes one sleeper of the kernel's choice, or all
//! of them. The laws at the end hold for every schedule and every choice of
//! the kernel.

use vstd::prelude::*;
use crate::access::{Turn, Width};
use crate::mutex::{Lock, Mutex, MutexAccess, TryLock, Unlock};
use crate::tally::{
    lemma_sum_bounds, lemma_sum_covers_one, lemma_sum_covers_two, lemma_sum_dominates,
    lemma_sum_has_positive, lemma_sum_update, sum,
};

verus! {

/// What a worker does next.
#[derive(Clone, Copy, Debug, PartialEq, Eq)]
pub enum Task {
    /// Inside `lock`, at the given stage (never `Held`).
    Locking(Lock),
    /// Inside `lock`, asleep in the kernel until the lock word is woken on.
    Sleeping,
    /// Holds the mutex; about to load the counter.
    Reading,
    /// Holds the mutex; about to store `seen + 1` to the counter.
    Writing { seen: u64 },
    /// Holds the mutex; about to call `try_lock` on it again.
    Probing,
    /// Inside `unlock`, at the given stage (never one of its two ends).
    Unlocking(Unlock),
    /// All rounds are done.
    Done,
    /// `unlock` found the mutex unlocked: the fatal end.
    Failed,
}

/// One thread of the workload.
#[derive(Clone, Copy, Debug, PartialEq, Eq)]
pub struct Worker {
    /// What the thread does next.
    pub task: Task,
    /// The rounds that the thread has not completed yet.
    pub rounds_left: usize,
}

/// The workload: the mutex, the counter that it guards, and the workers.
pub struct Workload {
    probe: bool,
    mutex: Mutex,
    counter: u64,
    reentered: bool,
    workers: Vec<Worker>,
}

/// The state of a workload as a mathematical value.
pub struct Snapshot {
    /// Whether a worker tries the mutex once more while it holds it.
    pub probe: bool,
    /// The words of the mutex.
    pub mutex: Mutex,
    /// The guarded counter.
    pub counter: u64,
    /// Whether a worker that held the mutex ever took it a second time.
    pub reentered: bool,
    /// The workers, by thread index.
    pub workers: Seq<Worker>,
}

/// A quantity that is summed over the workers.
pub enum Tally {
    /// 1 for a worker between taking the mutex and giving it back.
    Inside,
    /// 1 for a worker that is counted in `waiters`.
    Announced,
    /// 1 for a worker that is asleep in the kernel.
    Sleeping,
    /// 1 for a worker that has a step to take: not done and not asleep.
    Active,
    /// The increments that a worker of `rounds` rounds has made so far.
    Credited { rounds: nat },
}

/// `n + 1` as the workers compute it.
pub open spec fn next_count(n: u64) -> u64 {
    if n == u64::MAX {
        0
    } else {
        (n + 1) as u64
    }
}

/// Whether the worker is between taking the mutex and giving it back.
pub open spec fn inside(w: Worker) -> bool {
    match w.task {
        Task::Reading => true,
        Task::Writing { .. } => true,
        Task::Probing => true,
        Task::Unlocking(stage) => stage is Swap,
        _ => false,
    }
}

/// Whether the worker has a step to take: it is not done, has not failed,
/// and is not asleep.
pub open spec fn active(w: Worker) -> bool {
    !(w.task is Done) && !(w.task is Failed) && !(w.task is Sleeping)
}

/// Whether a worker at `stage` of `lock` falls asleep: its access is a wait,
/// and the lock word still holds what the wait expects.
pub open spec fn falls_asleep(stage: Lock, m: Mutex) -> bool {
    stage.request() matches Some(MutexAccess::Wait { expected }) && m.locked == expected
}

/// The width of the wake-up that a worker at `stage` of `unlock` makes, if
/// its access is one.
pub open spec fn wake_width(stage: Unlock) -> Option<Width> {
    match stage.request() {
        Some(MutexAccess::Wake { width }) => Some(width),
        _ => None,
    }
}

/// The first sleeper, if there is one.
pub open spec fn first_sleeper(workers: Seq<Worker>) -> Option<int>
    decreases workers.len(),
{
    if workers.len() == 0 {
        None
    } else {
        match first_sleeper(workers.drop_last()) {
            Some(i) => Some(i),
            None => if workers.last().task is Sleeping {
                Some(workers.len() - 1)
            } else {
                None
            },
        }
    }
}

/// The sleeper that a wake-up of one wakes: the one that the kernel picks,
/// or the first where it picks none; none where nobody sleeps.
pub open spec fn woken_one(workers: Seq<Worker>, pick: int) -> Option<int> {
    if 0 <= pick < workers.len() && workers[pick].task is Sleeping {
        Some(pick)
    } else {
        first_sleeper(workers)
    }
}

/// A worker as it is once it has been woken.
pub open spec fn awake(w: Worker) -> Worker {
    if w.task is Sleeping {
        Worker { task: Task::Locking(Lock::Dequeue), rounds_left: w.rounds_left }
    } else {
        w
    }
}

/// The workers after a wake-up of the given width, if there is one.
pub open spec fn after_wake(workers: Seq<Worker>, width: Option<Width>, pick: int) -> Seq<Worker> {
    match width {
        None => workers,
        Some(Width::One) => match woken_one(workers, pick) {
            Some(k) => workers.update(k, awake(workers[k])),
            None => workers,
        },
        Some(Width::All) => Seq::new(workers.len(), |i: int| awake(workers[i])),
    }
}

/// What one worker contributes to a tally.
pub open spec fn weight(tally: Tally, w: Worker) -> int {
    match tally {
        Tally::Inside => if inside(w) {
            1
        } else {
            0
        },
        Tally::Announced => match w.task {
            Task::Locking(Lock::Park) => 1,
            Task::Sleeping => 1,
            Task::Locking(Lock::Dequeue) => 1,
            _ => 0,
        },
        Tally::Sleeping => if w.task is Sleeping {
            1
        } else {
            0
        },
        Tally::Active => if active(w) {
            1
        } else {
            0
        },
        Tally::Credited { rounds } => rounds - w.rounds_left + match w.task {
            Task::Probing => 1int,
            Task::Unlocking(_) => 1int,
            _ => 0int,
        },
    }
}

/// What each worker contributes to a tally, by thread index.
pub open spec fn weights(tally: Tally, workers: Seq<Worker>) -> Seq<int> {
    Seq::new(workers.len(), |i: int| weight(tally, workers[i]))
}

/// The sum of a tally over the workers.
pub open spec fn total(tally: Tally, workers: Seq<Worker>) -> int {
    sum(weights(tally, workers))
}

/// The task that follows one step of `lock` that led to `next`.
pub open spec fn task_after_lock(next: Lock) -> Task {
    if next is Held {
        Task::Reading
    } else {
        Task::Locking(next)
    }
}

/// The worker after one step of `unlock` that led to `next`.
pub open spec fn worker_after_unlock(w: Worker, next: Unlock) -> Worker {
    match next {
        Unlock::Released => if w.rounds_left <= 1 {
            Worker { task: Task::Done, rounds_left: 0 }
        } else {
            Worker { task: Task::Locking(Lock::Swap), rounds_left: (w.rounds_left - 1) as usize }
        },
        Unlock::NotLocked => Worker { task: Task::Failed, rounds_left: w.rounds_left },
        _ => Worker { task: Task::Unlocking(next), rounds_left: w.rounds_left },
    }
}

impl Snapshot {
    /// The workload before any step: `threads` workers that each have
    /// `rounds` rounds to go, a free mutex, and the counter at `start`;
    /// `probe` says whether a worker tries the mutex once more while it
    /// holds it.
    pub open spec fn fresh(threads: nat, rounds: usize, start: u64, probe: bool) -> Snapshot {
        Snapshot {
            probe,
            mutex: Mutex { locked: false, waiters: 0 },
            counter: start,
            reentered: false,
            workers: Seq::new(
                threads,
                |i: int|
                    Worker {
                        task: if rounds == 0 {
                            Task::Done
                        } else {
                            Task::Locking(Lock::Swap)
                        },
                        rounds_left: rounds,
                    },
            ),
        }
    }

    /// The workload after the worker of the turn has taken its next step,
    /// which is one atomic access. A worker that is done, and an index that
    /// names no worker, change nothing. A sleeper that takes a step has
    /// woken for no reason.
    pub open spec fn step(self, turn: Turn) -> Snapshot {
        let who = turn.who;
        if 0 <= who < self.workers.len() {
            let w = self.workers[who];
            match w.task {
                Task::Locking(stage) => {
                    if falls_asleep(stage, self.mutex) {
                        let moved = Worker { task: Task::Sleeping, rounds_left: w.rounds_left };
                        Snapshot { workers: self.workers.update(who, moved), ..self }
                    } else {
                        let (next, mutex) = stage.step(self.mutex);
                        let moved = Worker {
                            task: task_after_lock(next),
                            rounds_left: w.rounds_left,
                        };
                        Snapshot { mutex, workers: self.workers.update(who, moved), ..self }
                    }
                },
                Task::Sleeping => Snapshot {
                    workers: self.workers.update(who, awake(w)),
                    ..self
                },
                Task::Reading => {
                    let moved = Worker {
                        task: Task::Writing { seen: self.counter },
                        rounds_left: w.rounds_left,
                    };
                    Snapshot { workers: self.workers.update(who, moved), ..self }
                },
                Task::Writing { seen } => {
                    let moved = Worker {
                        task: if self.probe {
                            Task::Probing
                        } else {
                            Task::Unlocking(Unlock::Swap)
                        },
                        rounds_left: w.rounds_left,
                    };
                    Snapshot {
                        counter: next_count(seen),
                        workers: self.workers.update(who, moved),
                        ..self
                    }
                },
                Task::Probing => {
                    let (probe, mutex) = (TryLock::Swap).step(self.mutex);
                    let moved = Worker {
                        task: Task::Unlocking(Unlock::Swap),
                        rounds_left: w.rounds_left,
                    };
                    Snapshot {
                        mutex,
                        reentered: self.reentered || probe is Acquired,
                        workers: self.workers.update(who, moved),
                        ..self
                    }
                },
                Task::Unlocking(stage) => {
                    let (next, mutex) = stage.step(self.mutex);
                    let moved = self.workers.update(who, worker_after_unlock(w, next));
                    Snapshot {
                        mutex,
                        workers: after_wake(moved, wake_width(stage), turn.wakes),
                        ..self
                    }
                },
                Task::Done => self,
                Task::Failed => self,
            }
        } else {
            self
        }
    }

    /// The workload after the workers have taken their steps in the order
    /// that `schedule` gives.
    pub open spec fn run(self, schedule: Seq<Turn>) -> Snapshot
        decreases schedule.len(),
    {
        if schedule.len() == 0 {
            self
        } else {
            self.run(schedule.drop_last()).step(schedule.last())
        }
    }

    /// Whether some worker has a step to take.
    pub open spec fn can_go_on(self) -> bool {
        exists|i: int| 0 <= i < self.workers.len() && active(#[trigger] self.workers[i])
    }

    /// Whether every worker has completed all its rounds.
    pub open spec fn all_done(self) -> bool {
        forall|i: int| 0 <= i < self.workers.len() ==> (#[trigger] self.workers[i]).task is Done
    }

    /// Whether worker `who` is between taking the mutex and giving it back.
    pub open spec fn holds(self, who: int) -> bool {
        0 <= who < self.workers.len() && inside(self.workers[who])
    }

    /// What holds of one worker in every reachable state.
    pub open spec fn worker_ok(w: Worker, rounds: usize) -> bool {
        &&& w.rounds_left <= rounds
        &&& (w.task is Done <==> w.rounds_left == 0)
        &&& !(w.task is Failed)
        &&& !(w.task matches Task::Locking(Lock::Held))
        &&& !(w.task matches Task::Unlocking(Unlock::Released))
        &&& !(w.task matches Task::Unlocking(Unlock::NotLocked))
    }

    /// What holds of the mutex and the workers in every state that a
    /// workload of `rounds` rounds per worker can reach: the mutex is locked
    /// iff exactly one worker is inside, nobody else is, `waiters` counts
    /// the workers that announced themselves, and where a worker sleeps
    /// another has a step to take.
    pub open spec fn exclusive(self, rounds: usize) -> bool {
        &&& self.workers.len() <= usize::MAX
        &&& forall|i: int|
            0 <= i < self.workers.len() ==> Self::worker_ok(#[trigger] self.workers[i], rounds)
        &&& total(Tally::Inside, self.workers) == if self.mutex.locked {
            1int
        } else {
            0int
        }
        &&& total(Tally::Announced, self.workers) == self.mutex.waiters
        &&& total(Tally::Sleeping, self.workers) > 0 ==> total(Tally::Active, self.workers) > 0
        &&& !self.reentered
    }

    /// What holds of the counter in every state that a workload of `rounds`
    /// rounds per worker, started with the counter at `start`, can reach: the
    /// counter has every increment made so far, and whoever is about to
    /// store has loaded its present value.
    pub open spec fn counted(self, rounds: usize, start: u64) -> bool {
        &&& start + self.workers.len() * rounds <= u64::MAX
        &&& forall|i: int|
            0 <= i < self.workers.len() ==> (#[trigger] self.workers[i].task matches Task::Writing {
                seen,
            } ==> seen == self.counter)
        &&& self.counter == start + total(Tally::Credited { rounds: rounds as nat }, self.workers)
    }
}

impl View for Workload {
    type V = Snapshot;

    closed spec fn view(&self) -> Snapshot {
        Snapshot {
            probe: self.probe,
            mutex: self.mutex,
            counter: self.counter,
            reentered: self.reentered,
            workers: self.workers@,
        }
    }
}

impl Workload {
    /// A workload of `threads` workers that each have `rounds` rounds to go,
    /// with a free mutex and the counter at `start`; `probe` says whether a
    /// worker tries the mutex once more while it holds it.
    pub fn new(threads: usize, rounds: usize, start: u64, probe: bool) -> (w: Workload)
        ensures
            w@ == Snapshot::fresh(threads as nat, rounds, start, probe),
    {
        let first = if rounds == 0 {
            Task::Done
        } else {
            Task::Locking(Lock::Swap)
        };
        let mut workers: Vec<Worker> = Vec::new();
        let mut i: usize = 0;
        while i < threads
            invariant
                i <= threads,
                workers@.len() == i,
                forall|k: int|
                    0 <= k < i ==> workers@[k] == (Worker { task: first, rounds_left: rounds }),
            decreases threads - i,
        {
            workers.push(Worker { task: first, rounds_left: rounds });
            i += 1;
        }
        let w = Workload { probe, mutex: Mutex::new(), counter: start, reentered: false, workers };
        assert(w@.workers =~= Snapshot::fresh(threads as nat, rounds, start, probe).workers);
        w
    }

    /// The number of workers.
    pub fn threads(&self) -> (n: usize)
        ensures
            n == self@.workers.len(),
    {
        self.workers.len()
    }

    /// The present value of the guarded counter.
    pub fn counter(&self) -> (n: u64)
        ensures
            n == self@.counter,
    {
        self.counter
    }

    /// The words of the mutex.
    pub fn mutex(&self) -> (m: Mutex)
        ensures
            m == self@.mutex,
    {
        self.mutex
    }

    /// Whether a worker that held the mutex ever took it a second time.
    pub fn reentered(&self) -> (r: bool)
        ensures
            r == self@.reentered,
    {
        self.reentered
    }

    /// Worker `who`, if there is one.
    pub fn worker(&self, who: usize) -> (w: Option<Worker>)
        ensures
            w == if who < self@.workers.len() {
                Some(self@.workers[who as int])
            } else {
                None
            },
    {
        if who < self.workers.len() {
            Some(self.workers[who])
        } else {
            None
        }
    }

    /// The number of workers that are between taking the mutex and giving
    /// it back.
    pub fn holders(&self) -> (n: usize)
        ensures
            n == total(Tally::Inside, self@.workers),
    {
        let mut n: usize = 0;
        let mut i: usize = 0;
        while i < self.workers.len()
            invariant
                i <= self.workers.len(),
                n <= i,
                n == total(Tally::Inside, self.workers@.take(i as int)),
            decreases self.workers.len() - i,
        {
            proof {
                assert(weights(Tally::Inside, self.workers@.take(i + 1)).drop_last() =~= weights(
                    Tally::Inside,
                    self.workers@.take(i as int),
                ));
            }
            let held = match self.workers[i].task {
                Task::Reading => true,
                Task::Writing { seen: _ } => true,
                Task::Probing => true,
                Task::Unlocking(Unlock::Swap) => true,
                _ => false,
            };
            if held {
                n += 1;
            }
            i += 1;
        }
        proof {
            assert(self.workers@.take(i as int) =~= self.workers@);
        }
        n
    }

    /// Whether every worker has completed all its rounds.
    pub fn finished(&self) -> (done: bool)
        ensures
            done == self@.all_done(),
    {
        let mut i: usize = 0;
        while i < self.workers.len()
            invariant
                i <= self.workers.len(),
                forall|k: int| 0 <= k < i ==> (#[trigger] self.workers@[k]).task is Done,
            decreases self.workers.len() - i,
        {
            match self.workers[i].task {
                Task::Done => {},
                _ => {
                    return false;
                },
            }
            i += 1;
        }
        true
    }

    /// The first sleeper, if there is one.
    fn first_sleeping(&self) -> (at: Option<usize>)
        ensures
            match at {
                Some(k) => first_sleeper(self@.workers) == Some(k as int),
                None => first_sleeper(self@.workers) is None,
            },
    {
        let mut i: usize = self.workers.len();
        let mut found: Option<usize> = None;
        proof {
            assert(self.workers@.take(i as int) =~= self.workers@);
        }
        let ghost all = self.workers@;
        while i > 0
            invariant
                i <= self.workers.len(),
                all == self.workers@,
                first_sleeper(all) == match found {
                    Some(k) => match first_sleeper(all.take(i as int)) {
                        Some(j) => Some(j),
                        None => Some(k as int),
                    },
                    None => first_sleeper(all.take(i as int)),
                },
            decreases i,
        {
            proof {
                assert(all.take(i as int).drop_last() =~= all.take(i - 1));
            }
            match self.workers[i - 1].task {
                Task::Sleeping => {
                    found = Some(i - 1);
                },
                _ => {},
            }
            i -= 1;
        }
        proof {
            assert(all.take(0) =~= Seq::<Worker>::empty());
        }
        found
    }

    /// Wakes sleepers: one, the one that `pick` names or else the first,
    /// or all of them.
    fn wake(&mut self, width: Option<Width>, pick: usize)
        ensures
            final(self)@ == (Snapshot {
                workers: after_wake(old(self)@.workers, width, pick as int),
                ..old(self)@
            }),
    {
        match width {
            None => {},
            Some(Width::One) => {
                let picked = if pick < self.workers.len() {
                    match self.workers[pick].task {
                        Task::Sleeping => Some(pick),
                        _ => None,
                    }
                } else {
                    None
                };
                let target = match picked {
                    Some(k) => Some(k),
                    None => self.first_sleeping(),
                };
                match target {
                    Some(k) => {
                        proof {
                            lemma_first_sleeper(self@.workers);
                        }
                        let w = self.workers[k];
                        self.workers.set(
                            k,
                            Worker { task: Task::Locking(Lock::Dequeue), rounds_left: w.rounds_left },
                        );
                    },
                    None => {},
                }
            },
            Some(Width::All) => {
                let ghost before = self.workers@;
                let mut i: usize = 0;
                while i < self.workers.len()
                    invariant
                        i <= self.workers.len(),
                        self.workers@.len() == before.len(),
                        self.probe == old(self).probe,
                        self.mutex == old(self).mutex,
                        self.counter == old(self).counter,
                        self.reentered == old(self).reentered,
                        forall|k: int| 0 <= k < i ==> self.workers@[k] == awake(before[k]),
                        forall|k: int| i <= k < before.len() ==> self.workers@[k] == before[k],
                    decreases self.workers.len() - i,
                {
                    let w = self.workers[i];
                    match w.task {
                        Task::Sleeping => {
                            self.workers.set(
                                i,
                                Worker {
                                    task: Task::Locking(Lock::Dequeue),
                                    rounds_left: w.rounds_left,
                                },
                            );
                        },
                        _ => {},
                    }
                    i += 1;
                }
                proof {
                    assert(self.workers@ =~= after_wake(before, width, pick as int));
                }
            },
        }
    }

    /// Lets worker `who` take its next step, which is one atomic access; the
    /// kernel wakes sleeper `wakes` if the step is a wake-up of one and that
    /// worker sleeps, and else the first sleeper. A worker that is done, and
    /// an index that names no worker, change nothing. A sleeper that takes a
    /// step has woken for no reason.
    pub fn step(&mut self, who: usize, wakes: usize)
        ensures
            final(self)@ == old(self)@.step(Turn { who: who as int, wakes: wakes as int }),
    {
        if who >= self.workers.len() {
            return ;
        }
        let w = self.workers[who];
        match w.task {
            Task::Locking(stage) => {
                let sleeps = match stage.access() {
                    Some(MutexAccess::Wait { expected }) => self.mutex.locked_raw() == expected,
                    _ => false,
                };
                if sleeps {
                    self.workers.set(who, Worker { task: Task::Sleeping, rounds_left: w.rounds_left });
                } else {
                    let next = self.mutex.lock(stage);
                    let task = match next {
                        Lock::Held => Task::Reading,
                        _ => Task::Locking(next),
                    };
                    self.workers.set(who, Worker { task, rounds_left: w.rounds_left });
                }
            },
            Task::Sleeping => {
                self.workers.set(
                    who,
                    Worker { task: Task::Locking(Lock::Dequeue), rounds_left: w.rounds_left },
                );
            },
            Task::Reading => {
                let seen = self.counter;
                self.workers.set(who, Worker { task: Task::Writing { seen }, rounds_left: w.rounds_left });
            },
            Task::Writing { seen } => {
                self.counter = seen.wrapping_add(1);
                let task = if self.probe {
                    Task::Probing
                } else {
                    Task::Unlocking(Unlock::Swap)
                };
                self.workers.set(who, Worker { task, rounds_left: w.rounds_left });
            },
            Task::Probing => {
                let acquired = self.mutex.try_lock();
                self.reentered = self.reentered || acquired;
                self.workers.set(
                    who,
                    Worker { task: Task::Unlocking(Unlock::Swap), rounds_left: w.rounds_left },
                );
            },
            Task::Unlocking(stage) => {
                let width = match stage.access() {
                    Some(MutexAccess::Wake { width }) => Some(width),
                    _ => None,
                };
                let next = self.mutex.unlock(stage);
                let moved = match next {
                    Unlock::Released => if w.rounds_left <= 1 {
                        Worker { task: Task::Done, rounds_left: 0 }
                    } else {
                        Worker { task: Task::Locking(Lock::Swap), rounds_left: w.rounds_left - 1 }
                    },
                    Unlock::NotLocked => Worker { task: Task::Failed, rounds_left: w.rounds_left },
                    _ => Worker { task: Task::Unlocking(next), rounds_left: w.rounds_left },
                };
                self.workers.set(who, moved);
                self.wake(width, wakes);
            },
            Task::Done => {},
            Task::Failed => {},
        }
    }

    /// Whether some worker has a step to take.
    pub fn can_go_on(&self) -> (r: bool)
        ensures
            r == self@.can_go_on(),
    {
        let mut i: usize = 0;
        while i < self.workers.len()
            invariant
                i <= self.workers.len(),
                forall|k: int| 0 <= k < i ==> !active(#[trigger] self.workers@[k]),
            decreases self.workers.len() - i,
        {
            match self.workers[i].task {
                Task::Done => {},
                Task::Failed => {},
                Task::Sleeping => {},
                _ => {
                    assert(active(self@.workers[i as int]));
                    return true;
                },
            }
            i += 1;
        }
        false
    }

    /// The number of workers that are asleep in the kernel.
    pub fn sleepers(&self) -> (n: usize)
        ensures
            n == total(Tally::Sleeping, self@.workers),
    {
        let mut n: usize = 0;
        let mut i: usize = 0;
        while i < self.workers.len()
            invariant
                i <= self.workers.len(),
                n <= i,
                n == total(Tally::Sleeping, self.workers@.take(i as int)),
            decreases self.workers.len() - i,
        {
            proof {
                assert(weights(Tally::Sleeping, self.workers@.take(i + 1)).drop_last() =~= weights(
                    Tally::Sleeping,
                    self.workers@.take(i as int),
                ));
            }
            match self.workers[i].task {
                Task::Sleeping => {
                    n += 1;
                },
                _ => {},
            }
            i += 1;
        }
        proof {
            assert(self.workers@.take(i as int) =~= self.workers@);
        }
        n
    }
}

/// `first_sleeper` finds a sleeper, and finds none only where there is none.
pub proof fn lemma_first_sleeper(workers: Seq<Worker>)
    ensures
        match first_sleeper(workers) {
            Some(k) => 0 <= k < workers.len() && workers[k].task is Sleeping,
            None => forall|i: int| 0 <= i < workers.len() ==> !((#[trigger] workers[i]).task is Sleeping),
        },
    decreases workers.len(),
{
    if workers.len() > 0 {
        let rest = workers.drop_last();
        lemma_first_sleeper(rest);
        match first_sleeper(rest) {
            Some(k) => {
                assert(rest[k] == workers[k]);
            },
            None => {
                assert forall|i: int| 0 <= i < workers.len() && first_sleeper(workers) is None
                    implies !((#[trigger] workers[i]).task is Sleeping) by {
                    if i < rest.len() {
                        assert(rest[i] == workers[i]);
                    }
                }
            },
        }
    }
}

/// Replacing one worker changes a total by the difference of the two weights.
pub proof fn lemma_total_update(tally: Tally, workers: Seq<Worker>, who: int, moved: Worker)
    requires
        0 <= who < workers.len(),
    ensures
        total(tally, workers.update(who, moved)) == total(tally, workers) - weight(
            tally,
            workers[who],
        ) + weight(tally, moved),
{
    assert(weights(tally, workers.update(who, moved)) =~= weights(tally, workers).update(
        who,
        weight(tally, moved),
    ));
    lemma_sum_update(weights(tally, workers), who, weight(tally, moved));
}

/// A total lies between the lowest and the highest weight, taken once for
/// each worker.
pub proof fn lemma_total_bounds(tally: Tally, workers: Seq<Worker>, low: int, high: int)
    requires
        forall|i: int|
            0 <= i < workers.len() ==> low <= weight(tally, #[trigger] workers[i]) <= high,
    ensures
        workers.len() * low <= total(tally, workers) <= workers.len() * high,
{
    lemma_sum_bounds(weights(tally, workers), low, high);
}

/// Where no weight is negative, the weights of two different workers sum to
/// at most the total.
pub proof fn lemma_total_covers_two(tally: Tally, workers: Seq<Worker>, i: int, j: int)
    requires
        0 <= i < j < workers.len(),
        forall|k: int| 0 <= k < workers.len() ==> 0 <= weight(tally, #[trigger] workers[k]),
    ensures
        weight(tally, workers[i]) + weight(tally, workers[j]) <= total(tally, workers),
{
    lemma_sum_covers_two(weights(tally, workers), i, j);
}

/// Where no weight is negative, the weight of one worker is at most the total.
pub proof fn lemma_total_covers_one(tally: Tally, workers: Seq<Worker>, i: int)
    requires
        0 <= i < workers.len(),
        forall|k: int| 0 <= k < workers.len() ==> 0 <= weight(tally, #[trigger] workers[k]),
    ensures
        0 <= weight(tally, workers[i]) <= total(tally, workers),
{
    lemma_sum_covers_one(weights(tally, workers), i);
}

/// The fresh workload is exclusive.
pub proof fn lemma_fresh_is_exclusive(threads: nat, rounds: usize, start: u64, probe: bool)
    requires
        threads <= usize::MAX,
    ensures
        Snapshot::fresh(threads, rounds, start, probe).exclusive(rounds),
{
    let s = Snapshot::fresh(threads, rounds, start, probe);
    lemma_total_bounds(Tally::Inside, s.workers, 0, 0);
    lemma_total_bounds(Tally::Announced, s.workers, 0, 0);
    lemma_total_bounds(Tally::Sleeping, s.workers, 0, 0);
    assert(s.workers.len() * 0 == 0);
}

/// The fresh workload is counted.
pub proof fn lemma_fresh_is_counted(threads: nat, rounds: usize, start: u64, probe: bool)
    requires
        start + threads * rounds <= u64::MAX,
    ensures
        Snapshot::fresh(threads, rounds, start, probe).counted(rounds, start),
{
    let s = Snapshot::fresh(threads, rounds, start, probe);
    lemma_total_bounds(Tally::Credited { rounds: rounds as nat }, s.workers, 0, 0);
    assert(s.workers.len() * 0 == 0);
}

/// A wake-up changes no worker but sleepers, which it makes workers that
/// withdraw their announcement: it keeps the shape of every worker and
/// every total but those of the sleepers and of the active, and where
/// sleepers are left, it has woken one.
pub proof fn lemma_wake_keeps_totals(
    workers: Seq<Worker>,
    width: Option<Width>,
    pick: int,
    rounds: usize,
)
    requires
        forall|i: int| 0 <= i < workers.len() ==> Snapshot::worker_ok(#[trigger] workers[i], rounds),
    ensures
        ({
            let after = after_wake(workers, width, pick);
            &&& after.len() == workers.len()
            &&& forall|i: int|
                0 <= i < after.len() ==> Snapshot::worker_ok(#[trigger] after[i], rounds)
            &&& forall|i: int|
                0 <= i < after.len() ==> (#[trigger] after[i] == workers[i] || (
                workers[i].task is Sleeping && after[i] == awake(workers[i])))
            &&& total(Tally::Inside, after) == total(Tally::Inside, workers)
            &&& total(Tally::Announced, after) == total(Tally::Announced, workers)
            &&& total(Tally::Credited { rounds: rounds as nat }, after) == total(
                Tally::Credited { rounds: rounds as nat },
                workers,
            )
            &&& total(Tally::Active, after) >= total(Tally::Active, workers)
            &&& total(Tally::Sleeping, after) <= total(Tally::Sleeping, workers)
            &&& width is Some && total(Tally::Sleeping, workers) > 0 ==> total(
                Tally::Active,
                after,
            ) > 0
        }),
{
    let after = after_wake(workers, width, pick);
    let credit = Tally::Credited { rounds: rounds as nat };
    lemma_first_sleeper(workers);
    assert(weights(Tally::Inside, after) =~= weights(Tally::Inside, workers));
    assert(weights(Tally::Announced, after) =~= weights(Tally::Announced, workers));
    assert(weights(credit, after) =~= weights(credit, workers));
    assert forall|k: int| 0 <= k < workers.len() implies #[trigger] weights(
        Tally::Active,
        workers,
    )[k] <= weights(Tally::Active, after)[k] by {}
    lemma_sum_dominates(weights(Tally::Active, workers), weights(Tally::Active, after));
    assert forall|k: int| 0 <= k < workers.len() implies #[trigger] weights(
        Tally::Sleeping,
        after,
    )[k] <= weights(Tally::Sleeping, workers)[k] by {}
    lemma_sum_dominates(weights(Tally::Sleeping, after), weights(Tally::Sleeping, workers));
    if width is Some && total(Tally::Sleeping, workers) > 0 {
        let k = lemma_sum_has_positive(weights(Tally::Sleeping, workers));
        assert(workers[k].task is Sleeping);
        match width {
            Some(Width::One) => {
                let woken = woken_one(workers, pick)->Some_0;
                assert(active(after[woken]));
                lemma_sum_covers_one(weights(Tally::Active, after), woken);
            },
            _ => {
                assert(active(after[k]));
                lemma_sum_covers_one(weights(Tally::Active, after), k);
            },
        }
    }
}

/// One step of any worker keeps an exclusive workload exclusive.
pub proof fn lemma_step_keeps_exclusive(s: Snapshot, rounds: usize, turn: Turn)
    requires
        s.exclusive(rounds),
    ensures
        s.step(turn).exclusive(rounds),
        s.step(turn).workers.len() == s.workers.len(),
        s.step(turn).probe == s.probe,
{
    let who = turn.who;
    if 0 <= who < s.workers.len() {
        let t = s.step(turn);
        let w = s.workers[who];
        assert(Snapshot::worker_ok(w, rounds));
        if !(w.task is Done) && !(w.task is Failed) {
            let width = match w.task {
                Task::Unlocking(stage) => wake_width(stage),
                _ => None,
            };
            let moved = match w.task {
                Task::Unlocking(stage) => worker_after_unlock(w, stage.step(s.mutex).0),
                _ => t.workers[who],
            };
            let mid = s.workers.update(who, moved);
            assert(t.workers == after_wake(mid, width, turn.wakes));
            lemma_total_update(Tally::Inside, s.workers, who, moved);
            lemma_total_update(Tally::Announced, s.workers, who, moved);
            lemma_total_update(Tally::Sleeping, s.workers, who, moved);
            lemma_total_update(Tally::Active, s.workers, who, moved);
            lemma_total_covers_one(Tally::Inside, s.workers, who);
            lemma_total_covers_one(Tally::Announced, s.workers, who);
            lemma_sum_bounds(weights(Tally::Announced, mid), 0, 1);
            lemma_sum_dominates(weights(Tally::Sleeping, s.workers), weights(Tally::Announced, s.workers));
            assert(Snapshot::worker_ok(moved, rounds));
            assert forall|k: int| 0 <= k < mid.len() implies Snapshot::worker_ok(
                #[trigger] mid[k],
                rounds,
            ) by {
                if k != who {
                    assert(mid[k] == s.workers[k]);
                }
            }
            lemma_wake_keeps_totals(mid, width, turn.wakes, rounds);
            lemma_sum_dominates(weights(Tally::Sleeping, t.workers), weights(Tally::Announced, t.workers));
            lemma_sum_bounds(weights(Tally::Sleeping, t.workers), 0, 1);
            if total(Tally::Sleeping, t.workers) > 0 {
                if active(moved) {
                    assert(t.workers[who] == moved);
                    lemma_sum_covers_one(weights(Tally::Active, t.workers), who);
                } else if moved.task is Sleeping {
                    let k = lemma_sum_has_positive(weights(Tally::Inside, s.workers));
                    assert(inside(s.workers[k]));
                    assert(mid[k] == s.workers[k]);
                    assert(t.workers[k] == s.workers[k]);
                    lemma_sum_covers_one(weights(Tally::Active, t.workers), k);
                } else {
                    lemma_sum_dominates(weights(Tally::Sleeping, mid), weights(Tally::Announced, mid));
                }
            }
        }
    }
}

/// One step of any worker keeps an exclusive and counted workload counted.
pub proof fn lemma_step_keeps_counted(s: Snapshot, rounds: usize, start: u64, turn: Turn)
    requires
        s.exclusive(rounds),
        s.counted(rounds, start),
    ensures
        s.step(turn).counted(rounds, start),
{
    lemma_step_keeps_exclusive(s, rounds, turn);
    let who = turn.who;
    if 0 <= who < s.workers.len() {
        let t = s.step(turn);
        let w = s.workers[who];
        let credit = Tally::Credited { rounds: rounds as nat };
        assert(Snapshot::worker_ok(w, rounds));
        if !(w.task is Done) && !(w.task is Failed) {
            let width = match w.task {
                Task::Unlocking(stage) => wake_width(stage),
                _ => None,
            };
            let moved = match w.task {
                Task::Unlocking(stage) => worker_after_unlock(w, stage.step(s.mutex).0),
                _ => t.workers[who],
            };
            let mid = s.workers.update(who, moved);
            assert(t.workers == after_wake(mid, width, turn.wakes));
            lemma_total_update(credit, s.workers, who, moved);
            lemma_total_covers_one(Tally::Inside, s.workers, who);
            assert forall|k: int| 0 <= k < mid.len() implies Snapshot::worker_ok(
                #[trigger] mid[k],
                rounds,
            ) by {
                if k != who {
                    assert(mid[k] == s.workers[k]);
                }
            }
            lemma_wake_keeps_totals(mid, width, turn.wakes, rounds);
            assert forall|k: int| 0 <= k < t.workers.len() implies 0 <= weight(
                credit,
                #[trigger] t.workers[k],
            ) <= rounds by {
                assert(Snapshot::worker_ok(t.workers[k], rounds));
            }
            lemma_total_bounds(credit, t.workers, 0, rounds as int);
            assert forall|k: int| 0 <= k < s.workers.len() implies 0 <= weight(
                Tally::Inside,
                #[trigger] s.workers[k],
            ) by {}
            assert forall|k: int| 0 <= k < t.workers.len() implies (
            #[trigger] t.workers[k].task matches Task::Writing { seen } ==> seen == t.counter) by {
                if k != who {
                    assert(mid[k] == s.workers[k]);
                    assert(t.workers[k] == s.workers[k] || s.workers[k].task is Sleeping);
                    if s.workers[k].task is Writing {
                        lemma_total_covers_two(
                            Tally::Inside,
                            s.workers,
                            if k < who { k } else { who },
                            if k < who { who } else { k },
                        );
                    }
                }
            }
        }
    }
}

/// Every state that a fresh workload reaches is exclusive.
pub proof fn lemma_reachable_is_exclusive(
    threads: nat,
    rounds: usize,
    start: u64,
    probe: bool,
    schedule: Seq<Turn>,
)
    requires
        threads <= usize::MAX,
    ensures
        Snapshot::fresh(threads, rounds, start, probe).run(schedule).exclusive(rounds),
        Snapshot::fresh(threads, rounds, start, probe).run(schedule).workers.len() == threads,
    decreases schedule.len(),
{
    if schedule.len() == 0 {
        lemma_fresh_is_exclusive(threads, rounds, start, probe);
    } else {
        lemma_reachable_is_exclusive(threads, rounds, start, probe, schedule.drop_last());
        lemma_step_keeps_exclusive(
            Snapshot::fresh(threads, rounds, start, probe).run(schedule.drop_last()),
            rounds,
            schedule.last(),
        );
    }
}

/// Every state that a fresh workload reaches is counted.
pub proof fn lemma_reachable_is_counted(
    threads: nat,
    rounds: usize,
    start: u64,
    probe: bool,
    schedule: Seq<Turn>,
)
    requires
        threads <= usize::MAX,
        start + threads * rounds <= u64::MAX,
    ensures
        Snapshot::fresh(threads, rounds, start, probe).run(schedule).counted(rounds, start),
    decreases schedule.len(),
{
    if schedule.len() == 0 {
        lemma_fresh_is_counted(threads, rounds, start, probe);
    } else {
        lemma_reachable_is_exclusive(threads, rounds, start, probe, schedule.drop_last());
        lemma_reachable_is_counted(threads, rounds, start, probe, schedule.drop_last());
        lemma_step_keeps_counted(
            Snapshot::fresh(threads, rounds, start, probe).run(schedule.drop_last()),
            rounds,
            start,
            schedule.last(),
        );
    }
}

/// Mutual exclusion: however the steps of the threads interleave, no two
/// different workers are ever between taking the mutex and giving it back at
/// the same time, and the mutex is locked exactly while one worker is.
pub proof fn law_mutual_exclusion(
    threads: nat,
    rounds: usize,
    start: u64,
    probe: bool,
    schedule: Seq<Turn>,
    i: int,
    j: int,
)
    requires
        threads <= usize::MAX,
    ensures
        ({
            let s = Snapshot::fresh(threads, rounds, start, probe).run(schedule);
            &&& s.holds(i) && s.holds(j) ==> i == j
            &&& s.holds(i) ==> s.mutex.locked
            &&& s.mutex.locked ==> exists|k: int| s.holds(k)
        }),
{
    let s = Snapshot::fresh(threads, rounds, start, probe).run(schedule);
    lemma_reachable_is_exclusive(threads, rounds, start, probe, schedule);
    assert forall|k: int| 0 <= k < s.workers.len() implies 0 <= weight(
        Tally::Inside,
        #[trigger] s.workers[k],
    ) <= 1 by {}
    if s.holds(i) {
        lemma_total_covers_one(Tally::Inside, s.workers, i);
        if s.holds(j) && i != j {
            lemma_total_covers_two(
                Tally::Inside,
                s.workers,
                if i < j { i } else { j },
                if i < j { j } else { i },
            );
        }
    }
    if s.mutex.locked {
        let k = lemma_sum_has_positive(weights(Tally::Inside, s.workers));
        assert(s.holds(k));
    }
}

/// No lost update: however the steps of the threads interleave, once every
/// worker has completed its rounds the counter stands at its initial value
/// plus one for each round of each worker.
pub proof fn law_no_lost_update(
    threads: nat,
    rounds: usize,
    start: u64,
    probe: bool,
    schedule: Seq<Turn>,
)
    requires
        threads <= usize::MAX,
        start + threads * rounds <= u64::MAX,
    ensures
        ({
            let s = Snapshot::fresh(threads, rounds, start, probe).run(schedule);
            s.all_done() ==> s.counter == start + threads * rounds
        }),
{
    let s = Snapshot::fresh(threads, rounds, start, probe).run(schedule);
    lemma_reachable_is_exclusive(threads, rounds, start, probe, schedule);
    lemma_reachable_is_counted(threads, rounds, start, probe, schedule);
    if s.all_done() {
        let credit = Tally::Credited { rounds: rounds as nat };
        assert forall|k: int| 0 <= k < s.workers.len() implies rounds <= weight(
            credit,
            #[trigger] s.workers[k],
        ) <= rounds by {
            assert(Snapshot::worker_ok(s.workers[k], rounds));
            assert(s.workers[k].task is Done);
        }
        lemma_total_bounds(credit, s.workers, rounds as int, rounds as int);
    }
}

/// The mutex is not reentrant: however the steps of the threads interleave,
/// no worker that holds the mutex ever gets it again from `try_lock`.
pub proof fn law_holder_cannot_relock(
    threads: nat,
    rounds: usize,
    start: u64,
    probe: bool,
    schedule: Seq<Turn>,
)
    requires
        threads <= usize::MAX,
    ensures
        !Snapshot::fresh(threads, rounds, start, probe).run(schedule).reentered,
{
    lemma_reachable_is_exclusive(threads, rounds, start, probe, schedule);
}

/// A worker that unlocks what it locked never meets the fatal end, and the
/// waiter counter is exactly the number of workers that have announced
/// themselves and not yet withdrawn: it neither wraps nor drifts.
pub proof fn law_unlock_succeeds_and_waiters_are_exact(
    threads: nat,
    rounds: usize,
    start: u64,
    probe: bool,
    schedule: Seq<Turn>,
    who: int,
)
    requires
        threads <= usize::MAX,
        0 <= who < threads,
    ensures
        ({
            let s = Snapshot::fresh(threads, rounds, start, probe).run(schedule);
            &&& !(s.workers[who].task is Failed)
            &&& s.mutex.waiters == total(Tally::Announced, s.workers)
        }),
{
    lemma_reachable_is_exclusive(threads, rounds, start, probe, schedule);
    let s = Snapshot::fresh(threads, rounds, start, probe).run(schedule);
    assert(Snapshot::worker_ok(s.workers[who], rounds));
}

/// No wake-up is lost: however the steps of the threads interleave and
/// whomever the kernel wakes, the workload never comes to a stop before
/// every worker is done. While a worker sleeps, another has a step to take,
/// even if no sleeper ever wakes without being woken.
pub proof fn law_no_lost_wakeup(
    threads: nat,
    rounds: usize,
    start: u64,
    probe: bool,
    schedule: Seq<Turn>,
)
    requires
        threads <= usize::MAX,
    ensures
        ({
            let s = Snapshot::fresh(threads, rounds, start, probe).run(schedule);
            s.all_done() || s.can_go_on()
        }),
{
    let s = Snapshot::fresh(threads, rounds, start, probe).run(schedule);
    lemma_reachable_is_exclusive(threads, rounds, start, probe, schedule);
    if !s.all_done() {
        let i = choose|i: int| 0 <= i < s.workers.len() && !((#[trigger] s.workers[i]).task is Done);
        assert(Snapshot::worker_ok(s.workers[i], rounds));
        if s.workers[i].task is Sleeping {
            lemma_sum_covers_one(weights(Tally::Sleeping, s.workers), i);
            let k = lemma_sum_has_positive(weights(Tally::Active, s.workers));
            assert(active(s.workers[k]));
        } else {
            assert(active(s.workers[i]));
        }
    }
}

} // verus!
