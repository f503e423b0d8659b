//! Threads that contend for one reentrant mutex and take it several times
//! over to increment a shared counter.
//!
//! Every worker repeats the same round: it takes the mutex `depth` times,
//! the first time with `lock` and then again with `lock` or with `try_lock`
//! as the plan says, and after each acquisition it loads the counter and
//! stores the loaded value plus one. Then it gives the mutex back `depth`
//! times. A worker's token is its thread index. A step of the workload is
//! one atomic access of one worker, so a schedule is an interleaving of the
//! threads.
//!
//! The kernel is part of the workload. A worker whose access is a wait falls
//! asleep iff the lock word still holds what the wait expects, and sleeps
//! until a wake-up picks it, or until it wakes for no reason, which the
//! kernel allows. A wake-up wakes one sleeper of the kernel's choice, or all
//! of them. The laws at the end hold for every schedule and every choice of
//! the kernel.

use vstd::prelude::*;
use crate::access::{Turn, Width};
use crate::contention::next_count;
use crate::reentrant::{Acquire, ReentrantAccess, ReentrantMutex, Release};
use crate::tally::{
    lemma_sum_bounds, lemma_sum_covers_one, lemma_sum_covers_two, lemma_sum_dominates,
    lemma_sum_has_positive, lemma_sum_update, sum,
};

verus! {

/// What a worker does next.
#[derive(Clone, Copy, Debug, PartialEq, Eq)]
pub enum Task {
    /// Inside `lock` or `try_lock`, at the given stage (never at an end).
    Acquiring(Acquire),
    /// Inside `lock`, asleep in the kernel until the lock word is woken on.
    Sleeping,
    /// Holds the mutex; about to load the counter.
    Reading,
    /// Holds the mutex; about to store `seen + 1` to the counter.
    Writing { seen: u64 },
    /// Inside `unlock`, at the given stage (never at an end).
    Releasing(Release),
    /// All rounds are done.
    Done,
    /// An acquisition or a release came to an end that it must not come to.
    Failed,
}

/// One thread of the workload.
#[derive(Clone, Copy, Debug, PartialEq, Eq)]
pub struct Worker {
    /// What the thread does next.
    pub task: Task,
    /// How many acquisitions the thread has made and not yet given back.
    pub level: usize,
    /// The rounds that the thread has not completed yet.
    pub rounds_left: usize,
}

/// What every worker of a workload is to do.
#[derive(Clone, Copy, Debug, PartialEq, Eq)]
pub struct Plan {
    /// The rounds of each worker.
    pub rounds: usize,
    /// The acquisitions of each round, at least one.
    pub depth: usize,
    /// Whether the acquisitions after the first use `lock`; else `try_lock`.
    pub patient: bool,
    /// The counter before any step.
    pub start: u64,
}

/// The workload: the plan, the mutex, the counter that it guards, and the
/// workers.
pub struct Workload {
    plan: Plan,
    mutex: ReentrantMutex,
    counter: u64,
    workers: Vec<Worker>,
}

/// The state of a workload as a mathematical value.
pub struct Snapshot {
    /// What every worker is to do.
    pub plan: Plan,
    /// The words of the mutex.
    pub mutex: ReentrantMutex,
    /// The guarded counter.
    pub counter: u64,
    /// The workers, by thread index.
    pub workers: Seq<Worker>,
}

/// A quantity that is summed over the workers.
pub enum Tally {
    /// 1 for a worker on whose behalf `locked` is true.
    Flagged,
    /// 1 for a worker that is counted in `waiters`.
    Announced,
    /// 1 for a worker that is asleep in the kernel.
    Sleeping,
    /// 1 for a worker that has a step to take: not done and not asleep.
    Active,
    /// The increments that a worker has made so far.
    Credited { plan: Plan },
}

/// Whether `locked` is true on behalf of this worker: from the swap that
/// took the lock to the swap that gives it back.
pub open spec fn flagged(w: Worker) -> bool {
    match w.task {
        Task::Acquiring(Acquire::Claim) => true,
        Task::Acquiring(Acquire::ResetDepth) => true,
        Task::Releasing(Release::CheckWaiters) => false,
        Task::Releasing(Release::Wake) => false,
        _ => w.level >= 1,
    }
}

/// Whether `owner` names this worker: from the store that records it to the
/// store that clears it.
pub open spec fn recorded(w: Worker) -> bool {
    match w.task {
        Task::Acquiring(Acquire::ResetDepth) => true,
        Task::Releasing(Release::Swap) => false,
        Task::Releasing(Release::CheckWaiters) => false,
        Task::Releasing(Release::Wake) => false,
        _ => w.level >= 1,
    }
}

/// The increments that the worker has made in its present round.
pub open spec fn made(w: Worker, plan: Plan) -> int {
    match w.task {
        Task::Acquiring(_) => w.level as int,
        Task::Reading => w.level - 1,
        Task::Writing { .. } => w.level - 1,
        Task::Releasing(_) => plan.depth as int,
        _ => 0,
    }
}

/// Whether the worker has a step to take: it is not done, has not failed,
/// and is not asleep.
pub open spec fn active(w: Worker) -> bool {
    !(w.task is Done) && !(w.task is Failed) && !(w.task is Sleeping)
}

/// Whether a worker at `stage` of an acquisition falls asleep: its access is
/// a wait, and the lock word still holds what the wait expects.
pub open spec fn falls_asleep(stage: Acquire, me: usize, m: ReentrantMutex) -> bool {
    stage.request(me) matches Some(ReentrantAccess::Wait { expected }) && m.locked == expected
}

/// The width of the wake-up that a worker at `stage` of `unlock` makes, if
/// its access is one.
pub open spec fn wake_width(stage: Release) -> Option<Width> {
    match stage.request() {
        Some(ReentrantAccess::Wake { width }) => Some(width),
        _ => None,
    }
}

/// The first sleeper, if there is one.
pub open spec fn first_sleeper(workers: Seq<Worker>) -> Option<int>
    decreases workers.len(),
{
    if workers.len() == 0 {
        None
    } else {
        match first_sleeper(workers.drop_last()) {
            Some(i) => Some(i),
            None => if workers.last().task is Sleeping {
                Some(workers.len() - 1)
            } else {
                None
            },
        }
    }
}

/// The sleeper that a wake-up of one wakes: the one that the kernel picks,
/// or the first where it picks none; none where nobody sleeps.
pub open spec fn woken_one(workers: Seq<Worker>, pick: int) -> Option<int> {
    if 0 <= pick < workers.len() && workers[pick].task is Sleeping {
        Some(pick)
    } else {
        first_sleeper(workers)
    }
}

/// A worker as it is once it has been woken.
pub open spec fn awake(w: Worker) -> Worker {
    if w.task is Sleeping {
        Worker { task: Task::Acquiring(Acquire::Dequeue), ..w }
    } else {
        w
    }
}

/// The workers after a wake-up of the given width, if there is one.
pub open spec fn after_wake(workers: Seq<Worker>, width: Option<Width>, pick: int) -> Seq<Worker> {
    match width {
        None => workers,
        Some(Width::One) => match woken_one(workers, pick) {
            Some(k) => workers.update(k, awake(workers[k])),
            None => workers,
        },
        Some(Width::All) => Seq::new(workers.len(), |i: int| awake(workers[i])),
    }
}

/// What one worker contributes to a tally.
pub open spec fn weight(tally: Tally, w: Worker) -> int {
    match tally {
        Tally::Flagged => if flagged(w) {
            1
        } else {
            0
        },
        Tally::Announced => match w.task {
            Task::Acquiring(Acquire::Park) => 1,
            Task::Sleeping => 1,
            Task::Acquiring(Acquire::Dequeue) => 1,
            _ => 0,
        },
        Tally::Sleeping => if w.task is Sleeping {
            1
        } else {
            0
        },
        Tally::Active => if active(w) {
            1
        } else {
            0
        },
        Tally::Credited { plan } => (plan.rounds - w.rounds_left) * plan.depth + made(w, plan),
    }
}

/// What each worker contributes to a tally, by thread index.
pub open spec fn weights(tally: Tally, workers: Seq<Worker>) -> Seq<int> {
    Seq::new(workers.len(), |i: int| weight(tally, workers[i]))
}

/// The sum of a tally over the workers.
pub open spec fn total(tally: Tally, workers: Seq<Worker>) -> int {
    sum(weights(tally, workers))
}

/// `n + 1`, stopping at the largest word.
pub open spec fn level_up(n: usize) -> usize {
    if n < usize::MAX {
        (n + 1) as usize
    } else {
        n
    }
}

/// `n - 1`, stopping at zero.
pub open spec fn level_down(n: usize) -> usize {
    if n > 0 {
        (n - 1) as usize
    } else {
        n
    }
}

/// The worker after one step of an acquisition that led to `next`.
pub open spec fn worker_after_acquire(w: Worker, next: Acquire) -> Worker {
    match next {
        Acquire::Held => Worker { task: Task::Reading, level: level_up(w.level), ..w },
        Acquire::Busy => Worker { task: Task::Failed, ..w },
        Acquire::DepthExhausted => Worker { task: Task::Failed, ..w },
        _ => Worker { task: Task::Acquiring(next), ..w },
    }
}

/// The worker after one step of `unlock` that led to `next`.
pub open spec fn worker_after_release(w: Worker, next: Release) -> Worker {
    match next {
        Release::StillHeld => Worker {
            task: Task::Releasing(Release::CheckOwner),
            level: level_down(w.level),
            ..w
        },
        Release::Released => if w.rounds_left <= 1 {
            Worker { task: Task::Done, level: 0, rounds_left: 0 }
        } else {
            Worker {
                task: Task::Acquiring(Acquire::Swap),
                level: 0,
                rounds_left: (w.rounds_left - 1) as usize,
            }
        },
        Release::NotOwner => Worker { task: Task::Failed, ..w },
        Release::NotLocked => Worker { task: Task::Failed, ..w },
        _ => Worker { task: Task::Releasing(next), ..w },
    }
}

/// The task of a worker that has just stored the counter.
pub open spec fn task_after_write(w: Worker, plan: Plan) -> Task {
    if w.level < plan.depth {
        Task::Acquiring(Acquire::Swap)
    } else {
        Task::Releasing(Release::CheckOwner)
    }
}

impl Snapshot {
    /// The workload before any step: `threads` workers that each have all
    /// their rounds to go, a free mutex, and the counter at its start.
    pub open spec fn fresh(threads: nat, plan: Plan) -> Snapshot {
        Snapshot {
            plan,
            mutex: ReentrantMutex { locked: false, waiters: 0, owner: None, depth: 0 },
            counter: plan.start,
            workers: Seq::new(
                threads,
                |i: int|
                    Worker {
                        task: if plan.rounds == 0 {
                            Task::Done
                        } else {
                            Task::Acquiring(Acquire::Swap)
                        },
                        level: 0,
                        rounds_left: plan.rounds,
                    },
            ),
        }
    }

    /// The workload after worker `who` has taken its next step, which is one
    /// atomic access, before the kernel has woken anybody. A worker that is
    /// done, and an index that names no worker, change nothing. A sleeper
    /// that takes a step has woken for no reason.
    pub open spec fn own_step(self, who: int) -> Snapshot {
        if 0 <= who < self.workers.len() && who <= usize::MAX {
            let w = self.workers[who];
            let me = who as usize;
            match w.task {
                Task::Acquiring(stage) => {
                    if falls_asleep(stage, me, self.mutex) {
                        let moved = Worker { task: Task::Sleeping, ..w };
                        Snapshot { workers: self.workers.update(who, moved), ..self }
                    } else {
                        let (next, mutex) = stage.step(
                            me,
                            w.level == 0 || self.plan.patient,
                            self.mutex,
                        );
                        Snapshot {
                            mutex,
                            workers: self.workers.update(who, worker_after_acquire(w, next)),
                            ..self
                        }
                    }
                },
                Task::Sleeping => Snapshot { workers: self.workers.update(who, awake(w)), ..self },
                Task::Reading => {
                    let moved = Worker { task: Task::Writing { seen: self.counter }, ..w };
                    Snapshot { workers: self.workers.update(who, moved), ..self }
                },
                Task::Writing { seen } => {
                    let moved = Worker { task: task_after_write(w, self.plan), ..w };
                    Snapshot {
                        counter: next_count(seen),
                        workers: self.workers.update(who, moved),
                        ..self
                    }
                },
                Task::Releasing(stage) => {
                    let (next, mutex) = stage.step(me, self.mutex);
                    Snapshot {
                        mutex,
                        workers: self.workers.update(who, worker_after_release(w, next)),
                        ..self
                    }
                },
                Task::Done => self,
                Task::Failed => self,
            }
        } else {
            self
        }
    }

    /// The width of the wake-up that the next step of worker `who` makes, if
    /// that step is one.
    pub open spec fn wakes(self, who: int) -> Option<Width> {
        if 0 <= who < self.workers.len() {
            match self.workers[who].task {
                Task::Releasing(stage) => wake_width(stage),
                _ => None,
            }
        } else {
            None
        }
    }

    /// The workload after the worker of the turn has taken its next step,
    /// and the kernel has woken whom that step wakes.
    pub open spec fn step(self, turn: Turn) -> Snapshot {
        let mid = self.own_step(turn.who);
        Snapshot { workers: after_wake(mid.workers, self.wakes(turn.who), turn.wakes), ..mid }
    }

    /// The workload after the workers have taken their steps in the order
    /// that `schedule` gives.
    pub open spec fn run(self, schedule: Seq<Turn>) -> Snapshot
        decreases schedule.len(),
    {
        if schedule.len() == 0 {
            self
        } else {
            self.run(schedule.drop_last()).step(schedule.last())
        }
    }

    /// Whether some worker has a step to take.
    pub open spec fn can_go_on(self) -> bool {
        exists|i: int| 0 <= i < self.workers.len() && active(#[trigger] self.workers[i])
    }

    /// Whether every worker has completed all its rounds.
    pub open spec fn all_done(self) -> bool {
        forall|i: int| 0 <= i < self.workers.len() ==> (#[trigger] self.workers[i]).task is Done
    }

    /// Whether worker `who` holds the mutex: it has taken it and not yet
    /// given it back for the last time.
    pub open spec fn holds(self, who: int) -> bool {
        0 <= who < self.workers.len() && flagged(self.workers[who])
    }

    /// What holds of one worker in every reachable state.
    pub open spec fn shaped(w: Worker, plan: Plan) -> bool {
        &&& w.rounds_left <= plan.rounds
        &&& (w.task is Done <==> w.rounds_left == 0)
        &&& !(w.task is Failed)
        &&& w.level <= plan.depth
        &&& match w.task {
            Task::Acquiring(stage) => {
                &&& w.level < plan.depth
                &&& match stage {
                    Acquire::Swap => true,
                    Acquire::CheckOwner => true,
                    Acquire::Claim => w.level == 0,
                    Acquire::ResetDepth => w.level == 0,
                    Acquire::Enqueue => w.level == 0,
                    Acquire::Park => w.level == 0,
                    Acquire::Dequeue => w.level == 0,
                    Acquire::ReadDepth => w.level >= 1,
                    Acquire::Deepen { to } => w.level >= 1 && to == w.level,
                    Acquire::Held => false,
                    Acquire::Busy => false,
                    Acquire::DepthExhausted => false,
                }
            },
            Task::Sleeping => w.level == 0,
            Task::Reading => w.level >= 1,
            Task::Writing { .. } => w.level >= 1,
            Task::Releasing(stage) => {
                &&& w.level >= 1
                &&& match stage {
                    Release::CheckOwner => true,
                    Release::ReadDepth => true,
                    Release::Shallow { to } => w.level >= 2 && to == w.level - 2,
                    Release::ClearOwner => w.level == 1,
                    Release::Swap => w.level == 1,
                    Release::CheckWaiters => w.level == 1,
                    Release::Wake => w.level == 1,
                    Release::StillHeld => false,
                    Release::Released => false,
                    Release::NotOwner => false,
                    Release::NotLocked => false,
                }
            },
            Task::Done => w.level == 0,
            Task::Failed => false,
        }
    }

    /// What holds of the mutex and the workers in every reachable state:
    /// `locked` is true on behalf of exactly one worker or false, `owner`
    /// names the worker that recorded itself and no other, `depth` is one
    /// less than the owner's acquisitions, `waiters` counts the workers
    /// that announced themselves, and where a worker sleeps another has a
    /// step to take.
    pub open spec fn exclusive(self) -> bool {
        &&& held_together(self)
        &&& total(Tally::Sleeping, self.workers) > 0 ==> total(Tally::Active, self.workers) > 0
    }

    /// What holds of the counter in every reachable state: it has every
    /// increment made so far, and whoever is about to store has loaded its
    /// present value.
    pub open spec fn counted(self) -> bool {
        &&& self.plan.start + self.workers.len() * (self.plan.rounds * self.plan.depth) <= u64::MAX
        &&& forall|i: int|
            0 <= i < self.workers.len() ==> (#[trigger] self.workers[i].task matches Task::Writing {
                seen,
            } ==> seen == self.counter)
        &&& self.counter == self.plan.start + total(
            Tally::Credited { plan: self.plan },
            self.workers,
        )
    }
}

impl View for Workload {
    type V = Snapshot;

    closed spec fn view(&self) -> Snapshot {
        Snapshot {
            plan: self.plan,
            mutex: self.mutex,
            counter: self.counter,
            workers: self.workers@,
        }
    }
}

impl Workload {
    /// A workload of `threads` workers that follow `plan`, with a free mutex
    /// and the counter at the plan's start.
    pub fn new(threads: usize, plan: Plan) -> (w: Workload)
        ensures
            w@ == Snapshot::fresh(threads as nat, plan),
    {
        let first = if plan.rounds == 0 {
            Task::Done
        } else {
            Task::Acquiring(Acquire::Swap)
        };
        let one = Worker { task: first, level: 0, rounds_left: plan.rounds };
        let mut workers: Vec<Worker> = Vec::new();
        let mut i: usize = 0;
        while i < threads
            invariant
                i <= threads,
                workers@.len() == i,
                forall|k: int| 0 <= k < i ==> workers@[k] == one,
            decreases threads - i,
        {
            workers.push(one);
            i += 1;
        }
        let w = Workload { plan, mutex: ReentrantMutex::new(), counter: plan.start, workers };
        assert(w@.workers =~= Snapshot::fresh(threads as nat, plan).workers);
        w
    }

    /// The number of workers.
    pub fn threads(&self) -> (n: usize)
        ensures
            n == self@.workers.len(),
    {
        self.workers.len()
    }

    /// The present value of the guarded counter.
    pub fn counter(&self) -> (n: u64)
        ensures
            n == self@.counter,
    {
        self.counter
    }

    /// The words of the mutex.
    pub fn mutex(&self) -> (m: ReentrantMutex)
        ensures
            m == self@.mutex,
    {
        self.mutex
    }

    /// Worker `who`, if there is one.
    pub fn worker(&self, who: usize) -> (w: Option<Worker>)
        ensures
            w == if who < self@.workers.len() {
                Some(self@.workers[who as int])
            } else {
                None
            },
    {
        if who < self.workers.len() {
            Some(self.workers[who])
        } else {
            None
        }
    }

    /// The number of workers on whose behalf the mutex is locked.
    pub fn holders(&self) -> (n: usize)
        ensures
            n == total(Tally::Flagged, self@.workers),
    {
        let mut n: usize = 0;
        let mut i: usize = 0;
        while i < self.workers.len()
            invariant
                i <= self.workers.len(),
                n <= i,
                n == total(Tally::Flagged, self.workers@.take(i as int)),
            decreases self.workers.len() - i,
        {
            proof {
                assert(weights(Tally::Flagged, self.workers@.take(i + 1)).drop_last() =~= weights(
                    Tally::Flagged,
                    self.workers@.take(i as int),
                ));
            }
            let w = self.workers[i];
            let held = match w.task {
                Task::Acquiring(Acquire::Claim) => true,
                Task::Acquiring(Acquire::ResetDepth) => true,
                Task::Releasing(Release::CheckWaiters) => false,
                Task::Releasing(Release::Wake) => false,
                _ => w.level >= 1,
            };
            if held {
                n += 1;
            }
            i += 1;
        }
        proof {
            assert(self.workers@.take(i as int) =~= self.workers@);
        }
        n
    }

    /// Whether every worker has completed all its rounds.
    pub fn finished(&self) -> (done: bool)
        ensures
            done == self@.all_done(),
    {
        let mut i: usize = 0;
        while i < self.workers.len()
            invariant
                i <= self.workers.len(),
                forall|k: int| 0 <= k < i ==> (#[trigger] self.workers@[k]).task is Done,
            decreases self.workers.len() - i,
        {
            match self.workers[i].task {
                Task::Done => {},
                _ => {
                    return false;
                },
            }
            i += 1;
        }
        true
    }

    /// The first sleeper, if there is one.
    fn first_sleeping(&self) -> (at: Option<usize>)
        ensures
            match at {
                Some(k) => first_sleeper(self@.workers) == Some(k as int),
                None => first_sleeper(self@.workers) is None,
            },
    {
        let mut i: usize = self.workers.len();
        let mut found: Option<usize> = None;
        proof {
            assert(self.workers@.take(i as int) =~= self.workers@);
        }
        let ghost all = self.workers@;
        while i > 0
            invariant
                i <= self.workers.len(),
                all == self.workers@,
                first_sleeper(all) == match found {
                    Some(k) => match first_sleeper(all.take(i as int)) {
                        Some(j) => Some(j),
                        None => Some(k as int),
                    },
                    None => first_sleeper(all.take(i as int)),
                },
            decreases i,
        {
            proof {
                assert(all.take(i as int).drop_last() =~= all.take(i - 1));
            }
            match self.workers[i - 1].task {
                Task::Sleeping => {
                    found = Some(i - 1);
                },
                _ => {},
            }
            i -= 1;
        }
        proof {
            assert(all.take(0) =~= Seq::<Worker>::empty());
        }
        found
    }

    /// Wakes sleepers: one, the one that `pick` names or else the first,
    /// or all of them.
    fn wake(&mut self, width: Option<Width>, pick: usize)
        ensures
            final(self)@ == (Snapshot {
                workers: after_wake(old(self)@.workers, width, pick as int),
                ..old(self)@
            }),
    {
        match width {
            None => {},
            Some(Width::One) => {
                let picked = if pick < self.workers.len() {
                    match self.workers[pick].task {
                        Task::Sleeping => Some(pick),
                        _ => None,
                    }
                } else {
                    None
                };
                let target = match picked {
                    Some(k) => Some(k),
                    None => self.first_sleeping(),
                };
                match target {
                    Some(k) => {
                        proof {
                            lemma_first_sleeper(self@.workers);
                        }
                        let w = self.workers[k];
                        self.workers.set(
                            k,
                            Worker {
                                task: Task::Acquiring(Acquire::Dequeue),
                                level: w.level,
                                rounds_left: w.rounds_left,
                            },
                        );
                    },
                    None => {},
                }
            },
            Some(Width::All) => {
                let ghost before = self.workers@;
                let mut i: usize = 0;
                while i < self.workers.len()
                    invariant
                        i <= self.workers.len(),
                        self.workers@.len() == before.len(),
                        self.plan == old(self).plan,
                        self.mutex == old(self).mutex,
                        self.counter == old(self).counter,
                        forall|k: int| 0 <= k < i ==> self.workers@[k] == awake(before[k]),
                        forall|k: int| i <= k < before.len() ==> self.workers@[k] == before[k],
                    decreases self.workers.len() - i,
                {
                    let w = self.workers[i];
                    match w.task {
                        Task::Sleeping => {
                            self.workers.set(
                                i,
                                Worker {
                                    task: Task::Acquiring(Acquire::Dequeue),
                                    level: w.level,
                                    rounds_left: w.rounds_left,
                                },
                            );
                        },
                        _ => {},
                    }
                    i += 1;
                }
                proof {
                    assert(self.workers@ =~= after_wake(before, width, pick as int));
                }
            },
        }
    }

    /// Lets worker `who` take its next step, which is one atomic access; the
    /// kernel wakes sleeper `wakes` if the step is a wake-up of one and that
    /// worker sleeps, and else the first sleeper. A worker that is done, and
    /// an index that names no worker, change nothing. A sleeper that takes a
    /// step has woken for no reason.
    pub fn step(&mut self, who: usize, wakes: usize)
        ensures
            final(self)@ == old(self)@.step(Turn { who: who as int, wakes: wakes as int }),
    {
        if who >= self.workers.len() {
            return ;
        }
        let w = self.workers[who];
        match w.task {
            Task::Acquiring(stage) => {
                let sleeps = match stage.access(who) {
                    Some(ReentrantAccess::Wait { expected }) => self.mutex.locked_raw() == expected,
                    _ => false,
                };
                if sleeps {
                    self.workers.set(
                        who,
                        Worker { task: Task::Sleeping, level: w.level, rounds_left: w.rounds_left },
                    );
                    return ;
                }
                let next = if w.level == 0 || self.plan.patient {
                    self.mutex.lock(who, stage)
                } else {
                    self.mutex.try_lock(who, stage)
                };
                let moved = match next {
                    Acquire::Held => Worker {
                        task: Task::Reading,
                        level: if w.level < usize::MAX {
                            w.level + 1
                        } else {
                            w.level
                        },
                        rounds_left: w.rounds_left,
                    },
                    Acquire::Busy => Worker {
                        task: Task::Failed,
                        level: w.level,
                        rounds_left: w.rounds_left,
                    },
                    Acquire::DepthExhausted => Worker {
                        task: Task::Failed,
                        level: w.level,
                        rounds_left: w.rounds_left,
                    },
                    _ => Worker {
                        task: Task::Acquiring(next),
                        level: w.level,
                        rounds_left: w.rounds_left,
                    },
                };
                self.workers.set(who, moved);
            },
            Task::Sleeping => {
                self.workers.set(
                    who,
                    Worker {
                        task: Task::Acquiring(Acquire::Dequeue),
                        level: w.level,
                        rounds_left: w.rounds_left,
                    },
                );
            },
            Task::Reading => {
                let seen = self.counter;
                self.workers.set(
                    who,
                    Worker { task: Task::Writing { seen }, level: w.level, rounds_left: w.rounds_left },
                );
            },
            Task::Writing { seen } => {
                self.counter = seen.wrapping_add(1);
                let task = if w.level < self.plan.depth {
                    Task::Acquiring(Acquire::Swap)
                } else {
                    Task::Releasing(Release::CheckOwner)
                };
                self.workers.set(who, Worker { task, level: w.level, rounds_left: w.rounds_left });
            },
            Task::Releasing(stage) => {
                let width = match stage.access() {
                    Some(ReentrantAccess::Wake { width }) => Some(width),
                    _ => None,
                };
                let next = self.mutex.unlock(who, stage);
                let moved = match next {
                    Release::StillHeld => Worker {
                        task: Task::Releasing(Release::CheckOwner),
                        level: if w.level > 0 {
                            w.level - 1
                        } else {
                            w.level
                        },
                        rounds_left: w.rounds_left,
                    },
                    Release::Released => if w.rounds_left <= 1 {
                        Worker { task: Task::Done, level: 0, rounds_left: 0 }
                    } else {
                        Worker {
                            task: Task::Acquiring(Acquire::Swap),
                            level: 0,
                            rounds_left: w.rounds_left - 1,
                        }
                    },
                    Release::NotOwner => Worker {
                        task: Task::Failed,
                        level: w.level,
                        rounds_left: w.rounds_left,
                    },
                    Release::NotLocked => Worker {
                        task: Task::Failed,
                        level: w.level,
                        rounds_left: w.rounds_left,
                    },
                    _ => Worker {
                        task: Task::Releasing(next),
                        level: w.level,
                        rounds_left: w.rounds_left,
                    },
                };
                self.workers.set(who, moved);
                self.wake(width, wakes);
            },
            Task::Done => {},
            Task::Failed => {},
        }
    }

    /// Whether some worker has a step to take.
    pub fn can_go_on(&self) -> (r: bool)
        ensures
            r == self@.can_go_on(),
    {
        let mut i: usize = 0;
        while i < self.workers.len()
            invariant
                i <= self.workers.len(),
                forall|k: int| 0 <= k < i ==> !active(#[trigger] self.workers@[k]),
            decreases self.workers.len() - i,
        {
            match self.workers[i].task {
                Task::Done => {},
                Task::Failed => {},
                Task::Sleeping => {},
                _ => {
                    assert(active(self@.workers[i as int]));
                    return true;
                },
            }
            i += 1;
        }
        false
    }

    /// The number of workers that are asleep in the kernel.
    pub fn sleepers(&self) -> (n: usize)
        ensures
            n == total(Tally::Sleeping, self@.workers),
    {
        let mut n: usize = 0;
        let mut i: usize = 0;
        while i < self.workers.len()
            invariant
                i <= self.workers.len(),
                n <= i,
                n == total(Tally::Sleeping, self.workers@.take(i as int)),
            decreases self.workers.len() - i,
        {
            proof {
                assert(weights(Tally::Sleeping, self.workers@.take(i + 1)).drop_last() =~= weights(
                    Tally::Sleeping,
                    self.workers@.take(i as int),
                ));
            }
            match self.workers[i].task {
                Task::Sleeping => {
                    n += 1;
                },
                _ => {},
            }
            i += 1;
        }
        proof {
            assert(self.workers@.take(i as int) =~= self.workers@);
        }
        n
    }
}

/// `first_sleeper` finds a sleeper, and finds none only where there is none.
pub proof fn lemma_first_sleeper(workers: Seq<Worker>)
    ensures
        match first_sleeper(workers) {
            Some(k) => 0 <= k < workers.len() && workers[k].task is Sleeping,
            None => forall|i: int| 0 <= i < workers.len() ==> !((#[trigger] workers[i]).task is Sleeping),
        },
    decreases workers.len(),
{
    if workers.len() > 0 {
        let rest = workers.drop_last();
        lemma_first_sleeper(rest);
        match first_sleeper(rest) {
            Some(k) => {
                assert(rest[k] == workers[k]);
            },
            None => {
                assert forall|i: int| 0 <= i < workers.len() && first_sleeper(workers) is None
                    implies !((#[trigger] workers[i]).task is Sleeping) by {
                    if i < rest.len() {
                        assert(rest[i] == workers[i]);
                    }
                }
            },
        }
    }
}

/// Replacing one worker changes a total by the difference of the two weights.
pub proof fn lemma_total_update(tally: Tally, workers: Seq<Worker>, who: int, moved: Worker)
    requires
        0 <= who < workers.len(),
    ensures
        total(tally, workers.update(who, moved)) == total(tally, workers) - weight(
            tally,
            workers[who],
        ) + weight(tally, moved),
{
    assert(weights(tally, workers.update(who, moved)) =~= weights(tally, workers).update(
        who,
        weight(tally, moved),
    ));
    lemma_sum_update(weights(tally, workers), who, weight(tally, moved));
}

/// At most one worker is flagged where the flags sum to at most one.
pub proof fn lemma_one_flag(workers: Seq<Worker>, i: int, j: int)
    requires
        0 <= i < workers.len(),
        0 <= j < workers.len(),
        total(Tally::Flagged, workers) <= 1,
        flagged(workers[i]),
        flagged(workers[j]),
    ensures
        i == j,
{
    let xs = weights(Tally::Flagged, workers);
    if i < j {
        lemma_sum_covers_two(xs, i, j);
    } else if j < i {
        lemma_sum_covers_two(xs, j, i);
    }
}

/// A flagged worker makes the flags sum to at least one.
pub proof fn lemma_flag_counts(workers: Seq<Worker>, i: int)
    requires
        0 <= i < workers.len(),
        flagged(workers[i]),
    ensures
        total(Tally::Flagged, workers) >= 1,
{
    lemma_sum_covers_one(weights(Tally::Flagged, workers), i);
}

/// The fresh workload is exclusive.
pub proof fn lemma_fresh_is_exclusive(threads: nat, plan: Plan)
    requires
        threads <= usize::MAX,
        plan.depth >= 1,
    ensures
        Snapshot::fresh(threads, plan).exclusive(),
{
    let s = Snapshot::fresh(threads, plan);
    lemma_sum_bounds(weights(Tally::Flagged, s.workers), 0, 0);
    lemma_sum_bounds(weights(Tally::Announced, s.workers), 0, 0);
    lemma_sum_bounds(weights(Tally::Sleeping, s.workers), 0, 0);
    assert(s.workers.len() * 0 == 0);
}

/// What holds of the mutex and the workers in every reachable state, but
/// for the sleepers.
pub open spec fn held_together(s: Snapshot) -> bool {
    &&& s.workers.len() <= usize::MAX
    &&& s.plan.depth >= 1
    &&& forall|i: int| 0 <= i < s.workers.len() ==> Snapshot::shaped(#[trigger] s.workers[i], s.plan)
    &&& total(Tally::Flagged, s.workers) == if s.mutex.locked {
        1int
    } else {
        0int
    }
    &&& forall|i: int|
        0 <= i < s.workers.len() && recorded(#[trigger] s.workers[i]) ==> {
            &&& s.mutex.owner == Some(i as usize)
            &&& s.workers[i].level >= 1 ==> s.mutex.depth == s.workers[i].level - 1
        }
    &&& (s.mutex.owner matches Some(t) ==> t < s.workers.len() && recorded(s.workers[t as int]))
    &&& total(Tally::Announced, s.workers) == s.mutex.waiters
}

/// One step of a worker, before the kernel wakes anybody, keeps the mutex
/// and the workers together.
pub proof fn lemma_own_step_holds_together(s: Snapshot, who: int)
    requires
        held_together(s),
    ensures
        held_together(s.own_step(who)),
        s.own_step(who).workers.len() == s.workers.len(),
        s.own_step(who).plan == s.plan,
{
    if 0 <= who < s.workers.len() {
        let t = s.own_step(who);
        let w = s.workers[who];
        let moved = t.workers[who];
        assert(Snapshot::shaped(w, s.plan));
        if !(w.task is Done) && !(w.task is Failed) {
            assert(t.workers == s.workers.update(who, moved));
            lemma_total_update(Tally::Flagged, s.workers, who, moved);
            lemma_total_update(Tally::Announced, s.workers, who, moved);
            lemma_sum_covers_one(weights(Tally::Flagged, s.workers), who);
            lemma_sum_covers_one(weights(Tally::Announced, s.workers), who);
            lemma_sum_bounds(weights(Tally::Announced, t.workers), 0, 1);
            assert forall|k: int| 0 <= k < s.workers.len() && k != who && flagged(
                #[trigger] s.workers[k],
            ) implies !flagged(w) by {
                if flagged(w) {
                    lemma_one_flag(s.workers, k, who);
                }
            }
            if s.mutex.owner is Some {
                let holder = s.mutex.owner->Some_0 as int;
                assert(recorded(s.workers[holder]));
                assert(flagged(s.workers[holder]));
                lemma_flag_counts(s.workers, holder);
            }
            assert(Snapshot::shaped(moved, s.plan));
            assert forall|k: int| 0 <= k < t.workers.len() implies Snapshot::shaped(
                #[trigger] t.workers[k],
                t.plan,
            ) by {
                if k != who {
                    assert(t.workers[k] == s.workers[k]);
                }
            }
            assert forall|k: int| 0 <= k < t.workers.len() && recorded(
                #[trigger] t.workers[k],
            ) implies {
                &&& t.mutex.owner == Some(k as usize)
                &&& t.workers[k].level >= 1 ==> t.mutex.depth == t.workers[k].level - 1
            } by {
                if k != who {
                    assert(t.workers[k] == s.workers[k]);
                    assert(flagged(s.workers[k]));
                }
            }
            if t.mutex.owner is Some {
                let holder = t.mutex.owner->Some_0 as int;
                if holder != who {
                    assert(t.workers[holder] == s.workers[holder]);
                }
            }
        }
    }
}

/// A wake-up changes no worker but sleepers, which it makes workers that
/// withdraw their announcement: it keeps the shape of every worker and
/// every total but those of the sleepers and of the active, and where
/// sleepers were, it has woken one.
pub proof fn lemma_wake_keeps_totals(
    workers: Seq<Worker>,
    width: Option<Width>,
    pick: int,
    plan: Plan,
)
    requires
        forall|i: int| 0 <= i < workers.len() ==> Snapshot::shaped(#[trigger] workers[i], plan),
        plan.depth >= 1,
    ensures
        ({
            let after = after_wake(workers, width, pick);
            &&& after.len() == workers.len()
            &&& forall|i: int| 0 <= i < after.len() ==> Snapshot::shaped(#[trigger] after[i], plan)
            &&& forall|i: int|
                0 <= i < after.len() ==> (#[trigger] after[i] == workers[i] || (
                workers[i].task is Sleeping && after[i] == awake(workers[i])))
            &&& total(Tally::Flagged, after) == total(Tally::Flagged, workers)
            &&& total(Tally::Announced, after) == total(Tally::Announced, workers)
            &&& total(Tally::Credited { plan }, after) == total(Tally::Credited { plan }, workers)
            &&& total(Tally::Active, after) >= total(Tally::Active, workers)
            &&& total(Tally::Sleeping, after) <= total(Tally::Sleeping, workers)
            &&& width is Some && total(Tally::Sleeping, workers) > 0 ==> total(
                Tally::Active,
                after,
            ) > 0
        }),
{
    let after = after_wake(workers, width, pick);
    let credit = Tally::Credited { plan };
    lemma_first_sleeper(workers);
    assert forall|i: int| 0 <= i < after.len() implies Snapshot::shaped(#[trigger] after[i], plan) by {
        assert(Snapshot::shaped(workers[i], plan));
    }
    assert forall|k: int| 0 <= k < workers.len() implies #[trigger] weights(Tally::Flagged, after)[k]
        == weights(Tally::Flagged, workers)[k] by {
        assert(Snapshot::shaped(workers[k], plan));
    }
    assert(weights(Tally::Flagged, after) =~= weights(Tally::Flagged, workers));
    assert(weights(Tally::Announced, after) =~= weights(Tally::Announced, workers));
    assert forall|k: int| 0 <= k < workers.len() implies #[trigger] weights(credit, after)[k]
        == weights(credit, workers)[k] by {
        assert(Snapshot::shaped(workers[k], plan));
    }
    assert(weights(credit, after) =~= weights(credit, workers));
    assert forall|k: int| 0 <= k < workers.len() implies #[trigger] weights(
        Tally::Active,
        workers,
    )[k] <= weights(Tally::Active, after)[k] by {}
    lemma_sum_dominates(weights(Tally::Active, workers), weights(Tally::Active, after));
    assert forall|k: int| 0 <= k < workers.len() implies #[trigger] weights(
        Tally::Sleeping,
        after,
    )[k] <= weights(Tally::Sleeping, workers)[k] by {}
    lemma_sum_dominates(weights(Tally::Sleeping, after), weights(Tally::Sleeping, workers));
    if width is Some && total(Tally::Sleeping, workers) > 0 {
        let k = lemma_sum_has_positive(weights(Tally::Sleeping, workers));
        assert(workers[k].task is Sleeping);
        match width {
            Some(Width::One) => {
                let woken = woken_one(workers, pick)->Some_0;
                assert(active(after[woken]));
                lemma_sum_covers_one(weights(Tally::Active, after), woken);
            },
            _ => {
                assert(active(after[k]));
                lemma_sum_covers_one(weights(Tally::Active, after), k);
            },
        }
    }
}

/// One step of any worker keeps an exclusive workload exclusive.
pub proof fn lemma_step_keeps_exclusive(s: Snapshot, turn: Turn)
    requires
        s.exclusive(),
    ensures
        s.step(turn).exclusive(),
        s.step(turn).workers.len() == s.workers.len(),
        s.step(turn).plan == s.plan,
{
    let who = turn.who;
    let mid = s.own_step(who);
    let t = s.step(turn);
    lemma_own_step_holds_together(s, who);
    lemma_wake_keeps_totals(mid.workers, s.wakes(who), turn.wakes, s.plan);
    assert forall|i: int| 0 <= i < t.workers.len() && recorded(#[trigger] t.workers[i]) implies {
        &&& t.mutex.owner == Some(i as usize)
        &&& t.workers[i].level >= 1 ==> t.mutex.depth == t.workers[i].level - 1
    } by {
        assert(Snapshot::shaped(mid.workers[i], s.plan));
        assert(recorded(mid.workers[i]));
    }
    if t.mutex.owner is Some {
        let holder = t.mutex.owner->Some_0 as int;
        assert(recorded(mid.workers[holder]));
        assert(t.workers[holder] == mid.workers[holder]);
    }
    assert(held_together(t));
    lemma_sum_dominates(weights(Tally::Sleeping, s.workers), weights(Tally::Announced, s.workers));
    lemma_sum_dominates(weights(Tally::Sleeping, mid.workers), weights(Tally::Announced, mid.workers));
    if 0 <= who < s.workers.len() && total(Tally::Sleeping, t.workers) > 0 {
        let w = s.workers[who];
        let moved = mid.workers[who];
        assert(Snapshot::shaped(w, s.plan));
        assert(Snapshot::shaped(moved, s.plan));
        if w.task is Done {
            assert(mid == s);
            assert(s.wakes(who) is None);
        } else {
            assert(mid.workers == s.workers.update(who, moved));
            lemma_total_update(Tally::Sleeping, s.workers, who, moved);
            lemma_total_update(Tally::Active, s.workers, who, moved);
            if active(moved) {
                assert(t.workers[who] == moved);
                lemma_sum_covers_one(weights(Tally::Active, t.workers), who);
            } else if moved.task is Sleeping && !(w.task is Sleeping) {
                let k = lemma_sum_has_positive(weights(Tally::Flagged, s.workers));
                assert(flagged(s.workers[k]));
                assert(Snapshot::shaped(s.workers[k], s.plan));
                assert(mid.workers[k] == s.workers[k]);
                assert(t.workers[k] == s.workers[k]);
                lemma_sum_covers_one(weights(Tally::Active, t.workers), k);
            }
        }
    }
}

/// A worker of a consistent shape has made no more increments than its
/// plan has, and one that is done has made them all.
pub proof fn lemma_credit_bounds(w: Worker, plan: Plan)
    requires
        Snapshot::shaped(w, plan),
        plan.depth >= 1,
    ensures
        0 <= weight(Tally::Credited { plan }, w) <= plan.rounds * plan.depth,
        w.task is Done ==> weight(Tally::Credited { plan }, w) == plan.rounds * plan.depth,
{
    let done = plan.rounds - w.rounds_left;
    assert(0 <= done * plan.depth) by (nonlinear_arith)
        requires
            0 <= done,
            0 <= plan.depth,
    ;
    if !(w.task is Done) {
        assert(done * plan.depth + plan.depth <= plan.rounds * plan.depth) by (nonlinear_arith)
            requires
                0 <= done <= plan.rounds - 1,
                0 <= plan.depth,
        ;
    }
}

/// The fresh workload is counted.
pub proof fn lemma_fresh_is_counted(threads: nat, plan: Plan)
    requires
        plan.start + threads * (plan.rounds * plan.depth) <= u64::MAX,
    ensures
        Snapshot::fresh(threads, plan).counted(),
{
    let s = Snapshot::fresh(threads, plan);
    let credit = Tally::Credited { plan };
    assert forall|i: int| 0 <= i < s.workers.len() implies 0 <= #[trigger] weights(
        credit,
        s.workers,
    )[i] <= 0 by {
        assert((plan.rounds - plan.rounds) * plan.depth == 0);
    }
    lemma_sum_bounds(weights(credit, s.workers), 0, 0);
    assert(s.workers.len() * 0 == 0);
}

/// One step of any worker keeps an exclusive and counted workload counted.
pub proof fn lemma_step_keeps_counted(s: Snapshot, turn: Turn)
    requires
        s.exclusive(),
        s.counted(),
    ensures
        s.step(turn).counted(),
{
    let who = turn.who;
    let mid = s.own_step(who);
    let t = s.step(turn);
    let credit = Tally::Credited { plan: s.plan };
    lemma_step_keeps_exclusive(s, turn);
    lemma_own_step_holds_together(s, who);
    lemma_wake_keeps_totals(mid.workers, s.wakes(who), turn.wakes, s.plan);
    assert forall|k: int| 0 <= k < t.workers.len() implies 0 <= #[trigger] weights(
        credit,
        t.workers,
    )[k] <= s.plan.rounds * s.plan.depth by {
        assert(Snapshot::shaped(t.workers[k], s.plan));
        lemma_credit_bounds(t.workers[k], s.plan);
    }
    lemma_sum_bounds(weights(credit, t.workers), 0, s.plan.rounds * s.plan.depth);
    if 0 <= who < s.workers.len() {
        let w = s.workers[who];
        let moved = mid.workers[who];
        assert(Snapshot::shaped(w, s.plan));
        assert(Snapshot::shaped(moved, s.plan));
        if !(w.task is Done) && !(w.task is Failed) {
            assert(mid.workers == s.workers.update(who, moved));
            lemma_total_update(credit, s.workers, who, moved);
            assert(weight(credit, moved) - weight(credit, w) == if w.task is Writing {
                1int
            } else {
                0int
            }) by {
                let done = s.plan.rounds - w.rounds_left;
                assert((done + 1) * s.plan.depth == done * s.plan.depth + s.plan.depth)
                    by (nonlinear_arith);
                assert((s.plan.rounds - 0) * s.plan.depth == s.plan.rounds * s.plan.depth);
            }
            assert forall|k: int| 0 <= k < t.workers.len() implies (
            #[trigger] t.workers[k].task matches Task::Writing { seen } ==> seen == t.counter) by {
                assert(t.workers[k] == mid.workers[k] || mid.workers[k].task is Sleeping);
                if k != who {
                    assert(mid.workers[k] == s.workers[k]);
                    if s.workers[k].task is Writing && flagged(w) {
                        lemma_one_flag(s.workers, k, who);
                    }
                }
            }
        } else {
            assert forall|k: int| 0 <= k < t.workers.len() implies (
            #[trigger] t.workers[k].task matches Task::Writing { seen } ==> seen == t.counter) by {
                assert(t.workers[k] == mid.workers[k] || mid.workers[k].task is Sleeping);
            }
        }
    } else {
        assert forall|k: int| 0 <= k < t.workers.len() implies (
        #[trigger] t.workers[k].task matches Task::Writing { seen } ==> seen == t.counter) by {
            assert(t.workers[k] == mid.workers[k] || mid.workers[k].task is Sleeping);
        }
    }
}

/// Every state that a fresh workload reaches is exclusive.
pub proof fn lemma_reachable_is_exclusive(threads: nat, plan: Plan, schedule: Seq<Turn>)
    requires
        threads <= usize::MAX,
        plan.depth >= 1,
    ensures
        Snapshot::fresh(threads, plan).run(schedule).exclusive(),
        Snapshot::fresh(threads, plan).run(schedule).workers.len() == threads,
        Snapshot::fresh(threads, plan).run(schedule).plan == plan,
    decreases schedule.len(),
{
    if schedule.len() == 0 {
        lemma_fresh_is_exclusive(threads, plan);
    } else {
        lemma_reachable_is_exclusive(threads, plan, schedule.drop_last());
        lemma_step_keeps_exclusive(
            Snapshot::fresh(threads, plan).run(schedule.drop_last()),
            schedule.last(),
        );
    }
}

/// Every state that a fresh workload reaches is counted.
pub proof fn lemma_reachable_is_counted(threads: nat, plan: Plan, schedule: Seq<Turn>)
    requires
        threads <= usize::MAX,
        plan.depth >= 1,
        plan.start + threads * (plan.rounds * plan.depth) <= u64::MAX,
    ensures
        Snapshot::fresh(threads, plan).run(schedule).counted(),
    decreases schedule.len(),
{
    if schedule.len() == 0 {
        lemma_fresh_is_counted(threads, plan);
    } else {
        lemma_reachable_is_exclusive(threads, plan, schedule.drop_last());
        lemma_reachable_is_counted(threads, plan, schedule.drop_last());
        lemma_step_keeps_counted(
            Snapshot::fresh(threads, plan).run(schedule.drop_last()),
            schedule.last(),
        );
    }
}

/// Reentrancy: however the steps of the threads interleave, a thread that
/// holds the mutex and takes it again, with `lock` or with `try_lock`, never
/// waits for it and is never refused; no acquisition and no release comes
/// to a fatal end.
pub proof fn law_holder_reenters_at_once(
    threads: nat,
    plan: Plan,
    schedule: Seq<Turn>,
    who: int,
)
    requires
        threads <= usize::MAX,
        plan.depth >= 1,
        0 <= who < threads,
    ensures
        ({
            let w = Snapshot::fresh(threads, plan).run(schedule).workers[who];
            &&& !(w.task is Failed)
            &&& w.level >= 1 ==> !(w.task matches Task::Acquiring(Acquire::Enqueue))
            &&& w.level >= 1 ==> !(w.task matches Task::Acquiring(Acquire::Park))
            &&& w.level >= 1 ==> !(w.task matches Task::Acquiring(Acquire::Dequeue))
            &&& w.level >= 1 ==> !(w.task is Sleeping)
        }),
{
    lemma_reachable_is_exclusive(threads, plan, schedule);
    let s = Snapshot::fresh(threads, plan).run(schedule);
    assert(Snapshot::shaped(s.workers[who], plan));
}

/// The lock stays held until the last matching unlock: however the steps of
/// the threads interleave, while a thread has acquisitions that it has not
/// given back, the mutex is locked, names that thread as its owner with one
/// less than that many acquisitions as the depth, and no other thread holds
/// it. No two threads ever hold it at the same time.
pub proof fn law_held_until_last_unlock(
    threads: nat,
    plan: Plan,
    schedule: Seq<Turn>,
    i: int,
    j: int,
)
    requires
        threads <= usize::MAX,
        plan.depth >= 1,
    ensures
        ({
            let s = Snapshot::fresh(threads, plan).run(schedule);
            &&& s.holds(i) && s.holds(j) ==> i == j
            &&& s.holds(i) ==> s.mutex.locked
            &&& 0 <= i < threads && recorded(s.workers[i]) && s.workers[i].level >= 1
                ==> s.mutex.held_by(i as usize, (s.workers[i].level - 1) as usize)
        }),
{
    let s = Snapshot::fresh(threads, plan).run(schedule);
    lemma_reachable_is_exclusive(threads, plan, schedule);
    if s.holds(i) {
        lemma_flag_counts(s.workers, i);
        if s.holds(j) {
            lemma_one_flag(s.workers, i, j);
        }
    }
}

/// No lost update: however the steps of the threads interleave, once every
/// worker has completed its rounds the counter stands at its initial value
/// plus one for each acquisition of each round of each worker.
pub proof fn law_no_lost_update(threads: nat, plan: Plan, schedule: Seq<Turn>)
    requires
        threads <= usize::MAX,
        plan.depth >= 1,
        plan.start + threads * (plan.rounds * plan.depth) <= u64::MAX,
    ensures
        ({
            let s = Snapshot::fresh(threads, plan).run(schedule);
            s.all_done() ==> s.counter == plan.start + threads * (plan.rounds * plan.depth)
        }),
{
    let s = Snapshot::fresh(threads, plan).run(schedule);
    lemma_reachable_is_exclusive(threads, plan, schedule);
    lemma_reachable_is_counted(threads, plan, schedule);
    if s.all_done() {
        let credit = Tally::Credited { plan };
        let full = plan.rounds * plan.depth;
        assert forall|k: int| 0 <= k < s.workers.len() implies full <= #[trigger] weights(
            credit,
            s.workers,
        )[k] <= full by {
            assert(Snapshot::shaped(s.workers[k], plan));
            assert(s.workers[k].task is Done);
            lemma_credit_bounds(s.workers[k], plan);
        }
        lemma_sum_bounds(weights(credit, s.workers), full, full);
    }
}

/// No wake-up is lost: however the steps of the threads interleave and
/// whomever the kernel wakes, the workload never comes to a stop before
/// every worker is done. While a worker sleeps, another has a step to take,
/// even if no sleeper ever wakes without being woken.
pub proof fn law_no_lost_wakeup(threads: nat, plan: Plan, schedule: Seq<Turn>)
    requires
        threads <= usize::MAX,
        plan.depth >= 1,
    ensures
        ({
            let s = Snapshot::fresh(threads, plan).run(schedule);
            s.all_done() || s.can_go_on()
        }),
{
    let s = Snapshot::fresh(threads, plan).run(schedule);
    lemma_reachable_is_exclusive(threads, plan, schedule);
    if !s.all_done() {
        let i = choose|i: int| 0 <= i < s.workers.len() && !((#[trigger] s.workers[i]).task is Done);
        assert(Snapshot::shaped(s.workers[i], plan));
        if s.workers[i].task is Sleeping {
            lemma_sum_covers_one(weights(Tally::Sleeping, s.workers), i);
            let k = lemma_sum_has_positive(weights(Tally::Active, s.workers));
            assert(active(s.workers[k]));
        } else {
            assert(active(s.workers[i]));
        }
    }
}

} // verus!
