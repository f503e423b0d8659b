//! Threads that share one reader-writer lock to read and to increment a
//! counter.
//!
//! Every worker repeats the same round. First it takes the lock as a reader
//! and loads the counter; where the plan asks for it, it takes the lock as a
//! reader once more with `try_read` while it still holds it, loads the
//! counter again, and gives that second hold back; then it gives the first
//! hold back. Second it takes the lock as the writer, loads the counter,
//! stores the loaded value plus one, and gives the lock back. A step of the
//! workload is one atomic access of one worker, so a schedule is an
//! interleaving of the threads.
//!
//! The kernel is part of the workload. A worker whose access is a wait falls
//! asleep iff the users word still holds what the wait expects, and sleeps
//! until a wake-up picks it, or until it wakes for no reason, which the
//! kernel allows. A wake-up wakes one sleeper of the kernel's choice, or all
//! of them. The laws at the end hold for every schedule and every choice of
//! the kernel.

use vstd::prelude::*;
use crate::access::{Turn, Width};
use crate::contention::next_count;
use crate::rwlock::{RWLock, Read, ReadUnlock, RwAccess, Write, WriteUnlock, WRITER};
use crate::tally::{
    lemma_sum_bounds, lemma_sum_covers_one, lemma_sum_covers_two, lemma_sum_dominates,
    lemma_sum_has_positive, lemma_sum_update, sum,
};

verus! {

/// What a worker does next.
#[derive(Clone, Copy, Debug, PartialEq, Eq)]
pub enum Task {
    /// Inside `read`, at the given stage (never at an end).
    ReadLocking(Read),
    /// Inside `read`, asleep in the kernel until the users word is woken on.
    SleepingReader,
    /// Holds the lock as a reader; about to load the counter.
    Peeking,
    /// Holds the lock as a reader and is inside `try_read` for a second hold.
    Probing(Read),
    /// Holds the lock as a reader twice; about to load the counter.
    PeekingAgain,
    /// Inside `read_unlock` for the second hold.
    ProbeUnlocking(ReadUnlock),
    /// Inside `read_unlock` for the first hold.
    ReadUnlocking(ReadUnlock),
    /// Inside `write`, at the given stage (never at an end).
    WriteLocking(Write),
    /// Inside `write`, asleep in the kernel until the users word is woken on.
    SleepingWriter,
    /// Holds the lock as the writer; about to load the counter.
    Loading,
    /// Holds the lock as the writer; about to store `seen + 1`.
    Storing { seen: u64 },
    /// Inside `write_unlock`.
    WriteUnlocking(WriteUnlock),
    /// All rounds are done.
    Done,
    /// An acquisition or a release came to an end that it must not come to.
    Failed,
}

/// One thread of the workload.
#[derive(Clone, Copy, Debug, PartialEq, Eq)]
pub struct Worker {
    /// What the thread does next.
    pub task: Task,
    /// The rounds that the thread has not completed yet.
    pub rounds_left: usize,
}

/// What every worker of a workload is to do.
#[derive(Clone, Copy, Debug, PartialEq, Eq)]
pub struct Plan {
    /// The rounds of each worker.
    pub rounds: usize,
    /// Whether a reader takes a second hold with `try_read`.
    pub probe: bool,
    /// The counter before any step.
    pub start: u64,
}

/// The workload: the plan, the lock, the counter that it guards, and the
/// workers.
pub struct Workload {
    plan: Plan,
    lock: RWLock,
    counter: u64,
    misread: bool,
    workers: Vec<Worker>,
}

/// The state of a workload as a mathematical value.
pub struct Snapshot {
    /// What every worker is to do.
    pub plan: Plan,
    /// The words of the lock.
    pub lock: RWLock,
    /// The guarded counter.
    pub counter: u64,
    /// Whether a reader ever loaded a counter below the plan's start.
    pub misread: bool,
    /// The workers, by thread index.
    pub workers: Seq<Worker>,
}

/// A quantity that is summed over the workers.
pub enum Tally {
    /// The holds that a worker has on the lock as a reader: 0, 1 or 2.
    Readers,
    /// 1 for a worker that holds the lock as the writer.
    Writers,
    /// 1 for a worker that is counted in `waiters`.
    Announced,
    /// 1 for a worker that is asleep in the kernel.
    Sleeping,
    /// 1 for a worker that has a step to take: not done and not asleep.
    Active,
    /// 1 for a reader that is asleep in the kernel.
    SleepingReaders,
    /// 1 for a worker that has freed the lock as the writer and has yet to
    /// see to the waiters.
    Clearing,
    /// The increments that a worker of `rounds` rounds has made so far.
    Credited { rounds: usize },
}

/// The holds that the worker has on the lock as a reader.
pub open spec fn read_holds(w: Worker) -> int {
    match w.task {
        Task::Peeking => 1,
        Task::Probing(_) => 1,
        Task::PeekingAgain => 2,
        Task::ProbeUnlocking(_) => 2,
        Task::ReadUnlocking(ReadUnlock::Load) => 1,
        Task::ReadUnlocking(ReadUnlock::Swap { .. }) => 1,
        _ => 0,
    }
}

/// Whether the worker holds the lock as the writer.
pub open spec fn writes(w: Worker) -> bool {
    match w.task {
        Task::Loading => true,
        Task::Storing { .. } => true,
        Task::WriteUnlocking(WriteUnlock::Swap) => true,
        _ => false,
    }
}

/// Whether the worker is asleep in the kernel.
pub open spec fn sleeps(w: Worker) -> bool {
    w.task is SleepingReader || w.task is SleepingWriter
}

/// Whether the worker has a step to take: it is not done, has not failed,
/// and is not asleep.
pub open spec fn active(w: Worker) -> bool {
    !(w.task is Done) && !(w.task is Failed) && !sleeps(w)
}

/// Whether a worker whose next access is `access` falls asleep: the access
/// is a wait, and the users word still holds what the wait expects.
pub open spec fn falls_asleep(access: Option<RwAccess>, lock: RWLock) -> bool {
    access matches Some(RwAccess::Wait { expected }) && lock.users == expected
}

/// The width of the wake-up that the access makes, if it is one.
pub open spec fn wake_width(access: Option<RwAccess>) -> Option<Width> {
    match access {
        Some(RwAccess::Wake { width }) => Some(width),
        _ => None,
    }
}

/// The first sleeper, if there is one.
pub open spec fn first_sleeper(workers: Seq<Worker>) -> Option<int>
    decreases workers.len(),
{
    if workers.len() == 0 {
        None
    } else {
        match first_sleeper(workers.drop_last()) {
            Some(i) => Some(i),
            None => if sleeps(workers.last()) {
                Some(workers.len() - 1)
            } else {
                None
            },
        }
    }
}

/// The sleeper that a wake-up of one wakes: the one that the kernel picks,
/// or the first where it picks none; none where nobody sleeps.
pub open spec fn woken_one(workers: Seq<Worker>, pick: int) -> Option<int> {
    if 0 <= pick < workers.len() && sleeps(workers[pick]) {
        Some(pick)
    } else {
        first_sleeper(workers)
    }
}

/// A worker as it is once it has been woken.
pub open spec fn awake(w: Worker) -> Worker {
    match w.task {
        Task::SleepingReader => Worker { task: Task::ReadLocking(Read::Dequeue), ..w },
        Task::SleepingWriter => Worker { task: Task::WriteLocking(Write::Dequeue), ..w },
        _ => w,
    }
}

/// The workers after a wake-up of the given width, if there is one.
pub open spec fn after_wake(workers: Seq<Worker>, width: Option<Width>, pick: int) -> Seq<Worker> {
    match width {
        None => workers,
        Some(Width::One) => match woken_one(workers, pick) {
            Some(k) => workers.update(k, awake(workers[k])),
            None => workers,
        },
        Some(Width::All) => Seq::new(workers.len(), |i: int| awake(workers[i])),
    }
}

/// The access that the worker makes next, where it is one to the words of
/// the lock or to the kernel.
pub open spec fn next_access(w: Worker) -> Option<RwAccess> {
    match w.task {
        Task::ReadLocking(stage) => stage.request(),
        Task::Probing(stage) => stage.request(),
        Task::ProbeUnlocking(stage) => stage.request(),
        Task::ReadUnlocking(stage) => stage.request(),
        Task::WriteLocking(stage) => stage.request(),
        Task::WriteUnlocking(stage) => stage.request(),
        _ => None,
    }
}

/// What one worker contributes to a tally.
pub open spec fn weight(tally: Tally, w: Worker) -> int {
    match tally {
        Tally::Readers => read_holds(w),
        Tally::Writers => if writes(w) {
            1
        } else {
            0
        },
        Tally::Announced => match w.task {
            Task::ReadLocking(Read::Park { .. }) => 1,
            Task::SleepingReader => 1,
            Task::ReadLocking(Read::Dequeue) => 1,
            Task::WriteLocking(Write::Park { .. }) => 1,
            Task::SleepingWriter => 1,
            Task::WriteLocking(Write::Dequeue) => 1,
            _ => 0,
        },
        Tally::Sleeping => if sleeps(w) {
            1
        } else {
            0
        },
        Tally::Active => if active(w) {
            1
        } else {
            0
        },
        Tally::SleepingReaders => if w.task is SleepingReader {
            1
        } else {
            0
        },
        Tally::Clearing => match w.task {
            Task::WriteUnlocking(WriteUnlock::CheckWaiters) => 1,
            Task::WriteUnlocking(WriteUnlock::Wake) => 1,
            _ => 0,
        },
        Tally::Credited { rounds } => rounds - w.rounds_left + match w.task {
            Task::WriteUnlocking(_) => 1int,
            _ => 0int,
        },
    }
}

/// What each worker contributes to a tally, by thread index.
pub open spec fn weights(tally: Tally, workers: Seq<Worker>) -> Seq<int> {
    Seq::new(workers.len(), |i: int| weight(tally, workers[i]))
}

/// The sum of a tally over the workers.
pub open spec fn total(tally: Tally, workers: Seq<Worker>) -> int {
    sum(weights(tally, workers))
}

/// The task that follows one step of `read` that led to `next`.
pub open spec fn task_after_read(next: Read) -> Task {
    match next {
        Read::Reading => Task::Peeking,
        Read::Busy => Task::Failed,
        Read::Exhausted => Task::Failed,
        _ => Task::ReadLocking(next),
    }
}

/// The task that follows one step of the second `try_read` that led to
/// `next`.
pub open spec fn task_after_probe(next: Read) -> Task {
    match next {
        Read::Reading => Task::PeekingAgain,
        Read::Load => Task::Probing(next),
        Read::Swap { .. } => Task::Probing(next),
        _ => Task::Failed,
    }
}

/// The task that follows one step of `read_unlock` that led to `next`;
/// `second` tells the second hold from the first.
pub open spec fn task_after_read_unlock(next: ReadUnlock, second: bool) -> Task {
    match next {
        ReadUnlock::Released => if second {
            Task::ReadUnlocking(ReadUnlock::Load)
        } else {
            Task::WriteLocking(Write::Swap)
        },
        ReadUnlock::HeldByWriter => Task::Failed,
        ReadUnlock::NotHeld => Task::Failed,
        _ => if second {
            Task::ProbeUnlocking(next)
        } else {
            Task::ReadUnlocking(next)
        },
    }
}

/// The task that follows one step of `write` that led to `next`.
pub open spec fn task_after_write(next: Write) -> Task {
    match next {
        Write::Writing => Task::Loading,
        Write::Busy => Task::Failed,
        _ => Task::WriteLocking(next),
    }
}

/// The worker after one step of `write_unlock` that led to `next`.
pub open spec fn worker_after_write_unlock(w: Worker, next: WriteUnlock) -> Worker {
    match next {
        WriteUnlock::Released => if w.rounds_left <= 1 {
            Worker { task: Task::Done, rounds_left: 0 }
        } else {
            Worker { task: Task::ReadLocking(Read::Load), rounds_left: (w.rounds_left - 1) as usize }
        },
        WriteUnlock::NotWriter => Worker { task: Task::Failed, ..w },
        _ => Worker { task: Task::WriteUnlocking(next), ..w },
    }
}

/// Whether the worker is about to load the counter as a reader.
pub open spec fn peeks(w: Worker) -> bool {
    w.task is Peeking || w.task is PeekingAgain
}

/// The worker and the words of the lock after the worker's next step, which
/// is one atomic access, where the counter holds `counter`. A sleeper that
/// takes a step has woken for no reason.
pub open spec fn advance(w: Worker, lock: RWLock, plan: Plan, counter: u64) -> (Worker, RWLock) {
    match w.task {
        Task::ReadLocking(stage) => {
            if falls_asleep(stage.request(), lock) {
                (Worker { task: Task::SleepingReader, ..w }, lock)
            } else {
                let (next, after) = stage.step(true, lock);
                (Worker { task: task_after_read(next), ..w }, after)
            }
        },
        Task::SleepingReader => (awake(w), lock),
        Task::SleepingWriter => (awake(w), lock),
        Task::Peeking => (
            Worker {
                task: if plan.probe {
                    Task::Probing(Read::Load)
                } else {
                    Task::ReadUnlocking(ReadUnlock::Load)
                },
                ..w
            },
            lock,
        ),
        Task::Probing(stage) => {
            let (next, after) = stage.step(false, lock);
            (Worker { task: task_after_probe(next), ..w }, after)
        },
        Task::PeekingAgain => (Worker { task: Task::ProbeUnlocking(ReadUnlock::Load), ..w }, lock),
        Task::ProbeUnlocking(stage) => {
            let (next, after) = stage.step(lock);
            (Worker { task: task_after_read_unlock(next, true), ..w }, after)
        },
        Task::ReadUnlocking(stage) => {
            let (next, after) = stage.step(lock);
            (Worker { task: task_after_read_unlock(next, false), ..w }, after)
        },
        Task::WriteLocking(stage) => {
            if falls_asleep(stage.request(), lock) {
                (Worker { task: Task::SleepingWriter, ..w }, lock)
            } else {
                let (next, after) = stage.step(true, lock);
                (Worker { task: task_after_write(next), ..w }, after)
            }
        },
        Task::Loading => (Worker { task: Task::Storing { seen: counter }, ..w }, lock),
        Task::Storing { .. } => (
            Worker { task: Task::WriteUnlocking(WriteUnlock::Swap), ..w },
            lock,
        ),
        Task::WriteUnlocking(stage) => {
            let (next, after) = stage.step(lock);
            (worker_after_write_unlock(w, next), after)
        },
        Task::Done => (w, lock),
        Task::Failed => (w, lock),
    }
}

/// How `users` stands to the holds of the workers: `WRITER` with one writer
/// and no reader, or the number of the readers' holds with no writer.
pub open spec fn balanced(users: usize, readers: int, writers: int) -> bool {
    if users == WRITER {
        writers == 1 && readers == 0
    } else {
        writers == 0 && readers == users
    }
}

impl Snapshot {
    /// The workload before any step: `threads` workers that each have all
    /// their rounds to go, a free lock, and the counter at its start.
    pub open spec fn fresh(threads: nat, plan: Plan) -> Snapshot {
        Snapshot {
            plan,
            lock: RWLock { users: 0, waiters: 0 },
            counter: plan.start,
            misread: false,
            workers: Seq::new(
                threads,
                |i: int|
                    Worker {
                        task: if plan.rounds == 0 {
                            Task::Done
                        } else {
                            Task::ReadLocking(Read::Load)
                        },
                        rounds_left: plan.rounds,
                    },
            ),
        }
    }

    /// The workload after worker `who` has taken its next step, which is one
    /// atomic access, before the kernel has woken anybody. A worker that is
    /// done, and an index that names no worker, change nothing.
    pub open spec fn own_step(self, who: int) -> Snapshot {
        if 0 <= who < self.workers.len() {
            let w = self.workers[who];
            let (moved, lock) = advance(w, self.lock, self.plan, self.counter);
            Snapshot {
                plan: self.plan,
                lock,
                counter: match w.task {
                    Task::Storing { seen } => next_count(seen),
                    _ => self.counter,
                },
                misread: self.misread || (peeks(w) && self.counter < self.plan.start),
                workers: self.workers.update(who, moved),
            }
        } else {
            self
        }
    }

    /// The width of the wake-up that the next step of worker `who` makes, if
    /// that step is one.
    pub open spec fn wakes(self, who: int) -> Option<Width> {
        if 0 <= who < self.workers.len() {
            wake_width(next_access(self.workers[who]))
        } else {
            None
        }
    }

    /// The workload after the worker of the turn has taken its next step,
    /// and the kernel has woken whom that step wakes.
    pub open spec fn step(self, turn: Turn) -> Snapshot {
        let mid = self.own_step(turn.who);
        Snapshot { workers: after_wake(mid.workers, self.wakes(turn.who), turn.wakes), ..mid }
    }

    /// The workload after the workers have taken their steps in the order
    /// that `schedule` gives.
    pub open spec fn run(self, schedule: Seq<Turn>) -> Snapshot
        decreases schedule.len(),
    {
        if schedule.len() == 0 {
            self
        } else {
            self.run(schedule.drop_last()).step(schedule.last())
        }
    }

    /// Whether some worker has a step to take.
    pub open spec fn can_go_on(self) -> bool {
        exists|i: int| 0 <= i < self.workers.len() && active(#[trigger] self.workers[i])
    }

    /// Whether every worker has completed all its rounds.
    pub open spec fn all_done(self) -> bool {
        forall|i: int| 0 <= i < self.workers.len() ==> (#[trigger] self.workers[i]).task is Done
    }

    /// Whether worker `who` holds the lock as a reader.
    pub open spec fn reads(self, who: int) -> bool {
        0 <= who < self.workers.len() && read_holds(self.workers[who]) >= 1
    }

    /// Whether worker `who` holds the lock as the writer.
    pub open spec fn writes(self, who: int) -> bool {
        0 <= who < self.workers.len() && writes(self.workers[who])
    }

    /// What holds of one worker in every reachable state.
    pub open spec fn shaped(w: Worker, plan: Plan) -> bool {
        &&& w.rounds_left <= plan.rounds
        &&& (w.task is Done <==> w.rounds_left == 0)
        &&& match w.task {
            Task::ReadLocking(stage) => match stage {
                Read::Swap { seen } => seen < WRITER - 1,
                Read::Enqueue { seen } => seen == WRITER,
                Read::Park { seen } => seen == WRITER,
                Read::Reading => false,
                Read::Busy => false,
                Read::Exhausted => false,
                _ => true,
            },
            Task::Probing(stage) => match stage {
                Read::Load => plan.probe,
                Read::Swap { seen } => plan.probe && seen < WRITER - 1,
                _ => false,
            },
            Task::PeekingAgain => plan.probe,
            Task::ProbeUnlocking(stage) => match stage {
                ReadUnlock::Load => plan.probe,
                ReadUnlock::Swap { seen } => plan.probe && 0 < seen < WRITER,
                _ => false,
            },
            Task::ReadUnlocking(stage) => match stage {
                ReadUnlock::Load => true,
                ReadUnlock::Swap { seen } => 0 < seen < WRITER,
                ReadUnlock::CheckWaiters => true,
                ReadUnlock::Wake => true,
                _ => false,
            },
            Task::WriteLocking(stage) => match stage {
                Write::Enqueue { seen } => seen != 0,
                Write::Park { seen } => seen != 0,
                Write::Writing => false,
                Write::Busy => false,
                _ => true,
            },
            Task::WriteUnlocking(stage) => match stage {
                WriteUnlock::Swap => true,
                WriteUnlock::CheckWaiters => true,
                WriteUnlock::Wake => true,
                _ => false,
            },
            Task::Failed => false,
            _ => true,
        }
    }

    /// What holds of the lock and the workers in every reachable state:
    /// `users` is `WRITER` while exactly one worker holds the lock as the
    /// writer and none as a reader, and else the number of holds that the
    /// workers have as readers while none holds it as the writer;
    /// `waiters` counts the workers that announced themselves; where a
    /// worker sleeps another has a step to take; and where a reader sleeps,
    /// a writer holds the lock or has freed it and has yet to wake all.
    pub open spec fn exclusive(self) -> bool {
        &&& held_together(self)
        &&& total(Tally::Sleeping, self.workers) > 0 ==> total(Tally::Active, self.workers) > 0
        &&& total(Tally::SleepingReaders, self.workers) > 0 ==> self.lock.users == WRITER || total(
            Tally::Clearing,
            self.workers,
        ) > 0
    }

    /// What holds of the counter in every reachable state: it has every
    /// increment made so far, whoever is about to store has loaded its
    /// present value, and no reader has loaded less than the start.
    pub open spec fn counted(self) -> bool {
        &&& self.plan.start + self.workers.len() * self.plan.rounds <= u64::MAX
        &&& forall|i: int|
            0 <= i < self.workers.len() ==> (#[trigger] self.workers[i].task matches Task::Storing {
                seen,
            } ==> seen == self.counter)
        &&& self.counter == self.plan.start + total(
            Tally::Credited { rounds: self.plan.rounds },
            self.workers,
        )
        &&& !self.misread
    }
}

impl View for Workload {
    type V = Snapshot;

    closed spec fn view(&self) -> Snapshot {
        Snapshot {
            plan: self.plan,
            lock: self.lock,
            counter: self.counter,
            misread: self.misread,
            workers: self.workers@,
        }
    }
}

impl Workload {
    /// A workload of `threads` workers that follow `plan`, with a free lock
    /// and the counter at the plan's start.
    pub fn new(threads: usize, plan: Plan) -> (w: Workload)
        ensures
            w@ == Snapshot::fresh(threads as nat, plan),
    {
        let first = if plan.rounds == 0 {
            Task::Done
        } else {
            Task::ReadLocking(Read::Load)
        };
        let one = Worker { task: first, rounds_left: plan.rounds };
        let mut workers: Vec<Worker> = Vec::new();
        let mut i: usize = 0;
        while i < threads
            invariant
                i <= threads,
                workers@.len() == i,
                forall|k: int| 0 <= k < i ==> workers@[k] == one,
            decreases threads - i,
        {
            workers.push(one);
            i += 1;
        }
        let w = Workload {
            plan,
            lock: RWLock::new(),
            counter: plan.start,
            misread: false,
            workers,
        };
        assert(w@.workers =~= Snapshot::fresh(threads as nat, plan).workers);
        w
    }

    /// The number of workers.
    pub fn threads(&self) -> (n: usize)
        ensures
            n == self@.workers.len(),
    {
        self.workers.len()
    }

    /// The present value of the guarded counter.
    pub fn counter(&self) -> (n: u64)
        ensures
            n == self@.counter,
    {
        self.counter
    }

    /// The words of the lock.
    pub fn lock(&self) -> (l: RWLock)
        ensures
            l == self@.lock,
    {
        self.lock
    }

    /// Whether a reader ever loaded a counter below the plan's start.
    pub fn misread(&self) -> (m: bool)
        ensures
            m == self@.misread,
    {
        self.misread
    }

    /// Worker `who`, if there is one.
    pub fn worker(&self, who: usize) -> (w: Option<Worker>)
        ensures
            w == if who < self@.workers.len() {
                Some(self@.workers[who as int])
            } else {
                None
            },
    {
        if who < self.workers.len() {
            Some(self.workers[who])
        } else {
            None
        }
    }

    /// The number of workers that hold the lock as the writer.
    pub fn writers(&self) -> (n: usize)
        ensures
            n == total(Tally::Writers, self@.workers),
    {
        let mut n: usize = 0;
        let mut i: usize = 0;
        while i < self.workers.len()
            invariant
                i <= self.workers.len(),
                n <= i,
                n == total(Tally::Writers, self.workers@.take(i as int)),
            decreases self.workers.len() - i,
        {
            proof {
                assert(weights(Tally::Writers, self.workers@.take(i + 1)).drop_last() =~= weights(
                    Tally::Writers,
                    self.workers@.take(i as int),
                ));
            }
            let inside = match self.workers[i].task {
                Task::Loading => true,
                Task::Storing { seen: _ } => true,
                Task::WriteUnlocking(WriteUnlock::Swap) => true,
                _ => false,
            };
            if inside {
                n += 1;
            }
            i += 1;
        }
        proof {
            assert(self.workers@.take(i as int) =~= self.workers@);
        }
        n
    }

    /// The number of workers that hold the lock as a reader, once or twice.
    pub fn readers(&self) -> (n: usize)
        ensures
            n == self@.workers.filter(|w: Worker| read_holds(w) >= 1).len(),
    {
        let ghost holds = |w: Worker| read_holds(w) >= 1;
        let mut n: usize = 0;
        let mut i: usize = 0;
        while i < self.workers.len()
            invariant
                i <= self.workers.len(),
                n <= i,
                holds == (|w: Worker| read_holds(w) >= 1),
                n == self.workers@.take(i as int).filter(holds).len(),
            decreases self.workers.len() - i,
        {
            proof {
                assert(self.workers@.take(i + 1).drop_last() =~= self.workers@.take(i as int));
                reveal(Seq::filter);
            }
            let inside = match self.workers[i].task {
                Task::Peeking => true,
                Task::Probing(_) => true,
                Task::PeekingAgain => true,
                Task::ProbeUnlocking(_) => true,
                Task::ReadUnlocking(ReadUnlock::Load) => true,
                Task::ReadUnlocking(ReadUnlock::Swap { seen: _ }) => true,
                _ => false,
            };
            if inside {
                n += 1;
            }
            i += 1;
        }
        proof {
            assert(self.workers@.take(i as int) =~= self.workers@);
        }
        n
    }

    /// Whether every worker has completed all its rounds.
    pub fn finished(&self) -> (done: bool)
        ensures
            done == self@.all_done(),
    {
        let mut i: usize = 0;
        while i < self.workers.len()
            invariant
                i <= self.workers.len(),
                forall|k: int| 0 <= k < i ==> (#[trigger] self.workers@[k]).task is Done,
            decreases self.workers.len() - i,
        {
            match self.workers[i].task {
                Task::Done => {},
                _ => {
                    return false;
                },
            }
            i += 1;
        }
        true
    }

    /// The first sleeper, if there is one.
    fn first_sleeping(&self) -> (at: Option<usize>)
        ensures
            match at {
                Some(k) => first_sleeper(self@.workers) == Some(k as int),
                None => first_sleeper(self@.workers) is None,
            },
    {
        let mut i: usize = self.workers.len();
        let mut found: Option<usize> = None;
        proof {
            assert(self.workers@.take(i as int) =~= self.workers@);
        }
        let ghost all = self.workers@;
        while i > 0
            invariant
                i <= self.workers.len(),
                all == self.workers@,
                first_sleeper(all) == match found {
                    Some(k) => match first_sleeper(all.take(i as int)) {
                        Some(j) => Some(j),
                        None => Some(k as int),
                    },
                    None => first_sleeper(all.take(i as int)),
                },
            decreases i,
        {
            proof {
                assert(all.take(i as int).drop_last() =~= all.take(i - 1));
            }
            match self.workers[i - 1].task {
                Task::SleepingReader => {
                    found = Some(i - 1);
                },
                Task::SleepingWriter => {
                    found = Some(i - 1);
                },
                _ => {},
            }
            i -= 1;
        }
        proof {
            assert(all.take(0) =~= Seq::<Worker>::empty());
        }
        found
    }

    /// Wakes worker `k` if it sleeps.
    fn rouse(&mut self, k: usize)
        requires
            k < old(self)@.workers.len(),
        ensures
            final(self)@ == (Snapshot {
                workers: old(self)@.workers.update(k as int, awake(old(self)@.workers[k as int])),
                ..old(self)@
            }),
    {
        let w = self.workers[k];
        match w.task {
            Task::SleepingReader => {
                self.workers.set(
                    k,
                    Worker { task: Task::ReadLocking(Read::Dequeue), rounds_left: w.rounds_left },
                );
            },
            Task::SleepingWriter => {
                self.workers.set(
                    k,
                    Worker { task: Task::WriteLocking(Write::Dequeue), rounds_left: w.rounds_left },
                );
            },
            _ => {
                proof {
                    assert(self@.workers =~= old(self)@.workers.update(k as int, w));
                }
            },
        }
    }

    /// Wakes sleepers: one, the one that `pick` names or else the first,
    /// or all of them.
    fn wake(&mut self, width: Option<Width>, pick: usize)
        ensures
            final(self)@ == (Snapshot {
                workers: after_wake(old(self)@.workers, width, pick as int),
                ..old(self)@
            }),
    {
        match width {
            None => {},
            Some(Width::One) => {
                let picked = if pick < self.workers.len() {
                    match self.workers[pick].task {
                        Task::SleepingReader => Some(pick),
                        Task::SleepingWriter => Some(pick),
                        _ => None,
                    }
                } else {
                    None
                };
                let target = match picked {
                    Some(k) => Some(k),
                    None => self.first_sleeping(),
                };
                match target {
                    Some(k) => {
                        proof {
                            lemma_first_sleeper(self@.workers);
                        }
                        self.rouse(k);
                    },
                    None => {},
                }
            },
            Some(Width::All) => {
                let ghost before = self.workers@;
                let mut i: usize = 0;
                while i < self.workers.len()
                    invariant
                        i <= self.workers.len(),
                        self.workers@.len() == before.len(),
                        self.plan == old(self).plan,
                        self.lock == old(self).lock,
                        self.counter == old(self).counter,
                        self.misread == old(self).misread,
                        forall|k: int| 0 <= k < i ==> self.workers@[k] == awake(before[k]),
                        forall|k: int| i <= k < before.len() ==> self.workers@[k] == before[k],
                    decreases self.workers.len() - i,
                {
                    self.rouse(i);
                    i += 1;
                }
                proof {
                    assert(self.workers@ =~= after_wake(before, width, pick as int));
                }
            },
        }
    }

    /// Lets worker `who` take its next step, which is one atomic access; the
    /// kernel wakes sleeper `wakes` if the step is a wake-up of one and that
    /// worker sleeps, and else the first sleeper. A worker that is done, and
    /// an index that names no worker, change nothing. A sleeper that takes a
    /// step has woken for no reason.
    pub fn step(&mut self, who: usize, wakes: usize)
        ensures
            final(self)@ == old(self)@.step(Turn { who: who as int, wakes: wakes as int }),
    {
        if who >= self.workers.len() {
            return ;
        }
        let w = self.workers[who];
        let rounds_left = w.rounds_left;
        let access = match w.task {
            Task::ReadLocking(stage) => stage.access(),
            Task::Probing(stage) => stage.access(),
            Task::ProbeUnlocking(stage) => stage.access(),
            Task::ReadUnlocking(stage) => stage.access(),
            Task::WriteLocking(stage) => stage.access(),
            Task::WriteUnlocking(stage) => stage.access(),
            _ => None,
        };
        let asleep = match access {
            Some(RwAccess::Wait { expected }) => self.lock.users_raw() == expected,
            _ => false,
        };
        let width = match access {
            Some(RwAccess::Wake { width }) => Some(width),
            _ => None,
        };
        match w.task {
            Task::ReadLocking(stage) => {
                let task = if asleep {
                    Task::SleepingReader
                } else {
                    let next = self.lock.read(stage);
                    match next {
                        Read::Reading => Task::Peeking,
                        Read::Busy => Task::Failed,
                        Read::Exhausted => Task::Failed,
                        _ => Task::ReadLocking(next),
                    }
                };
                self.workers.set(who, Worker { task, rounds_left });
            },
            Task::SleepingReader => {
                self.rouse(who);
            },
            Task::SleepingWriter => {
                self.rouse(who);
            },
            Task::Peeking => {
                self.misread = self.misread || self.counter < self.plan.start;
                let task = if self.plan.probe {
                    Task::Probing(Read::Load)
                } else {
                    Task::ReadUnlocking(ReadUnlock::Load)
                };
                self.workers.set(who, Worker { task, rounds_left });
            },
            Task::Probing(stage) => {
                let next = self.lock.try_read(stage);
                let task = match next {
                    Read::Reading => Task::PeekingAgain,
                    Read::Load => Task::Probing(next),
                    Read::Swap { seen: _ } => Task::Probing(next),
                    _ => Task::Failed,
                };
                self.workers.set(who, Worker { task, rounds_left });
            },
            Task::PeekingAgain => {
                self.misread = self.misread || self.counter < self.plan.start;
                self.workers.set(
                    who,
                    Worker { task: Task::ProbeUnlocking(ReadUnlock::Load), rounds_left },
                );
            },
            Task::ProbeUnlocking(stage) => {
                let next = self.lock.read_unlock(stage);
                let task = match next {
                    ReadUnlock::Released => Task::ReadUnlocking(ReadUnlock::Load),
                    ReadUnlock::HeldByWriter => Task::Failed,
                    ReadUnlock::NotHeld => Task::Failed,
                    _ => Task::ProbeUnlocking(next),
                };
                self.workers.set(who, Worker { task, rounds_left });
            },
            Task::ReadUnlocking(stage) => {
                let next = self.lock.read_unlock(stage);
                let task = match next {
                    ReadUnlock::Released => Task::WriteLocking(Write::Swap),
                    ReadUnlock::HeldByWriter => Task::Failed,
                    ReadUnlock::NotHeld => Task::Failed,
                    _ => Task::ReadUnlocking(next),
                };
                self.workers.set(who, Worker { task, rounds_left });
            },
            Task::WriteLocking(stage) => {
                let task = if asleep {
                    Task::SleepingWriter
                } else {
                    let next = self.lock.write(stage);
                    match next {
                        Write::Writing => Task::Loading,
                        Write::Busy => Task::Failed,
                        _ => Task::WriteLocking(next),
                    }
                };
                self.workers.set(who, Worker { task, rounds_left });
            },
            Task::Loading => {
                let seen = self.counter;
                self.workers.set(who, Worker { task: Task::Storing { seen }, rounds_left });
            },
            Task::Storing { seen } => {
                self.counter = seen.wrapping_add(1);
                self.workers.set(
                    who,
                    Worker { task: Task::WriteUnlocking(WriteUnlock::Swap), rounds_left },
                );
            },
            Task::WriteUnlocking(stage) => {
                let next = self.lock.write_unlock(stage);
                let moved = match next {
                    WriteUnlock::Released => if rounds_left <= 1 {
                        Worker { task: Task::Done, rounds_left: 0 }
                    } else {
                        Worker { task: Task::ReadLocking(Read::Load), rounds_left: rounds_left - 1 }
                    },
                    WriteUnlock::NotWriter => Worker { task: Task::Failed, rounds_left },
                    _ => Worker { task: Task::WriteUnlocking(next), rounds_left },
                };
                self.workers.set(who, moved);
            },
            Task::Done => {
                proof {
                    assert(self@.workers =~= old(self)@.workers.update(who as int, w));
                }
            },
            Task::Failed => {
                proof {
                    assert(self@.workers =~= old(self)@.workers.update(who as int, w));
                }
            },
        }
        self.wake(width, wakes);
    }

    /// Whether some worker has a step to take.
    pub fn can_go_on(&self) -> (r: bool)
        ensures
            r == self@.can_go_on(),
    {
        let mut i: usize = 0;
        while i < self.workers.len()
            invariant
                i <= self.workers.len(),
                forall|k: int| 0 <= k < i ==> !active(#[trigger] self.workers@[k]),
            decreases self.workers.len() - i,
        {
            match self.workers[i].task {
                Task::Done => {},
                Task::Failed => {},
                Task::SleepingReader => {},
                Task::SleepingWriter => {},
                _ => {
                    assert(active(self@.workers[i as int]));
                    return true;
                },
            }
            i += 1;
        }
        false
    }

    /// The number of workers that are asleep in the kernel.
    pub fn sleepers(&self) -> (n: usize)
        ensures
            n == total(Tally::Sleeping, self@.workers),
    {
        let mut n: usize = 0;
        let mut i: usize = 0;
        while i < self.workers.len()
            invariant
                i <= self.workers.len(),
                n <= i,
                n == total(Tally::Sleeping, self.workers@.take(i as int)),
            decreases self.workers.len() - i,
        {
            proof {
                assert(weights(Tally::Sleeping, self.workers@.take(i + 1)).drop_last() =~= weights(
                    Tally::Sleeping,
                    self.workers@.take(i as int),
                ));
            }
            match self.workers[i].task {
                Task::SleepingReader => {
                    n += 1;
                },
                Task::SleepingWriter => {
                    n += 1;
                },
                _ => {},
            }
            i += 1;
        }
        proof {
            assert(self.workers@.take(i as int) =~= self.workers@);
        }
        n
    }
}

/// `first_sleeper` finds a sleeper, and finds none only where there is none.
pub proof fn lemma_first_sleeper(workers: Seq<Worker>)
    ensures
        match first_sleeper(workers) {
            Some(k) => 0 <= k < workers.len() && sleeps(workers[k]),
            None => forall|i: int| 0 <= i < workers.len() ==> !sleeps(#[trigger] workers[i]),
        },
    decreases workers.len(),
{
    if workers.len() > 0 {
        let rest = workers.drop_last();
        lemma_first_sleeper(rest);
        match first_sleeper(rest) {
            Some(k) => {
                assert(rest[k] == workers[k]);
            },
            None => {
                assert forall|i: int| 0 <= i < workers.len() && first_sleeper(workers) is None
                    implies !sleeps(#[trigger] workers[i]) by {
                    if i < rest.len() {
                        assert(rest[i] == workers[i]);
                    }
                }
            },
        }
    }
}

/// What holds of the lock and the workers in every reachable state, but for
/// the sleepers.
pub open spec fn held_together(s: Snapshot) -> bool {
    &&& 2 * s.workers.len() + 2 <= usize::MAX
    &&& forall|i: int| 0 <= i < s.workers.len() ==> Snapshot::shaped(#[trigger] s.workers[i], s.plan)
    &&& balanced(
        s.lock.users,
        total(Tally::Readers, s.workers),
        total(Tally::Writers, s.workers),
    )
    &&& total(Tally::Announced, s.workers) == s.lock.waiters
}

/// Replacing one worker changes a total by the difference of the two weights.
pub proof fn lemma_total_update(tally: Tally, workers: Seq<Worker>, who: int, moved: Worker)
    requires
        0 <= who < workers.len(),
    ensures
        total(tally, workers.update(who, moved)) == total(tally, workers) - weight(
            tally,
            workers[who],
        ) + weight(tally, moved),
{
    assert(weights(tally, workers.update(who, moved)) =~= weights(tally, workers).update(
        who,
        weight(tally, moved),
    ));
    lemma_sum_update(weights(tally, workers), who, weight(tally, moved));
}

/// The fresh workload is exclusive.
pub proof fn lemma_fresh_is_exclusive(threads: nat, plan: Plan)
    requires
        2 * threads + 2 <= usize::MAX,
    ensures
        Snapshot::fresh(threads, plan).exclusive(),
{
    let s = Snapshot::fresh(threads, plan);
    lemma_sum_bounds(weights(Tally::Readers, s.workers), 0, 0);
    lemma_sum_bounds(weights(Tally::Writers, s.workers), 0, 0);
    lemma_sum_bounds(weights(Tally::Announced, s.workers), 0, 0);
    lemma_sum_bounds(weights(Tally::Sleeping, s.workers), 0, 0);
    lemma_sum_bounds(weights(Tally::SleepingReaders, s.workers), 0, 0);
    assert(s.workers.len() * 0 == 0);
}

/// One step of a worker keeps the words of the lock in balance with the
/// holds of the workers, whatever the other workers hold.
pub proof fn lemma_advance_keeps_balance(
    w: Worker,
    lock: RWLock,
    plan: Plan,
    counter: u64,
    readers: int,
    writers: int,
)
    requires
        Snapshot::shaped(w, plan),
        balanced(lock.users, readers, writers),
        0 <= read_holds(w) <= readers < WRITER - 2,
        0 <= weight(Tally::Writers, w) <= writers,
    ensures
        ({
            let (moved, after) = advance(w, lock, plan, counter);
            &&& Snapshot::shaped(moved, plan)
            &&& balanced(
                after.users,
                readers - read_holds(w) + read_holds(moved),
                writers - weight(Tally::Writers, w) + weight(Tally::Writers, moved),
            )
        }),
{
}

/// One step of a worker keeps `waiters` at the number of the workers that
/// announced themselves.
pub proof fn lemma_advance_keeps_waiters(
    w: Worker,
    lock: RWLock,
    plan: Plan,
    counter: u64,
    asleep: int,
)
    requires
        Snapshot::shaped(w, plan),
        lock.waiters == asleep,
        0 <= weight(Tally::Announced, w) <= asleep < usize::MAX,
    ensures
        ({
            let (moved, after) = advance(w, lock, plan, counter);
            after.waiters == asleep - weight(Tally::Announced, w) + weight(Tally::Announced, moved)
        }),
{
}

/// One step of a worker, before the kernel wakes anybody, keeps the lock and
/// the workers together.
pub proof fn lemma_own_step_holds_together(s: Snapshot, who: int)
    requires
        held_together(s),
    ensures
        held_together(s.own_step(who)),
        s.own_step(who).workers.len() == s.workers.len(),
        s.own_step(who).plan == s.plan,
{
    if 0 <= who < s.workers.len() {
        let t = s.own_step(who);
        let w = s.workers[who];
        let moved = t.workers[who];
        assert(Snapshot::shaped(w, s.plan));
        assert(t.workers == s.workers.update(who, moved));
        lemma_total_update(Tally::Readers, s.workers, who, moved);
        lemma_total_update(Tally::Writers, s.workers, who, moved);
        lemma_total_update(Tally::Announced, s.workers, who, moved);
        lemma_sum_covers_one(weights(Tally::Readers, s.workers), who);
        lemma_sum_covers_one(weights(Tally::Writers, s.workers), who);
        lemma_sum_covers_one(weights(Tally::Announced, s.workers), who);
        lemma_sum_bounds(weights(Tally::Readers, s.workers), 0, 2);
        lemma_sum_bounds(weights(Tally::Announced, s.workers), 0, 1);
        lemma_advance_keeps_balance(
            w,
            s.lock,
            s.plan,
            s.counter,
            total(Tally::Readers, s.workers),
            total(Tally::Writers, s.workers),
        );
        lemma_advance_keeps_waiters(
            w,
            s.lock,
            s.plan,
            s.counter,
            total(Tally::Announced, s.workers),
        );
        assert forall|k: int| 0 <= k < t.workers.len() implies Snapshot::shaped(
            #[trigger] t.workers[k],
            t.plan,
        ) by {
            if k != who {
                assert(t.workers[k] == s.workers[k]);
            }
        }
    }
}

/// A wake-up changes no worker but sleepers, which it makes workers that
/// withdraw their announcement: it keeps the shape of every worker and
/// every total but those of the sleepers and of the active, and where
/// sleepers were, it has woken one.
pub proof fn lemma_wake_keeps_totals(
    workers: Seq<Worker>,
    width: Option<Width>,
    pick: int,
    plan: Plan,
)
    requires
        forall|i: int| 0 <= i < workers.len() ==> Snapshot::shaped(#[trigger] workers[i], plan),
    ensures
        ({
            let after = after_wake(workers, width, pick);
            &&& after.len() == workers.len()
            &&& forall|i: int| 0 <= i < after.len() ==> Snapshot::shaped(#[trigger] after[i], plan)
            &&& forall|i: int|
                0 <= i < after.len() ==> (#[trigger] after[i] == workers[i] || (sleeps(workers[i])
                    && after[i] == awake(workers[i])))
            &&& total(Tally::Readers, after) == total(Tally::Readers, workers)
            &&& total(Tally::Writers, after) == total(Tally::Writers, workers)
            &&& total(Tally::Announced, after) == total(Tally::Announced, workers)
            &&& total(Tally::Credited { rounds: plan.rounds }, after) == total(
                Tally::Credited { rounds: plan.rounds },
                workers,
            )
            &&& total(Tally::Active, after) >= total(Tally::Active, workers)
            &&& total(Tally::Sleeping, after) <= total(Tally::Sleeping, workers)
            &&& width is Some && total(Tally::Sleeping, workers) > 0 ==> total(
                Tally::Active,
                after,
            ) > 0
            &&& total(Tally::Clearing, after) == total(Tally::Clearing, workers)
            &&& total(Tally::SleepingReaders, after) <= total(Tally::SleepingReaders, workers)
            &&& width == Some(Width::All) ==> total(Tally::SleepingReaders, after) == 0
        }),
{
    let after = after_wake(workers, width, pick);
    let credit = Tally::Credited { rounds: plan.rounds };
    lemma_first_sleeper(workers);
    assert(weights(Tally::Clearing, after) =~= weights(Tally::Clearing, workers));
    assert forall|k: int| 0 <= k < workers.len() implies #[trigger] weights(
        Tally::SleepingReaders,
        after,
    )[k] <= weights(Tally::SleepingReaders, workers)[k] by {}
    lemma_sum_dominates(
        weights(Tally::SleepingReaders, after),
        weights(Tally::SleepingReaders, workers),
    );
    if width == Some(Width::All) {
        lemma_sum_bounds(weights(Tally::SleepingReaders, after), 0, 0);
        assert(after.len() * 0 == 0);
    }
    assert forall|i: int| 0 <= i < after.len() implies Snapshot::shaped(#[trigger] after[i], plan) by {
        assert(Snapshot::shaped(workers[i], plan));
    }
    assert(weights(Tally::Readers, after) =~= weights(Tally::Readers, workers));
    assert(weights(Tally::Writers, after) =~= weights(Tally::Writers, workers));
    assert(weights(Tally::Announced, after) =~= weights(Tally::Announced, workers));
    assert(weights(credit, after) =~= weights(credit, workers));
    assert forall|k: int| 0 <= k < workers.len() implies #[trigger] weights(
        Tally::Active,
        workers,
    )[k] <= weights(Tally::Active, after)[k] by {}
    lemma_sum_dominates(weights(Tally::Active, workers), weights(Tally::Active, after));
    assert forall|k: int| 0 <= k < workers.len() implies #[trigger] weights(
        Tally::Sleeping,
        after,
    )[k] <= weights(Tally::Sleeping, workers)[k] by {}
    lemma_sum_dominates(weights(Tally::Sleeping, after), weights(Tally::Sleeping, workers));
    if width is Some && total(Tally::Sleeping, workers) > 0 {
        let k = lemma_sum_has_positive(weights(Tally::Sleeping, workers));
        assert(sleeps(workers[k]));
        match width {
            Some(Width::One) => {
                let woken = woken_one(workers, pick)->Some_0;
                assert(active(after[woken]));
                lemma_sum_covers_one(weights(Tally::Active, after), woken);
            },
            _ => {
                assert(active(after[k]));
                lemma_sum_covers_one(weights(Tally::Active, after), k);
            },
        }
    }
}

/// One step of any worker keeps an exclusive workload exclusive.
pub proof fn lemma_step_keeps_exclusive(s: Snapshot, turn: Turn)
    requires
        s.exclusive(),
    ensures
        s.step(turn).exclusive(),
        s.step(turn).workers.len() == s.workers.len(),
        s.step(turn).plan == s.plan,
{
    let who = turn.who;
    let mid = s.own_step(who);
    let t = s.step(turn);
    lemma_own_step_holds_together(s, who);
    lemma_wake_keeps_totals(mid.workers, s.wakes(who), turn.wakes, s.plan);
    assert(held_together(t));
    lemma_sum_dominates(weights(Tally::Sleeping, s.workers), weights(Tally::Announced, s.workers));
    lemma_sum_dominates(weights(Tally::Sleeping, mid.workers), weights(Tally::Announced, mid.workers));
    if 0 <= who < s.workers.len() && total(Tally::Sleeping, t.workers) > 0 {
        let w = s.workers[who];
        let moved = mid.workers[who];
        assert(Snapshot::shaped(w, s.plan));
        assert(Snapshot::shaped(moved, s.plan));
        assert(mid.workers == s.workers.update(who, moved));
        lemma_total_update(Tally::Sleeping, s.workers, who, moved);
        lemma_total_update(Tally::Active, s.workers, who, moved);
        lemma_sum_bounds(weights(Tally::Readers, s.workers), 0, 2);
        if active(moved) {
            assert(t.workers[who] == moved);
            lemma_sum_covers_one(weights(Tally::Active, t.workers), who);
        } else if sleeps(moved) && !sleeps(w) {
            let k = if s.lock.users == WRITER {
                lemma_sum_has_positive(weights(Tally::Writers, s.workers))
            } else {
                lemma_sum_has_positive(weights(Tally::Readers, s.workers))
            };
            assert(Snapshot::shaped(s.workers[k], s.plan));
            assert(active(s.workers[k]));
            assert(k != who);
            assert(mid.workers[k] == s.workers[k]);
            assert(t.workers[k] == s.workers[k]);
            lemma_sum_covers_one(weights(Tally::Active, t.workers), k);
        }
    }
    if total(Tally::SleepingReaders, t.workers) > 0 && t.lock.users != WRITER {
        if 0 <= who < s.workers.len() {
            let w = s.workers[who];
            let moved = mid.workers[who];
            assert(Snapshot::shaped(w, s.plan));
            assert(mid.workers == s.workers.update(who, moved));
            lemma_total_update(Tally::SleepingReaders, s.workers, who, moved);
            lemma_total_update(Tally::Clearing, s.workers, who, moved);
            lemma_sum_covers_one(weights(Tally::Clearing, s.workers), who);
            lemma_sum_covers_one(weights(Tally::Writers, s.workers), who);
            lemma_sum_dominates(
                weights(Tally::SleepingReaders, s.workers),
                weights(Tally::Announced, s.workers),
            );
            if s.lock.users == WRITER {
                assert(weight(Tally::Clearing, moved) == 1);
                assert(t.workers[who] == moved);
                lemma_sum_covers_one(weights(Tally::Clearing, t.workers), who);
            } else {
                assert(total(Tally::SleepingReaders, s.workers) > 0);
                let k = lemma_sum_has_positive(weights(Tally::Clearing, s.workers));
                if k != who {
                    assert(mid.workers[k] == s.workers[k]);
                    lemma_sum_covers_one(weights(Tally::Clearing, mid.workers), k);
                } else {
                    assert(weight(Tally::Clearing, moved) == 1);
                    lemma_sum_covers_one(weights(Tally::Clearing, mid.workers), who);
                }
            }
        }
    }
}

/// The fresh workload is counted.
pub proof fn lemma_fresh_is_counted(threads: nat, plan: Plan)
    requires
        plan.start + threads * plan.rounds <= u64::MAX,
    ensures
        Snapshot::fresh(threads, plan).counted(),
{
    let s = Snapshot::fresh(threads, plan);
    lemma_sum_bounds(weights(Tally::Credited { rounds: plan.rounds }, s.workers), 0, 0);
    assert(s.workers.len() * 0 == 0);
}

/// At most one worker writes where the writers sum to at most one.
pub proof fn lemma_one_writer(workers: Seq<Worker>, i: int, j: int)
    requires
        0 <= i < workers.len(),
        0 <= j < workers.len(),
        total(Tally::Writers, workers) <= 1,
        writes(workers[i]),
        writes(workers[j]),
    ensures
        i == j,
{
    let xs = weights(Tally::Writers, workers);
    if i < j {
        lemma_sum_covers_two(xs, i, j);
    } else if j < i {
        lemma_sum_covers_two(xs, j, i);
    }
}

/// One step of any worker keeps an exclusive and counted workload counted.
pub proof fn lemma_step_keeps_counted(s: Snapshot, turn: Turn)
    requires
        s.exclusive(),
        s.counted(),
    ensures
        s.step(turn).counted(),
{
    let who = turn.who;
    let mid = s.own_step(who);
    let t = s.step(turn);
    let credit = Tally::Credited { rounds: s.plan.rounds };
    lemma_step_keeps_exclusive(s, turn);
    lemma_own_step_holds_together(s, who);
    lemma_wake_keeps_totals(mid.workers, s.wakes(who), turn.wakes, s.plan);
    assert forall|k: int| 0 <= k < t.workers.len() implies 0 <= #[trigger] weights(
        credit,
        t.workers,
    )[k] <= s.plan.rounds by {
        assert(Snapshot::shaped(t.workers[k], s.plan));
    }
    lemma_sum_bounds(weights(credit, t.workers), 0, s.plan.rounds as int);
    assert forall|k: int| 0 <= k < s.workers.len() implies 0 <= #[trigger] weights(
        credit,
        s.workers,
    )[k] by {
        assert(Snapshot::shaped(s.workers[k], s.plan));
    }
    lemma_sum_bounds(weights(credit, s.workers), 0, s.plan.rounds as int);
    assert(s.workers.len() * 0 == 0);
    if 0 <= who < s.workers.len() {
        let w = s.workers[who];
        let moved = mid.workers[who];
        assert(Snapshot::shaped(w, s.plan));
        assert(Snapshot::shaped(moved, s.plan));
        assert(mid.workers == s.workers.update(who, moved));
        lemma_total_update(credit, s.workers, who, moved);
        assert forall|k: int| 0 <= k < t.workers.len() implies (
        #[trigger] t.workers[k].task matches Task::Storing { seen } ==> seen == t.counter) by {
            assert(t.workers[k] == mid.workers[k] || sleeps(mid.workers[k]));
            if k != who {
                assert(mid.workers[k] == s.workers[k]);
                if s.workers[k].task is Storing && writes(w) {
                    lemma_one_writer(s.workers, k, who);
                }
            }
        }
    } else {
        assert forall|k: int| 0 <= k < t.workers.len() implies (
        #[trigger] t.workers[k].task matches Task::Storing { seen } ==> seen == t.counter) by {
            assert(t.workers[k] == mid.workers[k] || sleeps(mid.workers[k]));
        }
    }
}

/// Every state that a fresh workload reaches is exclusive.
pub proof fn lemma_reachable_is_exclusive(threads: nat, plan: Plan, schedule: Seq<Turn>)
    requires
        2 * threads + 2 <= usize::MAX,
    ensures
        Snapshot::fresh(threads, plan).run(schedule).exclusive(),
        Snapshot::fresh(threads, plan).run(schedule).workers.len() == threads,
        Snapshot::fresh(threads, plan).run(schedule).plan == plan,
    decreases schedule.len(),
{
    if schedule.len() == 0 {
        lemma_fresh_is_exclusive(threads, plan);
    } else {
        lemma_reachable_is_exclusive(threads, plan, schedule.drop_last());
        lemma_step_keeps_exclusive(
            Snapshot::fresh(threads, plan).run(schedule.drop_last()),
            schedule.last(),
        );
    }
}

/// Every state that a fresh workload reaches is counted.
pub proof fn lemma_reachable_is_counted(threads: nat, plan: Plan, schedule: Seq<Turn>)
    requires
        2 * threads + 2 <= usize::MAX,
        plan.start + threads * plan.rounds <= u64::MAX,
    ensures
        Snapshot::fresh(threads, plan).run(schedule).counted(),
    decreases schedule.len(),
{
    if schedule.len() == 0 {
        lemma_fresh_is_counted(threads, plan);
    } else {
        lemma_reachable_is_exclusive(threads, plan, schedule.drop_last());
        lemma_reachable_is_counted(threads, plan, schedule.drop_last());
        lemma_step_keeps_counted(
            Snapshot::fresh(threads, plan).run(schedule.drop_last()),
            schedule.last(),
        );
    }
}

/// Readers and writers exclude each other: however the steps of the threads
/// interleave, a worker that holds the lock as the writer is the only one
/// that holds it at all, and `users` is `WRITER` exactly while there is such
/// a worker; else `users` is the number of holds that the workers have as
/// readers.
pub proof fn law_writer_is_alone(
    threads: nat,
    plan: Plan,
    schedule: Seq<Turn>,
    i: int,
    j: int,
)
    requires
        2 * threads + 2 <= usize::MAX,
    ensures
        ({
            let s = Snapshot::fresh(threads, plan).run(schedule);
            &&& s.writes(i) && s.writes(j) ==> i == j
            &&& s.writes(i) ==> !s.reads(j)
            &&& s.writes(i) ==> s.lock.write_held()
            &&& s.reads(j) ==> s.lock.read_held()
            &&& !s.lock.write_held() ==> s.lock.users == total(Tally::Readers, s.workers)
        }),
{
    let s = Snapshot::fresh(threads, plan).run(schedule);
    lemma_reachable_is_exclusive(threads, plan, schedule);
    lemma_sum_bounds(weights(Tally::Readers, s.workers), 0, 2);
    if s.writes(i) {
        lemma_sum_covers_one(weights(Tally::Writers, s.workers), i);
        if s.writes(j) {
            lemma_one_writer(s.workers, i, j);
        }
    }
    if s.reads(j) {
        lemma_sum_covers_one(weights(Tally::Readers, s.workers), j);
    }
}

/// Nothing fails: however the steps of the threads interleave, a reader that
/// takes a second hold with `try_read` is never refused, the readers are
/// never too many to count, and no unlock finds the lock in a state that it
/// must not be in.
pub proof fn law_nothing_fails(threads: nat, plan: Plan, schedule: Seq<Turn>, who: int)
    requires
        2 * threads + 2 <= usize::MAX,
        0 <= who < threads,
    ensures
        !(Snapshot::fresh(threads, plan).run(schedule).workers[who].task is Failed),
{
    lemma_reachable_is_exclusive(threads, plan, schedule);
    let s = Snapshot::fresh(threads, plan).run(schedule);
    assert(Snapshot::shaped(s.workers[who], plan));
}

/// No lost update: however the steps of the threads interleave, no reader
/// ever loads less than the counter's initial value, and once every worker
/// has completed its rounds the counter stands at its initial value plus one
/// for each round of each worker.
pub proof fn law_no_lost_update(threads: nat, plan: Plan, schedule: Seq<Turn>)
    requires
        2 * threads + 2 <= usize::MAX,
        plan.start + threads * plan.rounds <= u64::MAX,
    ensures
        ({
            let s = Snapshot::fresh(threads, plan).run(schedule);
            &&& !s.misread
            &&& s.all_done() ==> s.counter == plan.start + threads * plan.rounds
        }),
{
    let s = Snapshot::fresh(threads, plan).run(schedule);
    lemma_reachable_is_exclusive(threads, plan, schedule);
    lemma_reachable_is_counted(threads, plan, schedule);
    if s.all_done() {
        let credit = Tally::Credited { rounds: plan.rounds };
        assert forall|k: int| 0 <= k < s.workers.len() implies plan.rounds <= #[trigger] weights(
            credit,
            s.workers,
        )[k] <= plan.rounds by {
            assert(Snapshot::shaped(s.workers[k], plan));
            assert(s.workers[k].task is Done);
        }
        lemma_sum_bounds(weights(credit, s.workers), plan.rounds as int, plan.rounds as int);
    }
}

/// No wake-up is lost: however the steps of the threads interleave and
/// whomever the kernel wakes, the workload never comes to a stop before
/// every worker is done. While a worker sleeps, another has a step to take,
/// even if no sleeper ever wakes without being woken.
pub proof fn law_no_lost_wakeup(threads: nat, plan: Plan, schedule: Seq<Turn>)
    requires
        2 * threads + 2 <= usize::MAX,
    ensures
        ({
            let s = Snapshot::fresh(threads, plan).run(schedule);
            s.all_done() || s.can_go_on()
        }),
{
    let s = Snapshot::fresh(threads, plan).run(schedule);
    lemma_reachable_is_exclusive(threads, plan, schedule);
    if !s.all_done() {
        let i = choose|i: int| 0 <= i < s.workers.len() && !((#[trigger] s.workers[i]).task is Done);
        assert(Snapshot::shaped(s.workers[i], plan));
        if sleeps(s.workers[i]) {
            lemma_sum_covers_one(weights(Tally::Sleeping, s.workers), i);
            let k = lemma_sum_has_positive(weights(Tally::Active, s.workers));
            assert(active(s.workers[k]));
        } else {
            assert(active(s.workers[i]));
        }
    }
}

/// One wake-up is enough for the last reader: however the steps of the
/// threads interleave and whomever the kernel wakes, a reader sleeps only
/// while a writer holds the lock, or has freed it and has yet to wake all.
/// So whoever sleeps when the last reader leaves and no writer is about to
/// wake all is a writer, of which only one can take the lock.
pub proof fn law_sleeping_readers_wait_for_a_writer(
    threads: nat,
    plan: Plan,
    schedule: Seq<Turn>,
    who: int,
)
    requires
        2 * threads + 2 <= usize::MAX,
        0 <= who < threads,
    ensures
        ({
            let s = Snapshot::fresh(threads, plan).run(schedule);
            s.workers[who].task is SleepingReader ==> s.lock.write_held() || exists|k: int|
                0 <= k < threads && weight(Tally::Clearing, #[trigger] s.workers[k]) == 1
        }),
{
    let s = Snapshot::fresh(threads, plan).run(schedule);
    lemma_reachable_is_exclusive(threads, plan, schedule);
    if s.workers[who].task is SleepingReader && !s.lock.write_held() {
        lemma_sum_covers_one(weights(Tally::SleepingReaders, s.workers), who);
        let k = lemma_sum_has_positive(weights(Tally::Clearing, s.workers));
        assert(weight(Tally::Clearing, s.workers[k]) == 1);
    }
}

} // verus!
