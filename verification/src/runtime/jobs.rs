//! Jobs: where a worker looks for its next one, and how a result gets back.
//!
//! Jobs enter through a shared queue; every worker has a queue of its own that others may steal
//! from. A worker looks into its own queue first, then into the shared one, then into those of the
//! others, and steals in batches. Threads, locks and sleeping are left to the caller.

use crossbeam_deque::{Injector, Steal, Stealer, Worker};
use vstd::prelude::*;

verus! {

/// `crossbeam_deque::Injector`: the shared queue.
#[verifier::external_type_specification]
#[verifier::external_body]
#[verifier::reject_recursive_types(T)]
pub struct ExInjector<T>(Injector<T>);

/// `crossbeam_deque::Worker`: the queue of one worker.
#[verifier::external_type_specification]
#[verifier::external_body]
#[verifier::reject_recursive_types(T)]
pub struct ExWorker<T>(Worker<T>);

/// `crossbeam_deque::Stealer`: the far end of the queue of a worker.
#[verifier::external_type_specification]
#[verifier::external_body]
#[verifier::reject_recursive_types(T)]
pub struct ExStealer<T>(Stealer<T>);

/// What looking into a queue brought.
#[derive(Debug, Clone, Copy, PartialEq, Eq)]
pub enum Probe<T> {
    Found(T),
    /// Somebody got in the way: look again.
    Retry,
    Empty,
}

/// `Worker::pop`: takes a job out of the own queue. Nothing is claimed of the result: others steal
/// from the queue at any time.
#[verifier::external_body]
fn pop_own<T>(worker: &Worker<T>) -> (job: Option<T>) {
    worker.pop()
}

/// `Injector::steal_batch_and_pop`: moves a batch of jobs from the shared queue to the own one and
/// takes one of them. Nothing is claimed of the result: others steal from the queue at any time.
#[verifier::external_body]
fn steal_shared<T>(queue: &Injector<T>, worker: &Worker<T>) -> (probe: Probe<T>) {
    match queue.steal_batch_and_pop(worker) {
        Steal::Success(job) => Probe::Found(job),
        Steal::Retry => Probe::Retry,
        Steal::Empty => Probe::Empty,
    }
}

/// `Stealer::steal_batch_and_pop`: moves a batch of jobs from the queue of another worker to the own
/// one and takes one of them. Nothing is claimed of the result: others steal from the queue at any
/// time.
#[verifier::external_body]
fn steal_other<T>(queue: &Stealer<T>, worker: &Worker<T>) -> (probe: Probe<T>) {
    match queue.steal_batch_and_pop(worker) {
        Steal::Success(job) => Probe::Found(job),
        Steal::Retry => Probe::Retry,
        Steal::Empty => Probe::Empty,
    }
}

/// `Injector::new`: a shared queue. Nothing is claimed of what it holds: that changes with every
/// thread that uses it.
#[verifier::external_body]
fn new_shared<T>() -> (queue: Injector<T>) {
    Injector::new()
}

/// `Injector::push`: puts a job into the shared queue. Nothing is claimed: others may take it at once.
#[verifier::external_body]
fn push_shared<T>(queue: &Injector<T>, job: T) {
    queue.push(job)
}

/// `Worker::new_fifo`: a queue of one worker. Nothing is claimed of what it holds.
#[verifier::external_body]
fn new_own<T>() -> (queue: Worker<T>) {
    Worker::new_fifo()
}

/// `Worker::stealer`: the far end of the queue of a worker. Nothing is claimed of what it holds.
#[verifier::external_body]
fn far_end<T>(queue: &Worker<T>) -> (stealer: Stealer<T>) {
    queue.stealer()
}

/// The queues that all workers share.
#[verifier::reject_recursive_types(T)]
pub struct TaskQueues<T> {
    shared: Injector<T>,
    others: Vec<Stealer<T>>,
}

/// A queue that a worker asks for a job.
#[verifier::reject_recursive_types(T)]
pub enum Queue<'a, T> {
    /// Its own.
    Own(&'a Worker<T>),
    /// The shared one.
    Shared(&'a Injector<T>),
    /// The far end of another worker's.
    Other(&'a Stealer<T>),
}

/// Whether a far end is that of a queue: it is what `Worker::stealer` gives for it.
pub closed spec fn is_far_end<T>(end: Stealer<T>, queue: Worker<T>) -> bool {
    call_ensures(far_end::<T>, (&queue,), end)
}

/// Whether a probe is what looking into a queue brought: a worker's own queue gave a job or is empty; of
/// the others it is what stealing from just that queue, on behalf of the worker, came to.
pub closed spec fn is_answer<T>(queue: Queue<'_, T>, worker: &Worker<T>, probe: Probe<T>) -> bool {
    match queue {
        Queue::Own(own) => exists|job: Option<T>| #[trigger]
            call_ensures(pop_own::<T>, (own,), job) && probe == found_or_empty(job),
        Queue::Shared(shared) => call_ensures(steal_shared::<T>, (shared, worker), probe),
        Queue::Other(other) => call_ensures(steal_other::<T>, (other, worker), probe),
    }
}

/// What a worker's own queue answers: a job, or that there is none. Nobody gets in its way there.
pub open spec fn found_or_empty<T>(job: Option<T>) -> Probe<T> {
    match job {
        Some(job) => Probe::Found(job),
        None => Probe::Empty,
    }
}

/// Looks into a queue on behalf of a worker.
pub fn probe_queue<T>(queue: Queue<'_, T>, worker: &Worker<T>) -> (probe: Probe<T>)
    ensures
        is_answer(queue, worker, probe),
        queue is Own ==> !(probe is Retry),
{
    match queue {
        Queue::Own(own) => {
            let pop = pop_own::<T>;
            match pop(own) {
                Some(job) => Probe::Found(job),
                None => Probe::Empty,
            }
        },
        Queue::Shared(shared) => {
            let steal = steal_shared::<T>;
            steal(shared, worker)
        },
        Queue::Other(other) => {
            let steal = steal_other::<T>;
            steal(other, worker)
        },
    }
}

/// Where a worker looks.
#[derive(Debug, Clone, Copy, PartialEq, Eq, Structural)]
pub enum Stage {
    /// Its own queue.
    Own,
    /// The shared queue.
    Shared,
    /// The queue of this worker.
    Other(usize),
}

/// The first queue of another worker from `i` on.
pub open spec fn other_from(i: int, own: int, count: int) -> Option<Stage> {
    if i == own {
        if i + 1 < count {
            Some(Stage::Other((i + 1) as usize))
        } else {
            None
        }
    } else if i < count {
        Some(Stage::Other(i as usize))
    } else {
        None
    }
}

/// Where worker `own` of `count` looks when a queue is empty; none if that was the last.
pub open spec fn following(stage: Stage, own: int, count: int) -> Option<Stage> {
    match stage {
        Stage::Own => Some(Stage::Shared),
        Stage::Shared => other_from(0, own, count),
        Stage::Other(i) => other_from(i + 1, own, count),
    }
}

fn next_other(i: usize, own: usize, count: usize) -> (next: Option<Stage>)
    requires
        own < count,
        i <= count,
    ensures
        next == other_from(i as int, own as int, count as int),
{
    let j: usize = if i == own {
        i + 1
    } else {
        i
    };
    if j < count {
        Some(Stage::Other(j))
    } else {
        None
    }
}

/// One step of looking for a job.
#[derive(Debug, Clone, Copy, PartialEq, Eq)]
pub enum Step<T> {
    /// Here is one.
    Found(T),
    /// Not yet: take another step.
    Again,
    /// There is none.
    Nothing,
}

/// What a step makes of what a queue answered: the next stage, and what to report.
pub open spec fn after_probe<T>(stage: Stage, own: int, count: int, probe: Probe<T>) -> (Stage, Step<T>) {
    match probe {
        Probe::Found(job) => (stage, Step::Found(job)),
        Probe::Retry => (stage, Step::Again),
        Probe::Empty => match following(stage, own, count) {
            Some(next) => (next, Step::Again),
            None => (stage, Step::Nothing),
        },
    }
}

/// What a step makes of what a queue answered.
pub fn settle_probe<T>(stage: Stage, own: usize, count: usize, probe: Probe<T>) -> (result: (
    Stage,
    Step<T>,
))
    requires
        own < count,
        stage matches Stage::Other(i) ==> i < count,
    ensures
        result == after_probe(stage, own as int, count as int, probe),
        result.0 matches Stage::Other(i) ==> i < count,
{
    match probe {
        Probe::Found(job) => (stage, Step::Found(job)),
        Probe::Retry => (stage, Step::Again),
        Probe::Empty => {
            let next = match stage {
                Stage::Own => Some(Stage::Shared),
                Stage::Shared => next_other(0, own, count),
                Stage::Other(i) => next_other(i + 1, own, count),
            };
            match next {
                Some(next) => (next, Step::Again),
                None => (stage, Step::Nothing),
            }
        },
    }
}

/// A worker on the look for a job.
#[derive(Debug, Clone, Copy, PartialEq, Eq, Structural)]
pub struct TaskHunt {
    pub own: usize,
    pub stage: Stage,
}

impl TaskHunt {
    /// Worker `own` starts to look.
    pub fn new(own: usize) -> (hunt: Self)
        ensures
            hunt.own == own,
            hunt.stage == Stage::Own,
    {
        TaskHunt { own, stage: Stage::Own }
    }
}

impl<T> TaskQueues<T> {
    /// Number of workers.
    pub closed spec fn count(&self) -> int {
        self.others@.len() as int
    }

    /// The far end of the queue of worker `k`.
    pub closed spec fn far(&self, k: int) -> Stealer<T> {
        self.others@[k]
    }

    /// Queues for this many workers, but at least one; the queue of each worker comes along. Through
    /// the far ends the workers steal from just those queues.
    pub fn with_workers(workers: usize) -> (result: (TaskQueues<T>, Vec<Worker<T>>))
        ensures
            result.0.count() == crate::runtime::exec::at_least_one(workers as int),
            result.1@.len() == result.0.count(),
            forall|k: int|
                0 <= k < result.0.count() ==> is_far_end(#[trigger] result.0.far(k), result.1@[k]),
    {
        let count: usize = if workers == 0 {
            1
        } else {
            workers
        };
        let mut own: Vec<Worker<T>> = Vec::new();
        let mut others: Vec<Stealer<T>> = Vec::new();
        let mut i: usize = 0;
        while i < count
            invariant
                i <= count,
                own@.len() == i,
                others@.len() == i,
                forall|k: int| 0 <= k < i ==> is_far_end(#[trigger] others@[k], own@[k]),
            decreases count - i,
        {
            let queue: Worker<T> = new_own();
            let end_of = far_end::<T>;
            let end = end_of(&queue);
            others.push(end);
            own.push(queue);
            i += 1;
        }
        let queues = TaskQueues { shared: new_shared(), others };
        assert forall|k: int| 0 <= k < queues.count() implies is_far_end(
            #[trigger] queues.far(k),
            own@[k],
        ) by {
            assert(is_far_end(others@[k], own@[k]));
        }
        (queues, own)
    }

    /// Number of workers.
    pub fn worker_count(&self) -> (n: usize)
        ensures
            n == self.count(),
    {
        self.others.len()
    }

    /// Whether a job was handed to the shared queue.
    pub closed spec fn was_handed_in(&self, job: T) -> bool {
        call_ensures(push_shared::<T>, (&self.shared, job), ())
    }

    /// Hands a job in. It goes to the shared queue; what is there afterwards depends on the other
    /// threads.
    pub fn push(&self, job: T)
        ensures
            self.was_handed_in(job),
    {
        let hand_in = push_shared::<T>;
        hand_in(&self.shared, job);
    }

    /// The queue that a worker asks at a stage.
    pub closed spec fn asked<'a>(&'a self, stage: Stage, worker: &'a Worker<T>) -> Queue<'a, T> {
        match stage {
            Stage::Own => Queue::Own(worker),
            Stage::Shared => Queue::Shared(&self.shared),
            Stage::Other(i) => Queue::Other(&self.others@[i as int]),
        }
    }

    /// The queue that a worker asks at a stage: its own, the shared one, or that of the worker that the
    /// stage names.
    pub fn queue_at<'a>(&'a self, stage: Stage, worker: &'a Worker<T>) -> (queue: Queue<'a, T>)
        requires
            stage matches Stage::Other(i) ==> i < self.count(),
        ensures
            queue == self.asked(stage, worker),
            queue is Own == stage is Own,
            queue is Shared == stage is Shared,
            queue is Other == stage is Other,
            queue matches Queue::Own(own) ==> own == worker,
            queue matches Queue::Other(other) ==> (stage matches Stage::Other(i) && *other == self.far(
                i as int,
            )),
    {
        match stage {
            Stage::Own => Queue::Own(worker),
            Stage::Shared => Queue::Shared(&self.shared),
            Stage::Other(i) => Queue::Other(&self.others[i]),
        }
    }

    /// Takes one step of looking for a job: asks the queue of the current stage, which
    /// [`TaskQueues::queue_at`] gives, and goes on to the next one if it is empty. What the queue answers
    /// depends on the other threads; [`settle_probe`] says what is made of each answer.
    pub fn find_task(&self, hunt: &mut TaskHunt, worker: &Worker<T>) -> (step: Step<T>)
        requires
            old(hunt).own < self.count(),
            old(hunt).stage matches Stage::Other(i) ==> i < self.count(),
        ensures
            final(hunt).own == old(hunt).own,
            final(hunt).stage matches Stage::Other(i) ==> i < self.count(),
            exists|probe: Probe<T>|
                is_answer(self.asked(old(hunt).stage, worker), worker, probe) && (final(hunt).stage, step)
                    == #[trigger] after_probe(
                    old(hunt).stage,
                    old(hunt).own as int,
                    self.count(),
                    probe,
                ),
            old(hunt).stage is Own ==> step is Found || (step is Again && final(hunt).stage is Shared),
    {
        let queue = self.queue_at(hunt.stage, worker);
        let probe: Probe<T> = probe_queue(queue, worker);
        let ghost answer = probe;
        let (stage, step) = settle_probe(hunt.stage, hunt.own, self.others.len(), probe);
        proof {
            assert((stage, step) == after_probe(
                old(hunt).stage,
                old(hunt).own as int,
                self.count(),
                answer,
            ));
        }
        hunt.stage = stage;
        step
    }
}

/// A worker never steals from itself, and passes over no other worker: between one stage and the next
/// there is at most its own queue, and when it gives up there is no other queue left.
pub proof fn the_hunt_skips_only_its_own_queue(i: int, own: int, count: int, j: int)
    requires
        0 <= own < count <= usize::MAX,
        0 <= i <= count,
        i <= j < count,
        j != own,
    ensures
        other_from(i, own, count) matches Some(stage) && (stage matches Stage::Other(k) && i <= k <= j && k
            != own),
{
}

/// Whether finishing a job wakes the event loop: only when it was the last one that was outstanding,
/// so that a batch wakes it once.
pub fn wakes_on_completion(outstanding: usize) -> (wakes: bool)
    ensures
        wakes == (outstanding == 1),
{
    outstanding == 1
}

/// Number of workers on a machine with this many cores: one is left to the main thread, and there is
/// at least one worker. Without a number, one.
pub open spec fn workers_for(cores: Option<usize>) -> int {
    match cores {
        Some(cores) => crate::runtime::exec::at_least_one(cores - 1),
        None => 1,
    }
}

/// Number of workers on a machine with this many cores.
pub fn default_workers(cores: Option<usize>) -> (workers: usize)
    ensures
        workers == workers_for(cores),
{
    match cores {
        Some(cores) => {
            if cores <= 2 {
                1
            } else {
                cores - 1
            }
        },
        None => 1,
    }
}

/// The result of a job, until it is taken. Who shares a handle between threads guards it: every
/// method here is one turn of holding it.
#[derive(Debug)]
pub struct JobHandle<T> {
    cancelled: bool,
    result: Option<T>,
}

impl<T> JobHandle<T> {
    /// Whether the job was asked to stop.
    pub closed spec fn stopped(&self) -> bool {
        self.cancelled
    }

    /// The result, if it is there and was not taken.
    pub closed spec fn outcome(&self) -> Option<T> {
        self.result
    }

    /// A job that was handed in.
    pub fn new() -> (handle: Self)
        ensures
            !handle.stopped(),
            handle.outcome() is None,
    {
        JobHandle { cancelled: false, result: None }
    }

    /// The job is done.
    pub fn finish(&mut self, value: T)
        ensures
            final(self).outcome() == Some(value),
            final(self).stopped() == old(self).stopped(),
    {
        self.result = Some(value);
    }

    /// Takes the result; none if the job is not done or the result was taken.
    pub fn poll(&mut self) -> (result: Option<T>)
        ensures
            result == old(self).outcome(),
            final(self).outcome() is None,
            final(self).stopped() == old(self).stopped(),
    {
        self.result.take()
    }

    /// Whether the result is there.
    pub fn is_finished(&self) -> (finished: bool)
        ensures
            finished == self.outcome() is Some,
    {
        self.result.is_some()
    }

    /// Asks the job to stop. It must look for this itself.
    pub fn cancel(&mut self)
        ensures
            final(self).stopped(),
            final(self).outcome() == old(self).outcome(),
    {
        self.cancelled = true;
    }

    /// What the job may see of its handle. It looks at the handle itself: while it is held, nobody can
    /// change what it sees, and what is taken after a change sees the change.
    pub fn context(&self) -> (context: JobContext<'_>)
        ensures
            context.stopping() == self.stopped(),
    {
        JobContext { cancelled: &self.cancelled }
    }
}

/// What a job may see: it borrows from its handle.
#[derive(Debug, Clone, Copy)]
pub struct JobContext<'a> {
    cancelled: &'a bool,
}

impl<'a> JobContext<'a> {
    /// Whether the job was asked to stop.
    pub closed spec fn stopping(&self) -> bool {
        *self.cancelled
    }

    /// Whether the job was asked to stop.
    pub fn is_cancelled(&self) -> (cancelled: bool)
        ensures
            cancelled == self.stopping(),
    {
        *self.cancelled
    }
}

/// A worker looks into its own queue first, then into the shared one, then into those of the others, from
/// the first on. It moves on only from an empty queue, and gives up only after the last.
pub proof fn a_worker_looks_close_by_first<T>(own: int, count: int, stage: Stage, probe: Probe<T>)
    requires
        0 <= own < count <= usize::MAX,
    ensures
        following(Stage::Own, own, count) == Some(Stage::Shared),
        following(Stage::Shared, own, count) == (if own > 0 {
            Some(Stage::Other(0))
        } else if count > 1 {
            Some(Stage::Other(1))
        } else {
            None
        }),
        probe matches Probe::Found(job) ==> after_probe(stage, own, count, probe) == (stage, Step::Found(job)),
        probe is Retry ==> after_probe(stage, own, count, probe) == (stage, Step::<T>::Again),
        probe is Empty ==> (after_probe(stage, own, count, probe).1 is Nothing <==> following(stage, own, count)
            is None),
        probe is Empty && following(stage, own, count) is Some ==> after_probe(stage, own, count, probe) == (
            following(stage, own, count)->0,
            Step::<T>::Again,
        ),
{
}

/// One core is left to the main thread, and there is always a worker.
pub proof fn one_core_is_left(cores: Option<usize>)
    ensures
        workers_for(cores) >= 1,
        cores matches Some(n) ==> workers_for(cores) == (if n >= 2 {
            n - 1
        } else {
            1
        }),
        cores is None ==> workers_for(cores) == 1,
{
}

} // verus!
