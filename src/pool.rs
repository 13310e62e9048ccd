//! The decisions of a fixed-size worker pool.
//!
//! `PoolCore` holds the work queue and the state of every worker. The threads
//! that run the jobs ask it what to do next (`next_step`), report finished jobs
//! (`job_finished`), and the owner drains and stops it (`begin_shutdown`,
//! `worker_joined`). Every transition keeps `wf`, from which the pool's
//! guarantees follow: every queued job is run before any worker stops, at most
//! `size` jobs run at once, and a stopped pool has run every job it was given.
use vstd::prelude::*;
use std::collections::VecDeque;
use crate::error::{size_error_text, ThreadPoolError};

verus! {

/// The smallest number of workers a pool may have.
pub const MIN_POOL_SIZE: usize = 1;

/// The largest number of workers a pool may have.
pub const MAX_POOL_SIZE: usize = 15;

/// Whether a pool of `size` workers may be built.
pub open spec fn valid_size(size: int) -> bool {
    MIN_POOL_SIZE <= size <= MAX_POOL_SIZE
}

/// A message on the work queue: a job to run, or the order for one worker to stop.
#[verifier::reject_recursive_types(J)]
pub enum Message<J> {
    NewJob(J),
    Terminate,
}

/// The life of a pool: it takes jobs while `Running`, finishes them while
/// `Draining`, and is `Stopped` once every worker has been joined.
#[derive(PartialEq, Eq, Structural, Clone, Copy, Debug)]
pub enum Phase {
    Running,
    Draining,
    Stopped,
}

/// What a worker is doing: waiting for a message, running a job, or gone.
#[derive(PartialEq, Eq, Structural, Clone, Copy, Debug)]
pub enum WorkerState {
    Idle,
    Busy,
    Exited,
}

/// What a worker is told to do next.
#[verifier::reject_recursive_types(J)]
pub enum Step<J> {
    /// Run this job, then report it with `job_finished`.
    Run(J),
    /// The queue is empty: wait for a message and ask again.
    Wait,
    /// Leave the worker loop.
    Exit,
}

/// The number of jobs in a queue.
pub open spec fn count_jobs<J>(q: Seq<Message<J>>) -> nat
    decreases q.len(),
{
    if q.len() == 0 {
        0
    } else {
        count_jobs(q.drop_last()) + if q.last() is NewJob {
            1nat
        } else {
            0nat
        }
    }
}

/// The number of workers in state `st`.
pub open spec fn count_state(w: Seq<WorkerState>, st: WorkerState) -> nat
    decreases w.len(),
{
    if w.len() == 0 {
        0
    } else {
        count_state(w.drop_last(), st) + if w.last() == st {
            1nat
        } else {
            0nat
        }
    }
}

/// `size` stop orders.
pub open spec fn terminates<J>(size: nat) -> Seq<Message<J>> {
    Seq::new(size, |i: int| Message::Terminate)
}

proof fn lemma_count_jobs_bounds<J>(q: Seq<Message<J>>)
    ensures
        count_jobs(q) <= q.len(),
        (forall|i: int| 0 <= i < q.len() ==> q[i] is NewJob) ==> count_jobs(q) == q.len(),
        (forall|i: int| 0 <= i < q.len() ==> q[i] is Terminate) ==> count_jobs(q) == 0,
        count_jobs(q) == 0 ==> forall|i: int| 0 <= i < q.len() ==> q[i] is Terminate,
        count_jobs(q) == q.len() ==> forall|i: int| 0 <= i < q.len() ==> q[i] is NewJob,
    decreases q.len(),
{
    if q.len() > 0 {
        lemma_count_jobs_bounds(q.drop_last());
        assert forall|i: int| 0 <= i < q.len() - 1 implies q.drop_last()[i] == q[i] by {}
    }
}

proof fn lemma_count_jobs_front<J>(q: Seq<Message<J>>)
    requires
        q.len() > 0,
    ensures
        count_jobs(q) == count_jobs(q.subrange(1, q.len() as int)) + if q[0] is NewJob {
            1nat
        } else {
            0nat
        },
    decreases q.len(),
{
    if q.len() > 1 {
        let t = q.subrange(1, q.len() as int);
        lemma_count_jobs_front(q.drop_last());
        assert(q.drop_last().subrange(1, q.len() - 1) =~= t.drop_last());
    } else {
        assert(q.drop_last() =~= Seq::<Message<J>>::empty());
        assert(q.subrange(1, q.len() as int) =~= Seq::<Message<J>>::empty());
    }
}

proof fn lemma_count_state_update(w: Seq<WorkerState>, i: int, x: WorkerState, st: WorkerState)
    requires
        0 <= i < w.len(),
    ensures
        count_state(w.update(i, x), st) + (if w[i] == st {
            1nat
        } else {
            0nat
        }) == count_state(w, st) + (if x == st {
            1nat
        } else {
            0nat
        }),
    decreases w.len(),
{
    if i < w.len() - 1 {
        lemma_count_state_update(w.drop_last(), i, x, st);
        assert(w.update(i, x).drop_last() =~= w.drop_last().update(i, x));
    } else {
        assert(w.update(i, x).drop_last() =~= w.drop_last());
    }
}

proof fn lemma_count_state_bounds(w: Seq<WorkerState>, st: WorkerState)
    ensures
        count_state(w, st) <= w.len(),
        (forall|i: int| 0 <= i < w.len() ==> w[i] != st) ==> count_state(w, st) == 0,
        (forall|i: int| 0 <= i < w.len() ==> w[i] == st) ==> count_state(w, st) == w.len(),
        (exists|i: int| 0 <= i < w.len() && w[i] == st) ==> count_state(w, st) > 0,
    decreases w.len(),
{
    if w.len() > 0 {
        lemma_count_state_bounds(w.drop_last(), st);
        if w.last() != st {
            assert forall|i: int| 0 <= i < w.len() && w[i] == st implies w.drop_last()[i] == st by {}
        }
    }
}

/// The state of a worker pool: its size, its phase, the queue of messages
/// not yet taken, what each worker is doing, and how many workers were joined.
#[verifier::reject_recursive_types(J)]
pub struct PoolCore<J> {
    size: usize,
    phase: Phase,
    queue: VecDeque<Message<J>>,
    workers: Vec<WorkerState>,
    joined: usize,
    submitted: Ghost<nat>,
    completed: Ghost<nat>,
}

impl<J> PoolCore<J> {
    /// The number of workers, fixed when the pool is built.
    pub closed spec fn size(&self) -> nat {
        self.size as nat
    }

    /// Where the pool is in its life.
    pub closed spec fn phase(&self) -> Phase {
        self.phase
    }

    /// The messages not yet taken by a worker, oldest first.
    pub closed spec fn queue(&self) -> Seq<Message<J>> {
        self.queue@
    }

    /// The state of each worker, by id.
    pub closed spec fn workers(&self) -> Seq<WorkerState> {
        self.workers@
    }

    /// How many workers, counted from id 0, have been joined.
    pub closed spec fn joined(&self) -> nat {
        self.joined as nat
    }

    /// How many jobs were submitted.
    pub closed spec fn submitted(&self) -> nat {
        self.submitted@
    }

    /// How many jobs have been run to the end.
    pub closed spec fn completed(&self) -> nat {
        self.completed@
    }

    /// The invariant that every transition keeps.
    pub open spec fn wf(&self) -> bool {
        let q = self.queue();
        let w = self.workers();
        let exited = count_state(w, WorkerState::Exited);
        &&& valid_size(self.size() as int)
        &&& w.len() == self.size()
        // stop orders only ever follow the jobs
        &&& forall|i: int, j: int|
            0 <= i < j < q.len() && (#[trigger] q[i]) is Terminate ==> (#[trigger] q[j]) is Terminate
        &&& self.phase() == Phase::Running ==> {
            &&& count_jobs(q) == q.len()
            &&& exited == 0
            &&& self.joined() == 0
        }
        // one stop order per worker: each one is either still queued or taken by a worker that left
        &&& self.phase() != Phase::Running ==> (q.len() - count_jobs(q)) + exited == self.size()
        // a worker leaves only once no job is left ahead of it
        &&& exited > 0 ==> count_jobs(q) == 0
        &&& self.joined() <= self.size()
        &&& forall|i: int| 0 <= i < self.joined() ==> w[i] == WorkerState::Exited
        &&& (self.phase() == Phase::Stopped <==> self.joined() == self.size())
        // every job submitted is done, queued, or running
        &&& self.submitted() == self.completed() + count_jobs(q) + count_state(w, WorkerState::Busy)
    }

    /// Builds the state of a pool of `size` idle workers with an empty queue.
    /// Fails with the error that names `size` unless it is between 1 and 15.
    pub fn new(size: usize) -> (r: Result<PoolCore<J>, ThreadPoolError>)
        ensures
            r is Ok <==> valid_size(size as int),
            r matches Err(e) ==> e.text() == size_error_text(size as nat),
            r matches Ok(p) ==> {
                &&& p.wf()
                &&& p.size() == size
                &&& p.phase() == Phase::Running
                &&& p.queue().len() == 0
                &&& p.workers() == Seq::new(size as nat, |i: int| WorkerState::Idle)
                &&& p.submitted() == 0
                &&& p.completed() == 0
            },
    {
        if size < MIN_POOL_SIZE || size > MAX_POOL_SIZE {
            return Err(ThreadPoolError::invalid_size(size));
        }
        let mut workers: Vec<WorkerState> = Vec::with_capacity(size);
        let mut id: usize = 0;
        while id < size
            invariant
                id <= size,
                workers@ == Seq::new(id as nat, |i: int| WorkerState::Idle),
            decreases size - id,
        {
            workers.push(WorkerState::Idle);
            id = id + 1;
            assert(workers@ =~= Seq::new(id as nat, |i: int| WorkerState::Idle));
        }
        let p = PoolCore {
            size,
            phase: Phase::Running,
            queue: VecDeque::new(),
            workers,
            joined: 0,
            submitted: Ghost(0),
            completed: Ghost(0),
        };
        proof {
            lemma_count_state_bounds(p.workers(), WorkerState::Exited);
            lemma_count_state_bounds(p.workers(), WorkerState::Busy);
        }
        Ok(p)
    }

    /// Puts a job at the back of the queue. Jobs are taken only while the
    /// pool is running.
    pub fn submit(&mut self, job: J)
        requires
            old(self).wf(),
            old(self).phase() == Phase::Running,
        ensures
            final(self).wf(),
            final(self).queue() == old(self).queue().push(Message::NewJob(job)),
            final(self).submitted() == old(self).submitted() + 1,
            final(self).completed() == old(self).completed(),
            final(self).workers() == old(self).workers(),
            final(self).phase() == old(self).phase(),
            final(self).size() == old(self).size(),
            final(self).joined() == old(self).joined(),
    {
        let ghost q0 = self.queue@;
        self.queue.push_back(Message::NewJob(job));
        self.submitted = Ghost(self.submitted@ + 1);
        proof {
            let q = self.queue@;
            assert(q.drop_last() =~= q0);
            lemma_count_jobs_bounds(q0);
            lemma_count_jobs_bounds(q);
        }
    }

    /// The next step of idle worker `id`: the message at the front of the
    /// queue is taken out and decides it. A job makes the worker busy; a stop
    /// order makes it leave, and a worker leaves only when no job is queued.
    pub fn next_step(&mut self, id: usize) -> (r: Step<J>)
        requires
            old(self).wf(),
            id < old(self).size(),
            old(self).workers()[id as int] == WorkerState::Idle,
        ensures
            final(self).wf(),
            final(self).size() == old(self).size(),
            final(self).phase() == old(self).phase(),
            final(self).joined() == old(self).joined(),
            final(self).submitted() == old(self).submitted(),
            final(self).completed() == old(self).completed(),
            old(self).queue().len() == 0 <==> r is Wait,
            r is Wait ==> final(self).queue() == old(self).queue() && final(self).workers()
                == old(self).workers(),
            !(r is Wait) ==> final(self).queue() == old(self).queue().subrange(
                1,
                old(self).queue().len() as int,
            ),
            r matches Step::Run(j) ==> {
                &&& old(self).queue()[0] == Message::NewJob(j)
                &&& final(self).workers() == old(self).workers().update(id as int, WorkerState::Busy)
            },
            r is Exit ==> {
                &&& old(self).queue()[0] is Terminate
                &&& final(self).workers() == old(self).workers().update(
                    id as int,
                    WorkerState::Exited,
                )
                &&& forall|i: int|
                    0 <= i < final(self).queue().len() ==> (#[trigger] final(self).queue()[i]) is Terminate
            },
    {
        let ghost q0 = self.queue@;
        let ghost w0 = self.workers@;
        proof {
            lemma_count_jobs_bounds(q0);
        }
        match self.queue.pop_front() {
            None => Step::Wait,
            Some(Message::NewJob(job)) => {
                self.workers.set(id, WorkerState::Busy);
                proof {
                    lemma_count_jobs_front(q0);
                    lemma_count_state_update(w0, id as int, WorkerState::Busy, WorkerState::Busy);
                    lemma_count_state_update(w0, id as int, WorkerState::Busy, WorkerState::Exited);
                    lemma_count_jobs_bounds(self.queue@);
                    assert forall|i: int| 0 <= i < self.joined() implies self.workers@[i]
                        == WorkerState::Exited by {
                        assert(w0[i] == WorkerState::Exited);
                    }
                }
                Step::Run(job)
            },
            Some(Message::Terminate) => {
                self.workers.set(id, WorkerState::Exited);
                proof {
                    lemma_count_jobs_front(q0);
                    lemma_count_state_update(w0, id as int, WorkerState::Exited, WorkerState::Busy);
                    lemma_count_state_update(
                        w0,
                        id as int,
                        WorkerState::Exited,
                        WorkerState::Exited,
                    );
                    assert forall|i: int| 0 <= i < self.queue@.len() implies (
                    #[trigger] self.queue@[i]) is Terminate by {
                        assert(q0[0] is Terminate);
                        assert(self.queue@[i] == q0[i + 1]);
                    }
                    lemma_count_jobs_bounds(self.queue@);
                    assert forall|i: int| 0 <= i < self.joined() implies self.workers@[i]
                        == WorkerState::Exited by {
                        assert(w0[i] == WorkerState::Exited);
                    }
                }
                Step::Exit
            },
        }
    }

    /// Records that busy worker `id` has run its job to the end.
    pub fn job_finished(&mut self, id: usize)
        requires
            old(self).wf(),
            id < old(self).size(),
            old(self).workers()[id as int] == WorkerState::Busy,
        ensures
            final(self).wf(),
            final(self).workers() == old(self).workers().update(id as int, WorkerState::Idle),
            final(self).completed() == old(self).completed() + 1,
            final(self).submitted() == old(self).submitted(),
            final(self).queue() == old(self).queue(),
            final(self).phase() == old(self).phase(),
            final(self).size() == old(self).size(),
            final(self).joined() == old(self).joined(),
    {
        let ghost w0 = self.workers@;
        self.workers.set(id, WorkerState::Idle);
        self.completed = Ghost(self.completed@ + 1);
        proof {
            lemma_count_state_update(w0, id as int, WorkerState::Idle, WorkerState::Busy);
            lemma_count_state_update(w0, id as int, WorkerState::Idle, WorkerState::Exited);
            assert forall|i: int| 0 <= i < self.joined() implies self.workers@[i]
                == WorkerState::Exited by {
                assert(w0[i] == WorkerState::Exited);
            }
        }
    }

    /// Starts disposal: one stop order per worker goes behind every job already
    /// queued, and the pool takes no more jobs. Returns the number of workers
    /// to join.
    pub fn begin_shutdown(&mut self) -> (r: usize)
        requires
            old(self).wf(),
            old(self).phase() == Phase::Running,
        ensures
            final(self).wf(),
            r == old(self).size(),
            final(self).phase() == Phase::Draining,
            final(self).queue() == old(self).queue() + terminates::<J>(old(self).size()),
            final(self).workers() == old(self).workers(),
            final(self).size() == old(self).size(),
            final(self).joined() == old(self).joined(),
            final(self).submitted() == old(self).submitted(),
            final(self).completed() == old(self).completed(),
    {
        let ghost q0 = self.queue@;
        let mut k: usize = 0;
        while k < self.size
            invariant
                k <= self.size,
                self.size == old(self).size,
                self.queue@ == q0 + terminates::<J>(k as nat),
                count_jobs(self.queue@) == count_jobs(q0),
                self.workers == old(self).workers,
                self.phase == old(self).phase,
                self.joined == old(self).joined,
                self.submitted == old(self).submitted,
                self.completed == old(self).completed,
            decreases self.size - k,
        {
            let ghost before = self.queue@;
            self.queue.push_back(Message::Terminate);
            k = k + 1;
            proof {
                assert(self.queue@.drop_last() =~= before);
                assert(self.queue@ =~= q0 + terminates::<J>(k as nat));
            }
        }
        self.phase = Phase::Draining;
        proof {
            lemma_count_jobs_bounds(q0);
            let q = self.queue@;
            assert forall|i: int, j: int|
                0 <= i < j < q.len() && (#[trigger] q[i]) is Terminate implies (
                #[trigger] q[j]) is Terminate by {
                if j < q0.len() {
                    assert(q[i] == q0[i]);
                }
            }
        }
        self.size
    }

    /// Records that worker `id`, the next one in id order, has been joined.
    /// The pool stops when the last worker is joined.
    pub fn worker_joined(&mut self, id: usize)
        requires
            old(self).wf(),
            old(self).phase() == Phase::Draining,
            id == old(self).joined(),
            id < old(self).size(),
            old(self).workers()[id as int] == WorkerState::Exited,
        ensures
            final(self).wf(),
            final(self).joined() == old(self).joined() + 1,
            final(self).phase() == if final(self).joined() == final(self).size() {
                Phase::Stopped
            } else {
                Phase::Draining
            },
            final(self).queue() == old(self).queue(),
            final(self).workers() == old(self).workers(),
            final(self).size() == old(self).size(),
            final(self).submitted() == old(self).submitted(),
            final(self).completed() == old(self).completed(),
    {
        self.joined = self.joined + 1;
        if self.joined == self.size {
            self.phase = Phase::Stopped;
        }
    }

    /// The number of workers.
    pub fn worker_count(&self) -> (r: usize)
        ensures
            r == self.size(),
    {
        self.size
    }

    /// The phase the pool is in.
    pub fn current_phase(&self) -> (r: Phase)
        ensures
            r == self.phase(),
    {
        self.phase
    }

    /// What worker `id` is doing.
    pub fn state_of(&self, id: usize) -> (r: WorkerState)
        requires
            self.wf(),
            id < self.size(),
        ensures
            r == self.workers()[id as int],
    {
        self.workers[id]
    }

    /// How many workers have been joined.
    pub fn joined_count(&self) -> (r: usize)
        ensures
            r == self.joined(),
    {
        self.joined
    }

    /// How many messages wait in the queue.
    pub fn pending_messages(&self) -> (r: usize)
        ensures
            r == self.queue().len(),
    {
        self.queue.len()
    }
}

/// Disposal is complete once the pool is stopped: every worker has left, no
/// message is left in the queue, and every job submitted has been run to the end.
pub proof fn lemma_stopped_pool_ran_every_job<J>(p: PoolCore<J>)
    requires
        p.wf(),
        p.phase() == Phase::Stopped,
    ensures
        forall|i: int| 0 <= i < p.size() ==> p.workers()[i] == WorkerState::Exited,
        p.queue().len() == 0,
        p.completed() == p.submitted(),
{
    let w = p.workers();
    lemma_count_state_bounds(w, WorkerState::Busy);
    lemma_count_state_bounds(w, WorkerState::Exited);
    lemma_count_jobs_bounds(p.queue());
}

/// At most `size` jobs run at any moment: each one runs on a busy worker.
pub proof fn lemma_running_jobs_at_most_size<J>(p: PoolCore<J>)
    requires
        p.wf(),
    ensures
        count_state(p.workers(), WorkerState::Busy) <= p.size(),
{
    lemma_count_state_bounds(p.workers(), WorkerState::Busy);
}

/// No queued job is passed over: once a worker has left, every message still in
/// the queue is a stop order, so every job queued before disposal began has
/// already been taken by a worker.
pub proof fn lemma_no_job_left_after_exit<J>(p: PoolCore<J>, id: int)
    requires
        p.wf(),
        0 <= id < p.size(),
        p.workers()[id] == WorkerState::Exited,
    ensures
        count_jobs(p.queue()) == 0,
        forall|i: int| 0 <= i < p.queue().len() ==> (#[trigger] p.queue()[i]) is Terminate,
{
    lemma_count_state_bounds(p.workers(), WorkerState::Exited);
    lemma_count_jobs_bounds(p.queue());
}

/// Every job submitted is finished, still queued, or running on a busy worker;
/// none is run twice and none is lost.
pub proof fn lemma_jobs_accounted<J>(p: PoolCore<J>)
    requires
        p.wf(),
    ensures
        p.submitted() == p.completed() + count_jobs(p.queue()) + count_state(
            p.workers(),
            WorkerState::Busy,
        ),
{
}

} // verus!
