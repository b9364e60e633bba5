use vstd::prelude::*;

verus! {

/// Number of control messages the job queue holds before `execute` must wait.
pub const QUEUE_CAPACITY: usize = 100;

/// One slot of the job queue: a job to run, or an order to stop.
pub enum Message<J> {
    Work(J),
    Shutdown,
}

/// Where a worker stands in its life.
#[derive(Clone, Copy, Debug, PartialEq, Eq, Structural)]
pub enum WorkerState {
    /// Waiting for the next message.
    Idle,
    /// Running a job it took from the queue.
    Running,
    /// Took a stop order; takes nothing more.
    Stopped,
}

/// The jobs carried by the `Work` messages of `q`, in queue order.
pub open spec fn jobs_of<J>(q: Seq<Message<J>>) -> Seq<J>
    decreases q.len(),
{
    if q.len() == 0 {
        Seq::empty()
    } else {
        match q[0] {
            Message::Work(j) => seq![j] + jobs_of(q.drop_first()),
            Message::Shutdown => jobs_of(q.drop_first()),
        }
    }
}

/// How many `Shutdown` messages `q` holds.
pub open spec fn stops_in<J>(q: Seq<Message<J>>) -> nat
    decreases q.len(),
{
    if q.len() == 0 {
        0
    } else {
        (if q[0] is Shutdown { 1nat } else { 0nat }) + stops_in(q.drop_first())
    }
}

/// How many workers of `ws` are in state `st`.
pub open spec fn count_state(ws: Seq<WorkerState>, st: WorkerState) -> nat
    decreases ws.len(),
{
    if ws.len() == 0 {
        0
    } else {
        (if ws.last() == st { 1nat } else { 0nat }) + count_state(ws.drop_last(), st)
    }
}

/// Once a stop order is queued, nothing but stop orders follow it.
pub open spec fn stops_trail<J>(q: Seq<Message<J>>) -> bool {
    forall|i: int, k: int| 0 <= i < k < q.len() && q[i] is Shutdown ==> q[k] is Shutdown
}

proof fn lemma_jobs_push<J>(q: Seq<Message<J>>, m: Message<J>)
    ensures
        jobs_of(q.push(m)) == jobs_of(q) + match m {
            Message::Work(j) => seq![j],
            Message::Shutdown => Seq::<J>::empty(),
        },
        stops_in(q.push(m)) == stops_in(q) + (if m is Shutdown { 1nat } else { 0nat }),
    decreases q.len(),
{
    if q.len() == 0 {
        assert(q.push(m).drop_first() =~= Seq::<Message<J>>::empty());
        assert(jobs_of(Seq::<Message<J>>::empty()) == Seq::<J>::empty());
        assert(stops_in(Seq::<Message<J>>::empty()) == 0);
    } else {
        lemma_jobs_push(q.drop_first(), m);
        assert(q.push(m).drop_first() =~= q.drop_first().push(m));
    }
}

proof fn lemma_no_stops<J>(q: Seq<Message<J>>)
    requires
        stops_in(q) == 0,
    ensures
        forall|i: int| 0 <= i < q.len() ==> q[i] is Work,
    decreases q.len(),
{
    if q.len() > 0 {
        lemma_no_stops(q.drop_first());
        assert forall|i: int| 0 <= i < q.len() implies q[i] is Work by {
            if i > 0 {
                assert(q[i] == q.drop_first()[i - 1]);
            }
        }
    }
}

proof fn lemma_only_stops<J>(q: Seq<Message<J>>)
    requires
        forall|i: int| 0 <= i < q.len() ==> q[i] is Shutdown,
    ensures
        jobs_of(q) == Seq::<J>::empty(),
        stops_in(q) == q.len(),
    decreases q.len(),
{
    if q.len() > 0 {
        lemma_only_stops(q.drop_first());
    }
}

proof fn lemma_no_stops_no_jobs_empty<J>(q: Seq<Message<J>>)
    requires
        stops_in(q) == 0,
        jobs_of(q).len() == 0,
    ensures
        q.len() == 0,
{
    if q.len() > 0 {
        match q[0] {
            Message::Work(j) => {},
            Message::Shutdown => {},
        }
    }
}

proof fn lemma_count_update(ws: Seq<WorkerState>, i: int, new: WorkerState, st: WorkerState)
    requires
        0 <= i < ws.len(),
    ensures
        count_state(ws.update(i, new), st) + (if ws[i] == st { 1nat } else { 0nat })
            == count_state(ws, st) + (if new == st { 1nat } else { 0nat }),
    decreases ws.len(),
{
    if i == ws.len() - 1 {
        assert(ws.update(i, new).drop_last() =~= ws.drop_last());
    } else {
        lemma_count_update(ws.drop_last(), i, new, st);
        assert(ws.update(i, new).drop_last() =~= ws.drop_last().update(i, new));
    }
}

proof fn lemma_count_total(ws: Seq<WorkerState>)
    ensures
        count_state(ws, WorkerState::Idle) + count_state(ws, WorkerState::Running)
            + count_state(ws, WorkerState::Stopped) == ws.len(),
    decreases ws.len(),
{
    if ws.len() > 0 {
        lemma_count_total(ws.drop_last());
    }
}

proof fn lemma_count_some(ws: Seq<WorkerState>, st: WorkerState)
    requires
        count_state(ws, st) > 0,
    ensures
        exists|i: int| 0 <= i < ws.len() && ws[i] == st,
    decreases ws.len(),
{
    if ws.last() != st {
        lemma_count_some(ws.drop_last(), st);
        let i = choose|i: int| 0 <= i < ws.drop_last().len() && ws.drop_last()[i] == st;
        assert(ws[i] == st);
    } else {
        assert(ws[ws.len() - 1] == st);
    }
}

proof fn lemma_count_all(n: nat, st: WorkerState, o: WorkerState)
    ensures
        count_state(Seq::new(n, |i: int| st), o) == if o == st { n } else { 0 },
    decreases n,
{
    if n > 0 {
        lemma_count_all((n - 1) as nat, st, o);
        assert(Seq::new(n, |i: int| st).drop_last() =~= Seq::new((n - 1) as nat, |i: int| st));
    }
}

/// The dispatch state of a fixed pool of workers fed through one bounded,
/// first-in first-out queue of control messages.
///
/// The value holds the queue and the state of every worker; the threads that
/// run the jobs drive it through `take` and `job_done`, the submitters through
/// `execute`, and the owner tears it down with `send_stop`.
pub struct ThreadPool<J> {
    queue: Vec<Message<J>>,
    workers: Vec<WorkerState>,
    stops_sent: usize,
    submitted: Ghost<Seq<J>>,
    taken: Ghost<Seq<J>>,
    completed: Ghost<nat>,
}

impl<J> ThreadPool<J> {
    /// The messages waiting in the queue, head first.
    pub closed spec fn queue(&self) -> Seq<Message<J>> {
        self.queue@
    }

    /// The state of each worker, by index.
    pub closed spec fn workers(&self) -> Seq<WorkerState> {
        self.workers@
    }

    /// How many stop orders have been queued so far.
    pub closed spec fn stops_sent(&self) -> nat {
        self.stops_sent as nat
    }

    /// Every job accepted by `execute`, in order of acceptance.
    pub closed spec fn submitted(&self) -> Seq<J> {
        self.submitted@
    }

    /// Every job handed to a worker by `take`, in order of hand-out.
    pub closed spec fn taken(&self) -> Seq<J> {
        self.taken@
    }

    /// How many handed-out jobs have been reported done.
    pub closed spec fn completed(&self) -> nat {
        self.completed@
    }

    /// The number of workers the pool was made with.
    pub open spec fn size(&self) -> nat {
        self.workers().len()
    }

    /// How many workers are running a job.
    pub open spec fn running(&self) -> nat {
        count_state(self.workers(), WorkerState::Running)
    }

    /// How many workers have stopped.
    pub open spec fn stopped(&self) -> nat {
        count_state(self.workers(), WorkerState::Stopped)
    }

    /// Shutdown has begun once the first stop order is queued.
    pub open spec fn shutting_down(&self) -> bool {
        self.stops_sent() > 0
    }

    /// Every worker has stopped.
    pub open spec fn all_stopped_spec(&self) -> bool {
        self.stopped() == self.size()
    }

    /// A bound on the steps shutdown still has to take: each queued stop
    /// order, each take and each finished job lowers it.
    pub open spec fn pending_steps(&self) -> nat {
        (3 * (self.size() - self.stops_sent()) + 2 * self.queue().len() + self.running()) as nat
    }

    /// The pool's invariant: every submitted job has been handed out or
    /// waits in the queue, every stop order sent has stopped a worker or
    /// waits behind the remaining jobs, and no job is left once a worker has
    /// stopped.
    pub open spec fn wf(&self) -> bool {
        &&& 0 < self.size() <= u32::MAX
        &&& self.queue().len() <= QUEUE_CAPACITY
        &&& stops_trail(self.queue())
        &&& self.submitted() == self.taken() + jobs_of(self.queue())
        &&& self.taken().len() == self.completed() + self.running()
        &&& self.stops_sent() == self.stopped() + stops_in(self.queue())
        &&& self.stops_sent() <= self.size()
        &&& self.stopped() > 0 ==> jobs_of(self.queue()).len() == 0
    }

    /// A pool of `size` idle workers and an empty queue.
    pub fn new(size: u32) -> (r: Self)
        requires
            size > 0,
        ensures
            r.wf(),
            r.workers() == Seq::new(size as nat, |i: int| WorkerState::Idle),
            r.queue().len() == 0,
            r.stops_sent() == 0,
            r.submitted().len() == 0,
            r.taken().len() == 0,
            r.completed() == 0,
    {
        let mut workers: Vec<WorkerState> = Vec::new();
        let mut i: u32 = 0;
        while i < size
            invariant
                i <= size,
                workers@ == Seq::new(i as nat, |k: int| WorkerState::Idle),
            decreases size - i,
        {
            workers.push(WorkerState::Idle);
            i = i + 1;
            assert(workers@ =~= Seq::new(i as nat, |k: int| WorkerState::Idle));
        }
        let r = ThreadPool {
            queue: Vec::new(),
            workers,
            stops_sent: 0,
            submitted: Ghost(Seq::empty()),
            taken: Ghost(Seq::empty()),
            completed: Ghost(0),
        };
        proof {
            lemma_count_all(size as nat, WorkerState::Idle, WorkerState::Running);
            lemma_count_all(size as nat, WorkerState::Idle, WorkerState::Stopped);
            assert(jobs_of(r.queue()) == Seq::<J>::empty());
            assert(r.submitted() =~= r.taken() + jobs_of(r.queue()));
        }
        r
    }

    /// Appends `Work(job)` at the tail of the queue. When the queue is full
    /// nothing changes and the job comes back, for the caller to offer again
    /// once a worker has taken a message.
    pub fn execute(&mut self, job: J) -> (r: Result<(), J>)
        requires
            old(self).wf(),
            !old(self).shutting_down(),
        ensures
            final(self).wf(),
            old(self).queue().len() < QUEUE_CAPACITY ==> {
                &&& r is Ok
                &&& final(self).queue() == old(self).queue().push(Message::Work(job))
                &&& final(self).submitted() == old(self).submitted().push(job)
                &&& final(self).workers() == old(self).workers()
                &&& final(self).stops_sent() == old(self).stops_sent()
                &&& final(self).taken() == old(self).taken()
                &&& final(self).completed() == old(self).completed()
            },
            old(self).queue().len() >= QUEUE_CAPACITY ==> r == Err::<(), J>(job) && *final(self)
                == *old(self),
    {
        if self.queue.len() < QUEUE_CAPACITY {
            proof {
                lemma_jobs_push(self.queue@, Message::Work(job));
                lemma_no_stops(self.queue@);
                self.submitted@ = self.submitted@.push(job);
                assert(self.submitted@ =~= self.taken@ + jobs_of(self.queue@.push(Message::Work(job))));
            }
            self.queue.push(Message::Work(job));
            Ok(())
        } else {
            Err(job)
        }
    }

    /// Queues one stop order, if the pool still owes one and the queue has
    /// room; reports whether it did.
    pub fn send_stop(&mut self) -> (sent: bool)
        requires
            old(self).wf(),
        ensures
            final(self).wf(),
            sent == (old(self).stops_sent() < old(self).size() && old(self).queue().len()
                < QUEUE_CAPACITY),
            sent ==> {
                &&& final(self).queue() == old(self).queue().push(Message::Shutdown)
                &&& final(self).stops_sent() == old(self).stops_sent() + 1
                &&& final(self).workers() == old(self).workers()
                &&& final(self).submitted() == old(self).submitted()
                &&& final(self).taken() == old(self).taken()
                &&& final(self).completed() == old(self).completed()
                &&& final(self).pending_steps() < old(self).pending_steps()
            },
            !sent ==> *final(self) == *old(self),
    {
        if self.stops_sent < self.workers.len() && self.queue.len() < QUEUE_CAPACITY {
            proof {
                lemma_jobs_push(self.queue@, Message::<J>::Shutdown);
                assert(self.submitted@ =~= self.taken@ + jobs_of(self.queue@.push(Message::Shutdown)));
            }
            self.queue.push(Message::Shutdown);
            self.stops_sent = self.stops_sent + 1;
            true
        } else {
            false
        }
    }

    /// Worker `worker`, idle, takes the message at the head of the queue:
    /// a job turns it Running, a stop order turns it Stopped. On an empty
    /// queue nothing changes and the worker has to wait.
    pub fn take(&mut self, worker: usize) -> (m: Option<Message<J>>)
        requires
            old(self).wf(),
            worker < old(self).size(),
            old(self).workers()[worker as int] == WorkerState::Idle,
        ensures
            final(self).wf(),
            old(self).queue().len() == 0 ==> m is None && *final(self) == *old(self),
            old(self).queue().len() > 0 ==> {
                &&& m == Some(old(self).queue()[0])
                &&& final(self).queue() == old(self).queue().drop_first()
                &&& final(self).workers() == old(self).workers().update(
                    worker as int,
                    if old(self).queue()[0] is Work {
                        WorkerState::Running
                    } else {
                        WorkerState::Stopped
                    },
                )
                &&& final(self).taken() == match old(self).queue()[0] {
                    Message::Work(j) => old(self).taken().push(j),
                    Message::Shutdown => old(self).taken(),
                }
                &&& final(self).submitted() == old(self).submitted()
                &&& final(self).stops_sent() == old(self).stops_sent()
                &&& final(self).completed() == old(self).completed()
                &&& final(self).pending_steps() < old(self).pending_steps()
            },
    {
        if self.queue.len() == 0 {
            return None;
        }
        let ghost q = self.queue@;
        let ghost ws = self.workers@;
        let m = self.queue.remove(0);
        assert(self.queue@ =~= q.drop_first());
        let st = match &m {
            Message::Work(_) => WorkerState::Running,
            Message::Shutdown => WorkerState::Stopped,
        };
        self.workers.set(worker, st);
        proof {
            lemma_count_update(ws, worker as int, st, WorkerState::Running);
            lemma_count_update(ws, worker as int, st, WorkerState::Stopped);
            assert(stops_trail(self.queue@)) by {
                assert forall|i: int, k: int|
                    0 <= i < k < self.queue@.len() && self.queue@[i] is Shutdown implies
                    self.queue@[k] is Shutdown by {
                    assert(self.queue@[i] == q[i + 1]);
                    assert(self.queue@[k] == q[k + 1]);
                }
            }
            if q[0] is Work {
                let j = q[0]->Work_0;
                self.taken@ = self.taken@.push(j);
                assert(jobs_of(q) == seq![j] + jobs_of(q.drop_first()));
                assert(self.submitted@ =~= self.taken@ + jobs_of(self.queue@));
            } else {
                assert(jobs_of(q) == jobs_of(q.drop_first()));
                assert forall|i: int| 0 <= i < self.queue@.len() implies
                    self.queue@[i] is Shutdown by {
                    assert(self.queue@[i] == q[i + 1]);
                }
                lemma_only_stops(self.queue@);
            }
        }
        Some(m)
    }

    /// Worker `worker` reports that the job it was running has returned.
    pub fn job_done(&mut self, worker: usize)
        requires
            old(self).wf(),
            worker < old(self).size(),
            old(self).workers()[worker as int] == WorkerState::Running,
        ensures
            final(self).wf(),
            final(self).workers() == old(self).workers().update(worker as int, WorkerState::Idle),
            final(self).completed() == old(self).completed() + 1,
            final(self).queue() == old(self).queue(),
            final(self).submitted() == old(self).submitted(),
            final(self).taken() == old(self).taken(),
            final(self).stops_sent() == old(self).stops_sent(),
            final(self).pending_steps() < old(self).pending_steps(),
    {
        let ghost ws = self.workers@;
        self.workers.set(worker, WorkerState::Idle);
        proof {
            lemma_count_update(ws, worker as int, WorkerState::Idle, WorkerState::Running);
            lemma_count_update(ws, worker as int, WorkerState::Idle, WorkerState::Stopped);
            self.completed@ = self.completed@ + 1;
        }
    }

    /// The number of workers.
    pub fn worker_count(&self) -> (n: usize)
        ensures
            n == self.size(),
    {
        self.workers.len()
    }

    /// The number of messages waiting in the queue.
    pub fn queued(&self) -> (n: usize)
        ensures
            n == self.queue().len(),
    {
        self.queue.len()
    }

    /// Whether a stop order has been queued yet.
    pub fn is_shutting_down(&self) -> (b: bool)
        ensures
            b == self.shutting_down(),
    {
        self.stops_sent > 0
    }

    /// Whether every worker has been sent its stop order.
    pub fn stops_all_sent(&self) -> (b: bool)
        requires
            self.wf(),
        ensures
            b == (self.stops_sent() == self.size()),
    {
        self.stops_sent == self.workers.len()
    }

    /// The state of worker `worker`.
    pub fn worker_state(&self, worker: usize) -> (st: WorkerState)
        requires
            worker < self.size(),
        ensures
            st == self.workers()[worker as int],
    {
        self.workers[worker]
    }

    /// Whether every worker has stopped.
    pub fn all_stopped(&self) -> (b: bool)
        requires
            self.wf(),
        ensures
            b == self.all_stopped_spec(),
    {
        let mut i: usize = 0;
        while i < self.workers.len()
            invariant
                i <= self.workers@.len(),
                count_state(self.workers@.subrange(0, i as int), WorkerState::Stopped) == i,
            decreases self.workers@.len() - i,
        {
            if self.workers[i] != WorkerState::Stopped {
                proof {
                    lemma_count_prefix_below(self.workers@, i as int);
                }
                return false;
            }
            assert(self.workers@.subrange(0, i + 1).drop_last() =~= self.workers@.subrange(0, i as int));
            i = i + 1;
        }
        assert(self.workers@.subrange(0, i as int) =~= self.workers@);
        true
    }
}

proof fn lemma_count_le(ws: Seq<WorkerState>, st: WorkerState)
    ensures
        count_state(ws, st) <= ws.len(),
    decreases ws.len(),
{
    if ws.len() > 0 {
        lemma_count_le(ws.drop_last(), st);
    }
}

proof fn lemma_count_prefix_below(ws: Seq<WorkerState>, i: int)
    requires
        0 <= i < ws.len(),
        ws[i] != WorkerState::Stopped,
    ensures
        count_state(ws, WorkerState::Stopped) < ws.len(),
    decreases ws.len(),
{
    if i == ws.len() - 1 {
        lemma_count_le(ws.drop_last(), WorkerState::Stopped);
    } else {
        lemma_count_prefix_below(ws.drop_last(), i);
    }
}

/// Jobs reach workers in the order they were submitted: the jobs handed out so
/// far are exactly the first ones submitted, each once.
pub proof fn lemma_handout_order<J>(p: ThreadPool<J>)
    requires
        p.wf(),
    ensures
        p.taken().len() <= p.submitted().len(),
        p.taken() == p.submitted().subrange(0, p.taken().len() as int),
{
    assert(p.submitted().subrange(0, p.taken().len() as int) =~= p.taken());
}

/// Until shutdown begins every worker is live: none has stopped.
pub proof fn lemma_live_until_shutdown<J>(p: ThreadPool<J>)
    requires
        p.wf(),
        !p.shutting_down(),
    ensures
        p.stopped() == 0,
        p.running() + count_state(p.workers(), WorkerState::Idle) == p.size(),
{
    lemma_count_total(p.workers());
}

/// Once every worker has stopped, every submitted job was handed to a worker
/// exactly once, in order, and has completed, and no message is left queued.
pub proof fn lemma_stopped_pool_drained<J>(p: ThreadPool<J>)
    requires
        p.wf(),
        p.all_stopped_spec(),
    ensures
        p.taken() == p.submitted(),
        p.completed() == p.submitted().len(),
        p.queue().len() == 0,
        p.stops_sent() == p.size(),
{
    lemma_count_total(p.workers());
    assert(p.submitted() =~= p.taken() + jobs_of(p.queue()));
    lemma_no_stops_no_jobs_empty(p.queue());
}

/// Shutdown always has a step it can take: until every worker has stopped,
/// either a stop order can be queued, or an idle worker can take a queued
/// message, or some worker is running a job that will return.
pub proof fn lemma_shutdown_progress<J>(p: ThreadPool<J>)
    requires
        p.wf(),
        !p.all_stopped_spec(),
    ensures
        (p.stops_sent() < p.size() && p.queue().len() < QUEUE_CAPACITY) || (p.queue().len() > 0
            && exists|w: int| 0 <= w < p.size() && p.workers()[w] == WorkerState::Idle) || exists|
            w: int,
        |
            0 <= w < p.size() && p.workers()[w] == WorkerState::Running,
{
    lemma_count_total(p.workers());
    if p.running() > 0 {
        lemma_count_some(p.workers(), WorkerState::Running);
    } else {
        lemma_count_le(p.workers(), WorkerState::Stopped);
        lemma_count_some(p.workers(), WorkerState::Idle);
        if p.queue().len() == 0 {
            assert(stops_in(p.queue()) == 0);
        }
    }
}

/// The shutdown measure reaches zero exactly when every worker has stopped;
/// since each step of shutdown lowers it, shutdown ends after at most that
/// many steps.
pub proof fn lemma_no_steps_left<J>(p: ThreadPool<J>)
    requires
        p.wf(),
    ensures
        p.pending_steps() == 0 <==> p.all_stopped_spec(),
{
    if p.all_stopped_spec() {
        lemma_stopped_pool_drained(p);
        lemma_count_total(p.workers());
    }
}

} // verus!
