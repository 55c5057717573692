//! The thread pool: a fixed set of workers bound to one shared dispatch
//! queue, with orderly shutdown that drains every queued job.
//!
//! The pool is modelled as an explicit transition system over plain
//! data.  A job is identified by a token chosen by the submitter; the
//! embedding that owns the real threads maps each token to the closure
//! it stands for and drives one transition per scheduling event:
//! `execute` when a caller submits, `worker_poll` when a worker thread
//! asks the queue for work, `worker_finish` when a job body returns
//! (also when it failed inside), and `shutdown` when the owner lets the
//! pool go.  Three ghost histories record the accepted, handed-off and
//! completed jobs, and the pool invariant ties them to the queue and
//! the worker states: every accepted job is in exactly one place, and
//! hand-off order is submission order (FIFO).

use vstd::prelude::*;

verus! {

use vstd::multiset::Multiset;
use crate::queue::DispatchQueue;
use crate::queue::QueueClosed;
use crate::queue::RecvOutcome;
use crate::worker::Worker;
use crate::worker::WorkerState;
use crate::worker::running_jobs;
use crate::worker::job_seq;
use crate::worker::lemma_running_jobs_start;
use crate::worker::lemma_running_jobs_stop;
use crate::worker::lemma_running_jobs_same;
use crate::worker::lemma_running_jobs_none;
use crate::worker::lemma_running_jobs_prefix;

broadcast use
    vstd::seq_lib::group_to_multiset_ensures,
    vstd::multiset::group_multiset_axioms,
    vstd::multiset::lemma_multiset_empty_len;

/// Error returned by `new` when a worker thread could not be created.
#[derive(Clone, Copy, Debug, PartialEq, Eq, Structural)]
pub struct SpawnError;

/// What one `worker_poll` transition did.
#[derive(Clone, Copy, Debug, PartialEq, Eq, Structural)]
pub enum PollOutcome {
    /// The front job was handed to this worker; it is now running it.
    Started { job: u64 },
    /// The queue is open but empty: the worker keeps waiting.
    WouldBlock,
    /// Closure observed with nothing left: the worker stopped.
    Halted,
}

/// A fixed-size worker pool around one FIFO dispatch queue.
pub struct ThreadPool {
    queue: DispatchQueue,
    workers: Vec<Worker>,
    submitted: Ghost<Seq<u64>>,
    taken: Ghost<Seq<u64>>,
    executed: Ghost<Seq<u64>>,
}

impl ThreadPool {
    /// Jobs accepted by `execute`, in submission order.
    pub closed spec fn submitted(&self) -> Seq<u64> {
        self.submitted@
    }

    /// Jobs run to completion, in completion order.
    pub closed spec fn executed(&self) -> Seq<u64> {
        self.executed@
    }

    /// Jobs accepted but not yet handed to a worker, in delivery order.
    pub closed spec fn pending(&self) -> Seq<u64> {
        self.queue.pending()
    }

    /// Whether the pool still accepts submissions.
    pub closed spec fn accepting(&self) -> bool {
        self.queue.is_open()
    }

    /// The fixed number of workers.
    pub closed spec fn worker_count(&self) -> int {
        self.workers@.len() as int
    }

    /// The state of worker `i`.
    pub closed spec fn worker_state(&self, i: int) -> WorkerState {
        self.workers@[i].state
    }

    /// The jobs the workers are executing right now, in worker order.
    pub closed spec fn in_flight(&self) -> Seq<u64> {
        running_jobs(self.workers@)
    }

    /// The pool after a completed shutdown: closed, drained, and every
    /// worker stopped, so no worker thread outlives the pool.
    pub open spec fn is_shut_down(&self) -> bool {
        &&& !self.accepting()
        &&& self.pending().len() == 0
        &&& forall|i: int| 0 <= i < self.worker_count() ==> self.worker_state(i) is Stopped
    }

    /// The pool invariant.  Conservation: the accepted jobs are, in
    /// order, the handed-off ones followed by the queued ones (FIFO
    /// hand-off), and the handed-off jobs are the completed ones plus
    /// those running right now.  A stopped worker exists only once the
    /// queue is closed and drained, and with a single worker hand-off
    /// order is completion order.
    pub closed spec fn wf(&self) -> bool {
        &&& self.submitted@ == self.taken@ + self.queue.pending()
        &&& self.taken@.to_multiset() == self.executed@.to_multiset().add(
            running_jobs(self.workers@).to_multiset(),
        )
        &&& self.workers@.len() >= 1
        &&& forall|i: int| 0 <= i < self.workers@.len()
            ==> (#[trigger] self.workers@[i]).id == i
        &&& forall|i: int| 0 <= i < self.workers@.len()
            ==> ((#[trigger] self.workers@[i]).state is Stopped
                ==> !self.queue.is_open() && self.queue.pending().len() == 0)
        &&& (self.workers@.len() == 1
            ==> self.taken@ == self.executed@ + job_seq(self.workers@[0]))
    }

    /// Create a pool of `size` workers, all idle on a fresh open queue.
    ///
    /// `spawn_ok[i]` reports whether the underlying thread of worker
    /// `i` could be created; on the first failure the already spawned
    /// workers are stopped and released, and the error is returned, so
    /// a failed construction leaks nothing.  A pool of size zero is a
    /// contract violation, not a recoverable error.
    pub fn new(size: usize, spawn_ok: &Vec<bool>) -> (r: Result<ThreadPool, SpawnError>)
        requires
            size >= 1,
            spawn_ok@.len() == size as int,
        ensures
            (r is Ok) == (forall|i: int| 0 <= i < size as int ==> spawn_ok@[i]),
            r matches Ok(pool) ==> {
                &&& pool.wf()
                &&& pool.worker_count() == size as int
                &&& forall|i: int| 0 <= i < size as int ==> pool.worker_state(i) is Idle
                &&& pool.accepting()
                &&& pool.pending() == Seq::<u64>::empty()
                &&& pool.submitted() == Seq::<u64>::empty()
                &&& pool.executed() == Seq::<u64>::empty()
            },
    {
        let mut workers: Vec<Worker> = Vec::new();
        let mut i: usize = 0;
        while i < size
            invariant
                i <= size,
                size as int == spawn_ok@.len(),
                workers@.len() == i as int,
                forall|k: int| 0 <= k < i as int ==> (#[trigger] workers@[k]).id == k,
                forall|k: int| 0 <= k < i as int ==> (#[trigger] workers@[k]).state is Idle,
                forall|k: int| 0 <= k < i as int ==> spawn_ok@[k],
            decreases size - i,
        {
            if !spawn_ok[i] {
                // The workers spawned so far are dropped here, which
                // stops them before the error reaches the caller.
                return Err(SpawnError);
            }
            workers.push(Worker::new(i));
            i += 1;
        }
        let pool = ThreadPool {
            queue: DispatchQueue::new(),
            workers,
            submitted: Ghost(Seq::empty()),
            taken: Ghost(Seq::empty()),
            executed: Ghost(Seq::empty()),
        };
        proof {
            lemma_running_jobs_none(pool.workers@);
            assert(Seq::<u64>::empty().to_multiset() =~= Multiset::<u64>::empty());
            assert(pool.taken@.to_multiset() =~= pool.executed@.to_multiset().add(
                running_jobs(pool.workers@).to_multiset(),
            ));
            assert(pool.submitted@ =~= pool.taken@ + pool.queue.pending());
            assert(pool.taken@ =~= pool.executed@ + job_seq(pool.workers@[0]));
        }
        Ok(pool)
    }

    /// Submit a job.  While the pool accepts, the job is appended to
    /// the queue and the call returns at once: submission never blocks
    /// beyond the hand-off and no accepted job is dropped.  After
    /// shutdown has begun the job is refused unchanged.
    pub fn execute(&mut self, job: u64) -> (r: Result<(), QueueClosed>)
        requires
            old(self).wf(),
        ensures
            final(self).wf(),
            old(self).accepting() ==> {
                &&& r is Ok
                &&& final(self).submitted() == old(self).submitted().push(job)
                &&& final(self).pending() == old(self).pending().push(job)
                &&& final(self).accepting()
            },
            !old(self).accepting() ==> {
                &&& r is Err
                &&& final(self).submitted() == old(self).submitted()
                &&& final(self).pending() == old(self).pending()
                &&& !final(self).accepting()
            },
            final(self).executed() == old(self).executed(),
            final(self).worker_count() == old(self).worker_count(),
            forall|i: int| 0 <= i < old(self).worker_count()
                ==> final(self).worker_state(i) == old(self).worker_state(i),
    {
        let r = self.queue.send(job);
        if r.is_ok() {
            proof {
                self.submitted@ = self.submitted@.push(job);
                assert(self.submitted@ =~= self.taken@ + self.queue.pending());
            }
            Ok(())
        } else {
            Err(QueueClosed)
        }
    }

    /// One worker asks the queue for work: the Idle-to-Running and
    /// Idle-to-Stopped transitions of the worker state machine.  The
    /// front job, if any, is delivered to this worker alone; an open
    /// empty queue leaves the worker waiting; a closed drained queue
    /// stops it.
    pub fn worker_poll(&mut self, w: usize) -> (r: PollOutcome)
        requires
            old(self).wf(),
            0 <= w < old(self).worker_count(),
            old(self).worker_state(w as int) is Idle,
        ensures
            final(self).wf(),
            old(self).pending().len() > 0 ==> {
                &&& r == (PollOutcome::Started { job: old(self).pending()[0] })
                &&& final(self).worker_state(w as int)
                    == (WorkerState::Running { job: old(self).pending()[0] })
                &&& final(self).pending() == old(self).pending().drop_first()
            },
            old(self).pending().len() == 0 && old(self).accepting() ==> {
                &&& r == PollOutcome::WouldBlock
                &&& final(self).worker_state(w as int) is Idle
                &&& final(self).pending() == old(self).pending()
            },
            old(self).pending().len() == 0 && !old(self).accepting() ==> {
                &&& r == PollOutcome::Halted
                &&& final(self).worker_state(w as int) is Stopped
                &&& final(self).pending() == old(self).pending()
            },
            final(self).accepting() == old(self).accepting(),
            final(self).submitted() == old(self).submitted(),
            final(self).executed() == old(self).executed(),
            final(self).worker_count() == old(self).worker_count(),
            forall|i: int| 0 <= i < old(self).worker_count() && i != w as int
                ==> final(self).worker_state(i) == old(self).worker_state(i),
    {
        match self.queue.recv() {
            RecvOutcome::Job { job } => {
                let ghost ws0 = self.workers@;
                self.workers[w] = (Worker { id: w, state: WorkerState::Running { job } });
                proof {
                    let ghost t0 = self.taken@;
                    self.taken@ = self.taken@.push(job);
                    lemma_running_jobs_start(
                        ws0,
                        w as int,
                        Worker { id: w, state: WorkerState::Running { job } },
                        job,
                    );
                    assert(self.submitted@ =~= self.taken@ + self.queue.pending());
                    assert forall|v: u64| #![auto]
                        self.taken@.to_multiset().count(v)
                            == self.executed@.to_multiset().add(
                            running_jobs(self.workers@).to_multiset(),
                        ).count(v) by {
                        assert(self.taken@.to_multiset() =~= t0.to_multiset().insert(job));
                        assert(running_jobs(self.workers@).to_multiset()
                            =~= running_jobs(ws0).to_multiset().insert(job));
                    };
                    assert(self.taken@.to_multiset() =~= self.executed@.to_multiset().add(
                        running_jobs(self.workers@).to_multiset(),
                    ));
                    if self.workers@.len() == 1 {
                        assert(job_seq(ws0[0]) =~= Seq::<u64>::empty());
                        assert(job_seq(self.workers@[0]) =~= seq![job]);
                        assert(self.taken@ =~= self.executed@ + job_seq(self.workers@[0]));
                    }
                }
                PollOutcome::Started { job }
            }
            RecvOutcome::Empty => PollOutcome::WouldBlock,
            RecvOutcome::Disconnected => {
                let ghost ws0 = self.workers@;
                self.workers[w] = (Worker { id: w, state: WorkerState::Stopped });
                proof {
                    lemma_running_jobs_same(
                        ws0,
                        w as int,
                        Worker { id: w, state: WorkerState::Stopped },
                    );
                    assert(self.taken@.to_multiset() =~= self.executed@.to_multiset().add(
                        running_jobs(self.workers@).to_multiset(),
                    ));
                    if self.workers@.len() == 1 {
                        assert(job_seq(ws0[0]) =~= job_seq(self.workers@[0]));
                    }
                }
                PollOutcome::Halted
            }
        }
    }

    /// The running job of worker `w`, meaningful while it is `Running`.
    pub open spec fn current_job(&self, w: int) -> u64 {
        match self.worker_state(w) {
            WorkerState::Running { job } => job,
            _ => arbitrary(),
        }
    }

    /// The job body of worker `w` returned: the Running-to-Idle
    /// transition.  The job counts as run to completion whether or not
    /// it failed inside — a failure is confined to this one job, the
    /// worker goes back to waiting either way, and nothing else in the
    /// pool is touched, so later jobs are undisturbed.
    pub fn worker_finish(&mut self, w: usize, failed: bool)
        requires
            old(self).wf(),
            0 <= w < old(self).worker_count(),
            old(self).worker_state(w as int) is Running,
        ensures
            final(self).wf(),
            final(self).worker_state(w as int) is Idle,
            final(self).executed() == old(self).executed().push(old(self).current_job(w as int)),
            final(self).submitted() == old(self).submitted(),
            final(self).pending() == old(self).pending(),
            final(self).accepting() == old(self).accepting(),
            final(self).worker_count() == old(self).worker_count(),
            forall|i: int| 0 <= i < old(self).worker_count() && i != w as int
                ==> final(self).worker_state(i) == old(self).worker_state(i),
    {
        let ghost ws0 = self.workers@;
        let ghost job = self.current_job(w as int);
        let ghost e0 = self.executed@;
        self.workers[w] = (Worker { id: w, state: WorkerState::Idle });
        proof {
            self.executed@ = self.executed@.push(job);
            lemma_running_jobs_stop(
                ws0,
                w as int,
                Worker { id: w, state: WorkerState::Idle },
                job,
            );
            assert forall|v: u64| #![auto]
                self.taken@.to_multiset().count(v) == self.executed@.to_multiset().add(
                    running_jobs(self.workers@).to_multiset(),
                ).count(v) by {
                assert(running_jobs(ws0).to_multiset()
                    =~= running_jobs(self.workers@).to_multiset().insert(job));
                assert(self.executed@.to_multiset() =~= e0.to_multiset().insert(job));
            };
            assert(self.taken@.to_multiset() =~= self.executed@.to_multiset().add(
                running_jobs(self.workers@).to_multiset(),
            ));
            if self.workers@.len() == 1 {
                assert(job_seq(ws0[0]) =~= seq![job]);
                assert(job_seq(self.workers@[0]) =~= Seq::<u64>::empty());
                assert(self.executed@ =~= e0 + seq![job]);
                assert(self.taken@ =~= self.executed@ + job_seq(self.workers@[0]));
            }
        }
    }

    /// No accepted job is lost and none runs twice: in any well-formed
    /// pool that has shut down, the completed jobs are exactly the
    /// accepted ones, however the workers interleaved.
    pub proof fn lemma_every_job_runs_exactly_once(&self)
        requires
            self.wf(),
            self.is_shut_down(),
        ensures
            self.executed().to_multiset() == self.submitted().to_multiset(),
    {
        assert forall|i: int| 0 <= i < self.workers@.len()
            implies !((#[trigger] self.workers@[i]).state is Running) by {
            assert(self.worker_state(i) is Stopped);
        };
        lemma_running_jobs_none(self.workers@);
        assert(Seq::<u64>::empty().to_multiset() =~= Multiset::<u64>::empty());
        assert(self.submitted@ =~= self.taken@);
        assert(self.taken@.to_multiset() =~= self.executed@.to_multiset());
    }

    /// With a single worker there is no interleaving: once such a pool
    /// has shut down, the jobs ran in exactly the order they were
    /// submitted.
    pub proof fn lemma_single_worker_keeps_order(&self)
        requires
            self.wf(),
            self.is_shut_down(),
            self.worker_count() == 1,
        ensures
            self.executed() == self.submitted(),
    {
        assert(self.worker_state(0) is Stopped);
        assert(job_seq(self.workers@[0]) =~= Seq::<u64>::empty());
        assert(self.taken@ =~= self.executed@);
        assert(self.submitted@ =~= self.executed@);
    }

    /// Begin shutdown: close the submission side, so no further
    /// submission succeeds.  Queued and running jobs are untouched;
    /// the workers still drain them and then stop, one `worker_poll`
    /// at a time, which is how an embedding with real threads lets
    /// each worker run down on its own.
    pub fn close(&mut self)
        requires
            old(self).wf(),
        ensures
            final(self).wf(),
            !final(self).accepting(),
            final(self).pending() == old(self).pending(),
            final(self).submitted() == old(self).submitted(),
            final(self).executed() == old(self).executed(),
            final(self).worker_count() == old(self).worker_count(),
            forall|i: int| 0 <= i < old(self).worker_count()
                ==> final(self).worker_state(i) == old(self).worker_state(i),
    {
        self.queue.close();
    }

    /// Orderly shutdown: close the queue so no further submission
    /// succeeds, let every worker finish the job it is executing, run
    /// every job still queued (drain to completion: a job accepted
    /// before shutdown is never silently lost), and stop every worker.
    /// Calling it on an already shut-down pool changes nothing and
    /// returns at once.
    pub fn shutdown(&mut self)
        requires
            old(self).wf(),
        ensures
            final(self).wf(),
            final(self).is_shut_down(),
            final(self).worker_count() == old(self).worker_count(),
            final(self).submitted() == old(self).submitted(),
            final(self).executed() == old(self).executed() + old(self).in_flight()
                + old(self).pending(),
            final(self).executed().to_multiset() == old(self).submitted().to_multiset(),
            old(self).worker_count() == 1 ==> final(self).executed() == old(self).submitted(),
            old(self).is_shut_down() ==> final(self).executed() == old(self).executed(),
    {
        self.queue.close();
        let ghost ws0 = self.workers@;
        let ghost exec0 = self.executed@;

        // Wait for each worker to finish its in-flight job.
        let worker_total: usize = self.workers.len();
        let mut w: usize = 0;
        while w < worker_total
            invariant
                self.wf(),
                0 <= w <= worker_total,
                worker_total == self.workers@.len(),
                !self.queue.is_open(),
                self.queue.pending() == old(self).pending(),
                self.submitted@ == old(self).submitted(),
                self.workers@.len() == ws0.len(),
                forall|k: int| w as int <= k < ws0.len()
                    ==> #[trigger] self.workers@[k] == ws0[k],
                forall|k: int| 0 <= k < w as int
                    ==> !((#[trigger] self.workers@[k]).state is Running),
                forall|k: int| 0 <= k < w as int
                    ==> ((#[trigger] self.workers@[k]).state is Stopped) == (ws0[k].state
                        is Stopped),
                self.executed@ == exec0 + running_jobs(ws0.subrange(0, w as int)),
            decreases worker_total - w,
        {
            proof {
                lemma_running_jobs_prefix(ws0, w as int);
            }
            let is_running = match self.workers[w].state {
                WorkerState::Running { .. } => true,
                _ => false,
            };
            if is_running {
                let ghost before = *self;
                self.worker_finish(w, false);
                proof {
                    assert(before.current_job(w as int) == (match ws0[w as int].state {
                        WorkerState::Running { job } => job,
                        _ => arbitrary(),
                    }));
                    assert(self.executed@ =~= exec0 + running_jobs(
                        ws0.subrange(0, w as int + 1),
                    ));
                    assert forall|k: int| w as int + 1 <= k < ws0.len()
                        implies #[trigger] self.workers@[k] == ws0[k] by {
                        assert(self.worker_state(k) == before.worker_state(k));
                        assert(self.workers@[k].id == k);
                        assert(ws0[k].id == k);
                    };
                    assert forall|k: int| 0 <= k < w as int
                        implies !((#[trigger] self.workers@[k]).state is Running)
                            && ((self.workers@[k]).state is Stopped) == (ws0[k].state
                            is Stopped) by {
                        assert(self.worker_state(k) == before.worker_state(k));
                    };
                    assert(self.worker_state(w as int) is Idle);
                    assert(!(ws0[w as int].state is Stopped));
                }
            } else {
                proof {
                    assert(self.executed@ =~= exec0 + running_jobs(
                        ws0.subrange(0, w as int + 1),
                    ));
                }
            }
            w += 1;
        }
        proof {
            assert(ws0.subrange(0, ws0.len() as int) =~= ws0);
            assert(self.executed@ =~= exec0 + running_jobs(ws0));
        }

        // Drain the jobs still queued, in FIFO order, each running to
        // completion before the queue reports closure.
        let ghost exec1 = self.executed@;
        let ghost pend1 = self.queue.pending();
        let pend_total: usize = self.queue.pending_len();
        let mut drained: usize = 0;
        while self.queue.pending_len() > 0
            invariant
                self.wf(),
                !self.queue.is_open(),
                self.workers@.len() == ws0.len(),
                self.submitted@ == old(self).submitted(),
                forall|k: int| 0 <= k < ws0.len()
                    ==> !((#[trigger] self.workers@[k]).state is Running),
                forall|k: int| 0 <= k < ws0.len()
                    ==> ((#[trigger] self.workers@[k]).state is Stopped) == (ws0[k].state
                        is Stopped),
                pend_total as int == pend1.len(),
                drained <= pend_total,
                self.executed@ == exec1 + pend1.subrange(0, drained as int),
                self.queue.pending() == pend1.skip(drained as int),
            decreases pend1.len() - drained as int,
        {
            let ghost pend_now = self.queue.pending();
            match self.queue.recv() {
                RecvOutcome::Job { job } => {
                    proof {
                        // The drained job leaves the queue and runs to
                        // completion before closure is reported.
                        let ghost e0 = self.executed@;
                        let ghost t0 = self.taken@;
                        self.executed@ = self.executed@.push(job);
                        self.taken@ = self.taken@.push(job);
                        assert(pend_now[0] == pend1[drained as int]);
                        assert(self.executed@ =~= exec1 + pend1.subrange(
                            0,
                            drained as int + 1,
                        ));
                        assert(self.queue.pending() =~= pend1.skip(drained as int + 1));
                        lemma_running_jobs_none(self.workers@);
                        assert(running_jobs(self.workers@) == Seq::<u64>::empty());
                        assert(pend_now =~= seq![job] + self.queue.pending());
                        assert(t0 + pend_now =~= self.taken@ + self.queue.pending());
                        assert(self.submitted@ =~= self.taken@ + self.queue.pending());
                        assert(Seq::<u64>::empty().to_multiset() =~= Multiset::<u64>::empty());
                        assert forall|v: u64| #![auto]
                            self.taken@.to_multiset().count(v)
                                == self.executed@.to_multiset().add(
                                running_jobs(self.workers@).to_multiset(),
                            ).count(v) by {
                            assert(self.taken@.to_multiset() =~= t0.to_multiset().insert(job));
                            assert(self.executed@.to_multiset()
                                =~= e0.to_multiset().insert(job));
                        };
                        assert(self.taken@.to_multiset() =~= self.executed@.to_multiset().add(
                            running_jobs(self.workers@).to_multiset(),
                        ));
                        if self.workers@.len() == 1 {
                            assert(job_seq(self.workers@[0]) =~= Seq::<u64>::empty());
                            assert(self.taken@ =~= self.executed@ + job_seq(self.workers@[0]));
                        }
                    }
                    drained += 1;
                }
                RecvOutcome::Empty => {
                    // Unreachable: the queue was closed above.
                }
                RecvOutcome::Disconnected => {
                    // Unreachable: the loop condition saw a queued job.
                }
            }
        }
        proof {
            assert(self.queue.pending().len() == 0);
            assert(drained as int == pend1.len());
            assert(pend1.subrange(0, drained as int) =~= pend1);
            assert(self.executed@ =~= exec1 + pend1);
        }

        // Every worker now observes closure and stops.
        let ghost ws1 = self.workers@;
        let mut w: usize = 0;
        while w < worker_total
            invariant
                self.wf(),
                0 <= w <= worker_total,
                worker_total == self.workers@.len(),
                !self.queue.is_open(),
                self.queue.pending().len() == 0,
                self.submitted@ == old(self).submitted(),
                self.executed@ == exec1 + pend1,
                self.workers@.len() == ws1.len(),
                forall|k: int| w as int <= k < ws1.len()
                    ==> #[trigger] self.workers@[k] == ws1[k],
                forall|k: int| 0 <= k < ws1.len()
                    ==> !((#[trigger] self.workers@[k]).state is Running),
                forall|k: int| 0 <= k < w as int
                    ==> (#[trigger] self.workers@[k]).state is Stopped,
            decreases worker_total - w,
        {
            let ghost wsb = self.workers@;
            self.workers[w] = (Worker { id: w, state: WorkerState::Stopped });
            proof {
                lemma_running_jobs_same(
                    wsb,
                    w as int,
                    Worker { id: w, state: WorkerState::Stopped },
                );
                assert(self.taken@.to_multiset() =~= self.executed@.to_multiset().add(
                    running_jobs(self.workers@).to_multiset(),
                ));
                if self.workers@.len() == 1 {
                    assert(job_seq(wsb[0]) =~= job_seq(self.workers@[0]));
                    assert(self.taken@ =~= self.executed@ + job_seq(self.workers@[0]));
                }
            }
            w += 1;
        }

        proof {
            // Completion history: everything accepted has now run.
            assert(self.executed@ =~= exec0 + running_jobs(ws0) + pend1);
            lemma_running_jobs_none(self.workers@);
            assert(running_jobs(self.workers@) == Seq::<u64>::empty());
            assert(Seq::<u64>::empty().to_multiset() =~= Multiset::<u64>::empty());
            assert(self.taken@.to_multiset() =~= self.executed@.to_multiset());
            assert(self.submitted@ =~= self.taken@);
            assert(self.executed@.to_multiset() =~= old(self).submitted().to_multiset());
            if old(self).is_shut_down() {
                assert forall|i: int| 0 <= i < ws0.len()
                    implies !((#[trigger] ws0[i]).state is Running) by {
                    assert(old(self).worker_state(i) is Stopped);
                };
                lemma_running_jobs_none(ws0);
                assert(pend1 =~= Seq::<u64>::empty());
                assert(self.executed@ =~= exec0);
            }
            if old(self).worker_count() == 1 {
                assert(job_seq(self.workers@[0]) =~= Seq::<u64>::empty());
                assert(self.taken@ =~= self.executed@ + Seq::<u64>::empty());
                assert(self.executed@ =~= old(self).submitted());
            }
        }
    }
}

} // verus!
