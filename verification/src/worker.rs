//! One worker of the pool: a stable integer id and the state machine
//! that its execution thread follows.
//!
//! A worker is `Idle` while blocked on the dispatch queue, `Running`
//! while executing the job it dequeued, and `Stopped` once it has
//! observed queue closure with nothing left to take.  The only
//! transitions are Idle to Running (a job was dequeued), Running back
//! to Idle (the job body returned, whether or not it failed inside),
//! and Idle to Stopped (closure observed); a worker never leaves
//! `Stopped`.  The pool's transition functions enforce exactly these
//! steps.

use vstd::prelude::*;

verus! {

use vstd::multiset::Multiset;

/// Where a worker stands in its lifecycle.
#[derive(Clone, Copy, Debug, PartialEq, Eq, Structural)]
pub enum WorkerState {
    /// Blocked on the dispatch queue, waiting for a job or for closure.
    Idle,
    /// Executing the job it dequeued, identified by its token.
    Running { job: u64 },
    /// Closure observed with nothing pending: terminal.
    Stopped,
}

/// One worker: its id is fixed for the pool's lifetime.
#[derive(Clone, Copy, Debug, PartialEq, Eq, Structural)]
pub struct Worker {
    pub id: usize,
    pub state: WorkerState,
}

impl Worker {
    /// A freshly started worker: it begins life blocked on the queue.
    pub fn new(id: usize) -> (w: Worker)
        ensures
            w.id == id,
            w.state is Idle,
    {
        Worker { id, state: WorkerState::Idle }
    }
}

/// The jobs currently being executed, one per `Running` worker, in
/// worker-index order.
pub open spec fn running_jobs(ws: Seq<Worker>) -> Seq<u64>
    decreases ws.len(),
{
    if ws.len() == 0 {
        Seq::<u64>::empty()
    } else {
        let rest = running_jobs(ws.drop_last());
        match ws.last().state {
            WorkerState::Running { job } => rest.push(job),
            _ => rest,
        }
    }
}

/// What one worker contributes to the in-flight job multiset.
pub open spec fn job_contrib(w: Worker) -> Multiset<u64> {
    match w.state {
        WorkerState::Running { job } => Multiset::<u64>::empty().insert(job),
        _ => Multiset::<u64>::empty(),
    }
}

/// Replacing one worker exchanges exactly that worker's contribution
/// to the in-flight jobs: nothing another worker runs is disturbed.
pub proof fn lemma_running_jobs_update(ws: Seq<Worker>, i: int, w: Worker)
    requires
        0 <= i < ws.len(),
    ensures
        running_jobs(ws.update(i, w)).to_multiset().add(job_contrib(ws[i]))
            =~= running_jobs(ws).to_multiset().add(job_contrib(w)),
    decreases ws.len(),
{
    broadcast use vstd::seq_lib::group_to_multiset_ensures;
    broadcast use vstd::multiset::group_multiset_axioms;

    let upd = ws.update(i, w);
    let dl = ws.drop_last();
    if i == ws.len() - 1 {
        assert(upd.drop_last() =~= dl);
        assert(upd.last() == w);
        let m = running_jobs(dl).to_multiset();
        assert(running_jobs(ws).to_multiset() =~= m.add(job_contrib(ws[i])));
        assert(running_jobs(upd).to_multiset() =~= m.add(job_contrib(w)));
        assert(running_jobs(upd).to_multiset().add(job_contrib(ws[i]))
            =~= running_jobs(ws).to_multiset().add(job_contrib(w)));
    } else {
        assert(upd.drop_last() =~= dl.update(i, w));
        assert(upd.last() == ws.last());
        assert(dl[i] == ws[i]);
        lemma_running_jobs_update(dl, i, w);
        let a = running_jobs(dl.update(i, w)).to_multiset();
        let b = running_jobs(dl).to_multiset();
        assert(a.add(job_contrib(ws[i])) =~= b.add(job_contrib(w)));
        assert(running_jobs(upd).to_multiset() =~= a.add(job_contrib(ws.last())));
        assert(running_jobs(ws).to_multiset() =~= b.add(job_contrib(ws.last())));
        assert forall|v: u64| #![auto]
            running_jobs(upd).to_multiset().add(job_contrib(ws[i])).count(v)
                == running_jobs(ws).to_multiset().add(job_contrib(w)).count(v) by {
            assert(running_jobs(upd).to_multiset().count(v)
                == a.count(v) + job_contrib(ws.last()).count(v));
            assert(running_jobs(ws).to_multiset().count(v)
                == b.count(v) + job_contrib(ws.last()).count(v));
            assert(a.add(job_contrib(ws[i])).count(v) == b.add(job_contrib(w)).count(v));
            assert(a.count(v) + job_contrib(ws[i]).count(v)
                == b.count(v) + job_contrib(w).count(v));
        };
        assert(running_jobs(upd).to_multiset().add(job_contrib(ws[i]))
            =~= running_jobs(ws).to_multiset().add(job_contrib(w)));
    }
}

/// One worker's current job as a sequence: the singleton it is
/// running, or empty.
pub open spec fn job_seq(w: Worker) -> Seq<u64> {
    match w.state {
        WorkerState::Running { job } => seq![job],
        _ => Seq::<u64>::empty(),
    }
}

/// A worker that begins running `job` adds exactly that job to the
/// in-flight multiset.
pub proof fn lemma_running_jobs_start(ws: Seq<Worker>, i: int, w: Worker, job: u64)
    requires
        0 <= i < ws.len(),
        !(ws[i].state is Running),
        w.state == (WorkerState::Running { job }),
    ensures
        running_jobs(ws.update(i, w)).to_multiset()
            =~= running_jobs(ws).to_multiset().insert(job),
{
    broadcast use vstd::multiset::group_multiset_axioms;

    lemma_running_jobs_update(ws, i, w);
    let a = running_jobs(ws.update(i, w)).to_multiset();
    let b = running_jobs(ws).to_multiset();
    assert forall|v: u64| #![auto] a.count(v) == b.insert(job).count(v) by {
        assert(a.add(job_contrib(ws[i])).count(v) == b.add(job_contrib(w)).count(v));
    };
}

/// A worker whose job body returned removes exactly that job from the
/// in-flight multiset.
pub proof fn lemma_running_jobs_stop(ws: Seq<Worker>, i: int, w: Worker, job: u64)
    requires
        0 <= i < ws.len(),
        ws[i].state == (WorkerState::Running { job }),
        !(w.state is Running),
    ensures
        running_jobs(ws).to_multiset()
            =~= running_jobs(ws.update(i, w)).to_multiset().insert(job),
{
    broadcast use vstd::multiset::group_multiset_axioms;

    lemma_running_jobs_update(ws, i, w);
    let a = running_jobs(ws.update(i, w)).to_multiset();
    let b = running_jobs(ws).to_multiset();
    assert forall|v: u64| #![auto] b.count(v) == a.insert(job).count(v) by {
        assert(a.add(job_contrib(ws[i])).count(v) == b.add(job_contrib(w)).count(v));
    };
}

/// Replacing one non-running worker by another leaves the in-flight
/// jobs untouched.
pub proof fn lemma_running_jobs_same(ws: Seq<Worker>, i: int, w: Worker)
    requires
        0 <= i < ws.len(),
        !(ws[i].state is Running),
        !(w.state is Running),
    ensures
        running_jobs(ws.update(i, w)).to_multiset() =~= running_jobs(ws).to_multiset(),
{
    broadcast use vstd::multiset::group_multiset_axioms;

    lemma_running_jobs_update(ws, i, w);
    let a = running_jobs(ws.update(i, w)).to_multiset();
    let b = running_jobs(ws).to_multiset();
    assert forall|v: u64| #![auto] a.count(v) == b.count(v) by {
        assert(a.add(job_contrib(ws[i])).count(v) == b.add(job_contrib(w)).count(v));
    };
}

/// A pool with no running worker has no in-flight job.
pub proof fn lemma_running_jobs_none(ws: Seq<Worker>)
    requires
        forall|i: int| 0 <= i < ws.len() ==> !((#[trigger] ws[i]).state is Running),
    ensures
        running_jobs(ws) == Seq::<u64>::empty(),
    decreases ws.len(),
{
    if ws.len() > 0 {
        assert(ws.last() == ws[ws.len() - 1]);
        lemma_running_jobs_none(ws.drop_last());
    }
}

/// Growing the worker sequence by a prefix step: the in-flight jobs of
/// the longer prefix are those of the shorter one plus what the added
/// worker runs.
pub proof fn lemma_running_jobs_prefix(ws: Seq<Worker>, i: int)
    requires
        0 <= i < ws.len(),
    ensures
        running_jobs(ws.subrange(0, i + 1)) == (match ws[i].state {
            WorkerState::Running { job } => running_jobs(ws.subrange(0, i)).push(job),
            _ => running_jobs(ws.subrange(0, i)),
        }),
{
    let long = ws.subrange(0, i + 1);
    assert(long.drop_last() =~= ws.subrange(0, i));
    assert(long.last() == ws[i]);
}

} // verus!
