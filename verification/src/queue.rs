//! The dispatch queue: an ordered multi-producer, multi-consumer channel
//! of jobs with a close/drain signal.
//!
//! Jobs are identified by tokens; delivery is FIFO across all
//! submissions.  `send` succeeds exactly while the queue is open,
//! `close` stops further sends but keeps the already queued jobs, and
//! `recv` hands out the front job, reports that an open queue is empty
//! (the caller blocks and retries), or reports end-of-stream once the
//! queue is closed and drained.

use vstd::prelude::*;

verus! {

/// Error returned by `send` once the queue has been closed.
#[derive(Clone, Copy, Debug, PartialEq, Eq, Structural)]
pub struct QueueClosed;

/// What one `recv` call observed.
#[derive(Clone, Copy, Debug, PartialEq, Eq, Structural)]
pub enum RecvOutcome {
    /// The front job was delivered to this consumer alone.
    Job { job: u64 },
    /// The queue is open but momentarily empty: block and retry.
    Empty,
    /// The queue is closed and fully drained: end of stream.
    Disconnected,
}

/// A FIFO channel of job tokens with an open/closed flag.
pub struct DispatchQueue {
    jobs: Vec<u64>,
    open: bool,
}

impl DispatchQueue {
    /// The queued jobs in delivery order; index 0 is delivered next.
    pub closed spec fn pending(&self) -> Seq<u64> {
        self.jobs@
    }

    /// Whether the queue still accepts submissions.
    pub closed spec fn is_open(&self) -> bool {
        self.open
    }

    /// A fresh queue: open and empty.
    pub fn new() -> (q: DispatchQueue)
        ensures
            q.pending() == Seq::<u64>::empty(),
            q.is_open(),
    {
        DispatchQueue { jobs: Vec::new(), open: true }
    }

    /// How many jobs are queued right now.
    pub fn pending_len(&self) -> (n: usize)
        ensures
            n as int == self.pending().len(),
    {
        self.jobs.len()
    }

    /// Enqueue a job at the back.  Succeeds exactly while the queue is
    /// open; a closed queue rejects the job and is left unchanged.
    pub fn send(&mut self, job: u64) -> (r: Result<(), QueueClosed>)
        ensures
            old(self).is_open() ==> {
                &&& r is Ok
                &&& final(self).pending() == old(self).pending().push(job)
                &&& final(self).is_open()
            },
            !old(self).is_open() ==> r is Err && *final(self) == *old(self),
    {
        if self.open {
            self.jobs.push(job);
            Ok(())
        } else {
            Err(QueueClosed)
        }
    }

    /// Close the submission side.  Already queued jobs stay and can
    /// still be drained by consumers.
    pub fn close(&mut self)
        ensures
            !final(self).is_open(),
            final(self).pending() == old(self).pending(),
    {
        self.open = false;
    }

    /// Take the front job if there is one; otherwise report whether the
    /// caller should keep waiting (`Empty`) or stop (`Disconnected`).
    pub fn recv(&mut self) -> (r: RecvOutcome)
        ensures
            old(self).pending().len() > 0 ==> {
                &&& r == (RecvOutcome::Job { job: old(self).pending()[0] })
                &&& final(self).pending() == old(self).pending().drop_first()
                &&& final(self).is_open() == old(self).is_open()
            },
            old(self).pending().len() == 0 && old(self).is_open() ==> {
                &&& r == RecvOutcome::Empty
                &&& *final(self) == *old(self)
            },
            old(self).pending().len() == 0 && !old(self).is_open() ==> {
                &&& r == RecvOutcome::Disconnected
                &&& *final(self) == *old(self)
            },
    {
        if self.jobs.len() > 0 {
            let job = self.jobs.remove(0);
            proof {
                assert(old(self).pending().remove(0) =~= old(self).pending().drop_first());
            }
            RecvOutcome::Job { job }
        } else if self.open {
            RecvOutcome::Empty
        } else {
            RecvOutcome::Disconnected
        }
    }
}

} // verus!
