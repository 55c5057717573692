//! A minimal concurrent request server built around a fixed-size worker
//! pool: jobs are queued on a shared FIFO dispatch queue, a bounded set of
//! workers takes them one at a time, and the pool shuts down by draining
//! every queued job before stopping its workers.
//!
//! The dispatch engine is modelled here as explicit state transitions on
//! plain data: a job is identified by a token, and the pool records which
//! jobs were accepted, handed to a worker, and run to completion.  The
//! embedding that owns the real threads drives these transitions, one per
//! scheduling event, so every queueing and lifecycle decision is verified.
//!
//! The request-line grammar and the response formatting of the server that
//! fronts the pool are verified here as well; socket handling stays with
//! the embedding.

pub mod chars;
pub mod pool;
pub mod queue;
pub mod server;
pub mod single;
pub mod worker;
