//! A fixed-size worker pool, stated as a verified dispatch state machine.
//!
//! The pool keeps one FIFO queue of jobs and a fixed set of workers. Jobs are
//! opaque values of a type `J` that the pool moves and never inspects. Every
//! decision the pool takes (which job a claimant receives, when a worker
//! terminates, when a worker may be joined, when teardown is over) is a
//! method with a contract; blocking and running the jobs is left to the
//! caller.
pub mod laws;
pub mod model;
pub mod pool;
pub mod queue;
pub mod worker;
