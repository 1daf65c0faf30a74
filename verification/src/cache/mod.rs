//! The cache: a pool of shard workers behind one supervisor.

/// What a call into the cache can fail with.
pub mod error;

/// What holds of the cache over any sequence of calls.
pub mod laws;

/// The pool of workers as contracts see it.
pub mod pool;

/// From the route function's answer to a worker's index.
pub mod route;

/// The keyed store that a shard worker owns.
pub mod store;

/// The shard worker: its commands, its replies and its state machine.
pub mod worker;

/// The supervisor: routing, the pool of workers, and the calls over all of them.
pub mod supervisor;
