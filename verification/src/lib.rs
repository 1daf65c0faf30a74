//! A sharded, in-process key-value cache: a pool of shard workers, each the
//! sole owner of one partition of the keys, behind a supervisor that routes
//! every call to the worker that owns the key or gathers from all of them.
//!
//! This crate is the verified core. A worker is a sequential state machine
//! over commands and replies; the supervisor composes a fixed pool of them.
//! What runs the workers concurrently, and the route function that assigns
//! keys to shards, live outside and hand plain values in.

/// Worker lifecycle states and the status snapshot.
pub mod worker;

/// The cache itself: shard workers and their supervisor.
pub mod cache;
