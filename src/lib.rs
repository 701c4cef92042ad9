//! Decisions of a process-limit probe: read the target count, drive the spawn
//! loop one attempt at a time, and reap every child that was spawned.
pub mod cleanup;
pub mod config;
pub mod spawn;
