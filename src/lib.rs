//! A client for running shell commands on remote workers through a job queue
//! broker: job bodies and their encoding, the coordinator that tracks a run's
//! jobs from ack to result, the cleanup of an aborted run, and result inbox
//! names.
pub mod cleanup;
pub mod inbox;
pub mod job;
pub mod queues;
pub mod run;
