//! A one-shot batch scheduler: a fixed pool of workers computes a batch of
//! independent tasks, and the results come back in ascending order of the
//! tasks' ids, all together, once every task is done.
//!
//! An [`orchestrator::Orchestrator`] is made with the whole batch. It hands
//! tasks to idle workers over one channel, collects their results from
//! another, keeps count of the idle workers, and when the backlog is empty
//! and every worker is idle it tells the workers to stop, has them joined,
//! and sorts the results. A [`worker::Worker`] decides what a worker thread
//! does with each message it receives.
//!
//! The library starts no thread. The caller starts one thread for each
//! worker on the channel ends that come with the orchestrator, and hands
//! `run` the means to join them.
//!
//! What the orchestrator keeps account of is described in [`model`] as a
//! state machine, together with what holds of every state that a run can
//! reach. [`batch`] numbers tasks, runs a batch without a pool, and says what
//! makes a sequence of results the answer to a batch.

pub mod batch;
pub mod channel;
pub mod model;
pub mod orchestrator;
pub mod sorting;
pub mod task;
pub mod worker;
