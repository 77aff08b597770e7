//! A verified scheduler for task workflows.
//!
//! A [`workflow::Workflow`] is a set of tasks with dependencies. Running it is a
//! state machine, [`run::Run`]: it says which outside action is due, and is told
//! what came of it. The library decides; the program around it spawns processes,
//! reads the clock and writes files.
//!
//! [`model`] says how a run goes, [`reachable`] what holds of it at every moment,
//! [`history`] what becomes of the statuses that it began with, and [`laws`] what
//! follows for every workflow. [`declared`] ties what a run asks for to what the tasks
//! declare, [`answers`] what it is told to what becomes of the tasks, [`timing`] timeouts
//! and periodic hooks to the times of the events, and [`rounds`] says that no round leaves
//! anything undone.

pub mod answers;
pub mod dag;
pub mod declared;
pub mod error;
pub mod history;
pub mod laws;
pub mod lists;
pub mod model;
pub mod monitoring;
pub mod path;
pub mod process;
pub mod protocol;
pub mod reachable;
pub mod remains;
pub mod rounds;
pub mod run;
pub mod skips;
pub mod state;
pub mod summary;
pub mod sweep;
pub mod task;
pub mod text;
pub mod timing;
pub mod workflow;
