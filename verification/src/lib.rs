//! The task core of a job scheduler.
//!
//! A [`manager::TaskManager`] knows the instances of each application and decides what a request
//! starts: the flow of one task ([`run_task::RunTask`]) or of a list of tasks
//! ([`task_list::TriggerTaskList`]). A flow is a state machine: it names the next
//! [`exchange::Action`], and goes on with the [`exchange::Reply`]. What holds of the manager and of
//! whole flows is stated and proved in [`laws`].

pub mod error;
pub mod exchange;
pub mod group;
pub mod laws;
pub mod manager;
pub mod model;
pub mod run_task;
pub mod shared;
pub mod task_list;
