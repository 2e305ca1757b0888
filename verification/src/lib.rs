//! An in-process task registry.
//!
//! A [`task::Task`] is one unit of work: an id, a free-form description, a
//! priority in the closed range `[1, 5]` and a completion flag.  A
//! [`task_manager::TaskManager`] owns a collection of tasks, assigns ids that
//! are never reused, and presents tasks ordered by priority (highest first,
//! ties broken by ascending id).
//!
//! Every operation is specified as a pure transition on the registry's
//! mathematical model; the `laws` module proves the properties that relate
//! several operations to one another.

pub mod laws;
pub mod task;
pub mod task_manager;
