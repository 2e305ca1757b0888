//! One unit of work and its field invariants.

use vstd::prelude::*;

verus! {

/// The two ways a registry operation can fail.
#[derive(Clone, Copy, Debug, PartialEq, Eq, Structural)]
pub enum TaskError {
    /// A priority outside the closed range `[1, 5]` was supplied.
    InvalidPriority,
    /// No task with the requested id exists.
    NotFound,
}

/// The range every priority must stay inside: 1 (lowest) to 5 (highest).
pub open spec fn valid_priority(p: u8) -> bool {
    1 <= p <= 5
}

/// Mathematical snapshot of one task.
#[verifier::ext_equal]
pub ghost struct TaskView {
    pub id: int,
    pub description: Seq<char>,
    pub priority: u8,
    pub completed: bool,
}

/// Presentation order: higher priority first; between equal priorities the
/// earlier id comes first.  A strict total order on tasks with distinct ids.
pub open spec fn precedes(a: TaskView, b: TaskView) -> bool {
    a.priority > b.priority || (a.priority == b.priority && a.id < b.id)
}

/// One unit of work.  The id is fixed at creation; the description and the
/// priority may change, and the completion flag can only be set.
#[derive(Debug)]
pub struct Task {
    id: u32,
    description: String,
    priority: u8,
    completed: bool,
}

impl View for Task {
    type V = TaskView;

    closed spec fn view(&self) -> TaskView {
        TaskView {
            id: self.id as int,
            description: self.description@,
            priority: self.priority,
            completed: self.completed,
        }
    }
}

impl Task {
    /// Constructs a task with the completion flag cleared; a priority outside
    /// `[1, 5]` is rejected, never clamped.
    pub fn new(id: u32, description: String, priority: u8) -> (r: Result<Task, TaskError>)
        ensures
            match r {
                Ok(t) => valid_priority(priority) && t@ == (TaskView {
                    id: id as int,
                    description: description@,
                    priority,
                    completed: false,
                }),
                Err(e) => !valid_priority(priority) && e == TaskError::InvalidPriority,
            },
    {
        if priority < 1 || priority > 5 {
            return Err(TaskError::InvalidPriority);
        }
        Ok(Task { id, description, priority, completed: false })
    }

    /// The task's identifier.
    pub fn id(&self) -> (r: u32)
        ensures
            r as int == self@.id,
    {
        self.id
    }

    /// The task's description.
    pub fn description(&self) -> (r: &str)
        ensures
            r@ == self@.description,
    {
        self.description.as_str()
    }

    /// The task's priority, always in `[1, 5]` when the task came from
    /// `Task::new` and was only changed through `set_priority`.
    pub fn priority(&self) -> (r: u8)
        ensures
            r == self@.priority,
    {
        self.priority
    }

    /// Whether the task has been completed.
    pub fn is_completed(&self) -> (r: bool)
        ensures
            r == self@.completed,
    {
        self.completed
    }

    /// Marks the task as completed.  Idempotent: completing twice is the same
    /// as completing once.
    pub fn complete(&mut self)
        ensures
            final(self)@ == (TaskView { completed: true, ..old(self)@ }),
    {
        self.completed = true;
    }

    /// Replaces the description.  Any string is accepted, including the empty
    /// one.
    pub fn set_description(&mut self, description: String)
        ensures
            final(self)@ == (TaskView { description: description@, ..old(self)@ }),
    {
        self.description = description;
    }

    /// Replaces the priority when the new value lies in `[1, 5]`; otherwise
    /// fails and leaves the task entirely unchanged.
    pub fn set_priority(&mut self, priority: u8) -> (r: Result<(), TaskError>)
        ensures
            match r {
                Ok(()) => valid_priority(priority) && final(self)@ == (TaskView {
                    priority,
                    ..old(self)@
                }),
                Err(e) => !valid_priority(priority) && e == TaskError::InvalidPriority
                    && final(self)@ == old(self)@,
            },
    {
        if priority < 1 || priority > 5 {
            return Err(TaskError::InvalidPriority);
        }
        self.priority = priority;
        Ok(())
    }

    /// Whether the task is presented before `other`.
    pub fn precedes(&self, other: &Task) -> (r: bool)
        ensures
            r == precedes(self@, other@),
    {
        self.priority > other.priority || (self.priority == other.priority && self.id < other.id)
    }
}

impl Clone for Task {
    /// A snapshot with the very same fields.
    fn clone(&self) -> (r: Self)
        ensures
            r@ == self@,
    {
        Task {
            id: self.id,
            description: self.description.clone(),
            priority: self.priority,
            completed: self.completed,
        }
    }
}

} // verus!
