//! The vocabulary of state-transition requests.

use vstd::prelude::*;

use crate::cli::{ProjectOp, TaskOp};

verus! {

/// A state-transition request, consumed by the update function.
///
/// `Noop` is the sentinel that means "no further state change": the
/// update loop drains a chain of messages until it is produced.
#[derive(Debug, Clone, PartialEq)]
pub enum Message {
    /// The fixed point that ends one logical reaction.
    Noop,
    /// Stop the event loop.
    Quit,
    /// Begin the add-task text entry flow.
    AddTaskBegin,
    /// Begin the add-sub-task flow (parent = selected task).
    AddSubTaskBegin,
    /// Begin the add-sibling-task flow (parent = selected task's parent).
    AddSiblingTaskBegin,
    /// Commit the add-task flow.
    AddTaskCommit,
    /// Abort the add-task flow.
    AddTaskAbort,
    /// Give the task list the focus.
    FocusTask,
    /// Put the add-task text entry on the title field.
    FocusAddTaskTitle,
    /// Put the add-task text entry on the description field.
    FocusAddTaskDescription,
    /// Hand an operation to the persistence gateway.
    TaskOp(TaskOp),
    /// Replace the cached task list from the store.
    ReloadTask,
    /// Delete the selected task.
    DeleteTask,
    /// Toggle the done flag of the selected task.
    ToggleTaskStatus,
    /// Move the task cursor down.
    SelectNextTask,
    /// Move the task cursor up.
    SelectPrevTask,
    /// Move the task cursor to the first row.
    SelectFirstTask,
    /// Move the task cursor to the last row.
    SelectLastTask,
    /// Give the project list the focus.
    FocusProject,
    /// Move the project cursor down.
    SelectNextProject,
    /// Move the project cursor up.
    SelectPrevProject,
    /// Move the project cursor to the first row.
    SelectFirstProject,
    /// Move the project cursor to the last row.
    SelectLastProject,
    /// Begin the add-project text entry flow.
    AddProjectBegin,
    /// Commit the add-project flow.
    AddProjectCommit,
    /// Abort the add-project flow.
    AddProjectAbort,
    /// Put the add-project text entry on the name field.
    FocusAddProjectName,
    /// Hand an operation to the persistence gateway.
    ProjectOp(ProjectOp),
    /// Replace the cached project list from the store.
    ReloadProject,
}

impl Message {
    /// Whether this is the sentinel that ends an update chain.
    pub fn is_noop(&self) -> (b: bool)
        ensures
            b == (self is Noop),
    {
        match self {
            Message::Noop => true,
            _ => false,
        }
    }
}

} // verus!
