//! The non-interactive command surface, as plain data.
//!
//! These are the operations the persistence gateway understands.  The
//! interactive update loop emits them as commands; the command-line
//! front end parses its arguments into them.

use vstd::prelude::*;

verus! {

/// A parsed command line: an operation, or nothing (which launches the
/// interactive loop).
#[derive(Debug, Clone, PartialEq)]
pub struct Cli {
    /// Operation to run.
    pub item: Option<Item>,
}

/// The two families of operations.
#[derive(Debug, Clone, PartialEq)]
pub enum Item {
    /// Project operations.
    Project(ProjectOp),
    /// Task operations.
    Task(TaskOp),
}

/// Project operations.
#[derive(Debug, Clone, PartialEq)]
pub enum ProjectOp {
    /// List all projects.
    List,
    /// Add a project.
    Add(ProjectAddArg),
    /// Edit a project.
    Edit(ProjectEditArg),
    /// Delete a project.
    Delete(ProjectDeleteArg),
}

/// Add arguments for a project.
#[derive(Debug, Clone, PartialEq)]
pub struct ProjectAddArg {
    /// Name of the project.
    pub name: String,
}

/// Edit arguments for a project.
#[derive(Debug, Clone, PartialEq)]
pub struct ProjectEditArg {
    /// Id of the project to edit.
    pub id: i64,
    /// New name of the project.
    pub name: String,
}

/// Delete arguments for a project.
#[derive(Debug, Clone, PartialEq)]
pub struct ProjectDeleteArg {
    /// Id of the project to delete.
    pub id: i64,
}

/// Task operations.
#[derive(Debug, Clone, PartialEq)]
pub enum TaskOp {
    /// List tasks.
    List(TaskListArg),
    /// Add a task.
    Add(TaskAddArg),
    /// Mark a task done.
    Done(TaskDoneArg),
    /// Mark a task not done.
    UnDone(TaskDoneArg),
    /// Edit a task.
    Edit(TaskEditArg),
    /// Delete a task.
    Delete(TaskDeleteArg),
}

/// List arguments for tasks.
#[derive(Debug, Clone, PartialEq)]
pub struct TaskListArg {
    /// Restrict the listing to one project.
    pub project_id: Option<i64>,
    /// Number of tasks to list.
    pub number: Option<usize>,
}

/// Add arguments for a task.
#[derive(Debug, Clone, PartialEq)]
pub struct TaskAddArg {
    /// Title of the task.
    pub title: String,
    /// Description for the task.
    pub description: Option<String>,
    /// Project the task belongs to.
    pub project_id: i64,
    /// Parent task, when adding a sub-task.
    pub parent_id: Option<i64>,
}

/// Edit arguments for a task.
#[derive(Debug, Clone, PartialEq)]
pub struct TaskEditArg {
    /// Id of the task to edit.
    pub id: i64,
    /// New title, if it changes.
    pub title: Option<String>,
    /// New description, if it changes.
    pub description: Option<String>,
}

/// Delete arguments for a task.
#[derive(Debug, Clone, PartialEq)]
pub struct TaskDeleteArg {
    /// Id of the task to delete.
    pub id: i64,
}

/// Done/undone arguments for a task.
#[derive(Debug, Clone, PartialEq)]
pub struct TaskDoneArg {
    /// Id of the task to complete or reopen.
    pub id: i64,
}

} // verus!
