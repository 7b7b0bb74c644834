//! The task and project records the core works on.

use vstd::prelude::*;

verus! {

/// A to-do item, optionally nested under a parent task.
///
/// The persistence layer is authoritative for these records; the core
/// holds a transient, render-oriented copy per reload.  `depth` is not
/// stored here: it is derived by the reordering engine and kept in a
/// parallel sequence.
#[derive(Debug)]
pub struct Task {
    /// Unique identity, assigned by the persistence layer.
    pub id: i64,
    /// Non-empty title (enforced before commit).
    pub title: String,
    /// Optional free-form description.
    pub description: Option<String>,
    /// Completion flag.
    pub done: bool,
    /// The owning project.
    pub project_id: i64,
    /// The parent task, if this is a sub-task.
    pub parent_id: Option<i64>,
}

impl Clone for Task {
    /// Cloning a task keeps every field.
    fn clone(&self) -> (res: Self)
        ensures
            res == *self,
    {
        Task {
            id: self.id,
            title: self.title.clone(),
            description: match &self.description {
                Some(d) => Some(d.clone()),
                None => None,
            },
            done: self.done,
            project_id: self.project_id,
            parent_id: self.parent_id,
        }
    }
}

/// A named grouping of tasks.
#[derive(Debug)]
pub struct Project {
    /// Unique identity, assigned by the persistence layer.
    pub id: i64,
    /// Non-empty name.
    pub name: String,
}

impl Clone for Project {
    /// Cloning a project keeps every field.
    fn clone(&self) -> (res: Self)
        ensures
            res == *self,
    {
        Project { id: self.id, name: self.name.clone() }
    }
}

} // verus!
