//! The model: interaction modes, selection cursors, cached data.

use vstd::prelude::*;

use crate::objects::{Project, Task};

verus! {

/// State of the outer event loop.
#[derive(Debug, PartialEq, Eq, Structural, Clone, Copy)]
pub enum RunningState {
    /// The loop keeps scheduling ticks.
    Running,
    /// The loop stops.
    Done,
}

/// The discriminated interaction modes.  Exactly one is active; `Quit`
/// is terminal.
#[derive(Debug, PartialEq, Eq, Structural, Clone, Copy)]
pub enum AppMode {
    /// Normal mode, task list focused.
    FocusTask,
    /// Text entry for a new task.
    AddTask,
    /// Text entry for a new sub-task of the selected task.
    AddSubTask,
    /// Text entry for a new sibling of the selected task.
    AddSiblingTask,
    /// Normal mode, project list focused.
    FocusProject,
    /// Text entry for a new project.
    AddProject,
    /// Terminal mode: the event loop stops.
    Quit,
}

/// Which add-task field takes text input.  Meaningful only while the
/// mode is one of the add-task variants.
#[derive(Debug, PartialEq, Eq, Structural, Clone, Copy)]
pub enum AddTaskMode {
    /// The title field takes input.
    AddTitle,
    /// The description field takes input.
    AddDescription,
}

/// Which add-project field takes text input.
#[derive(Debug, PartialEq, Eq, Structural, Clone, Copy)]
pub enum AddProjectMode {
    /// The name field takes input.
    AddName,
}

/// The active mode with its text-entry sub-states.
#[derive(Debug, Clone, Copy)]
pub struct Mode {
    /// The active interaction mode.
    pub app_mode: AppMode,
    /// Sub-state of the add-task flows.
    pub add_task_mode: AddTaskMode,
    /// Sub-state of the add-project flow.
    pub add_project_mode: AddProjectMode,
}

impl Mode {
    /// The starting mode: task list focused, text entry on the first
    /// field of each flow.
    pub fn new() -> (m: Mode)
        ensures
            m.app_mode == AppMode::FocusTask,
            m.add_task_mode == AddTaskMode::AddTitle,
            m.add_project_mode == AddProjectMode::AddName,
    {
        Mode {
            app_mode: AppMode::FocusTask,
            add_task_mode: AddTaskMode::AddTitle,
            add_project_mode: AddProjectMode::AddName,
        }
    }
}

// ---------------------------------------------------------------------
// Selection
// ---------------------------------------------------------------------

/// Where a cursor lands after moving down in a list of length `len`.
pub open spec fn next_selection(sel: Option<usize>, len: nat) -> Option<usize> {
    match sel {
        Option::None => if len == 0 {
            Option::None
        } else {
            Option::Some(0usize)
        },
        Option::Some(i) => if i + 1 < len {
            Option::Some((i + 1) as usize)
        } else {
            Option::Some(i)
        },
    }
}

/// Where a cursor lands after moving up in a list of length `len`.
pub open spec fn previous_selection(sel: Option<usize>, len: nat) -> Option<usize> {
    match sel {
        Option::None => if len == 0 {
            Option::None
        } else {
            Option::Some((len - 1) as usize)
        },
        Option::Some(i) => if i == 0 {
            Option::Some(0usize)
        } else {
            Option::Some((i - 1) as usize)
        },
    }
}

/// The first row of a list of length `len`, if any.
pub open spec fn first_selection(len: nat) -> Option<usize> {
    if len == 0 {
        Option::None
    } else {
        Option::Some(0usize)
    }
}

/// The last row of a list of length `len`, if any.
pub open spec fn last_selection(len: nat) -> Option<usize> {
    if len == 0 {
        Option::None
    } else {
        Option::Some((len - 1) as usize)
    }
}

/// A selection forced back into the bounds of a list of length `len`,
/// as every list mutation must do.
pub open spec fn clamped_selection(sel: Option<usize>, len: nat) -> Option<usize> {
    match sel {
        Option::None => Option::None,
        Option::Some(i) => if len == 0 {
            Option::None
        } else if i < len {
            Option::Some(i)
        } else {
            Option::Some((len - 1) as usize)
        },
    }
}

/// A cursor into one displayed list: unset, or an index that is always
/// below the length of the list it indexes.
#[derive(Debug, Clone, Copy)]
pub struct Cursor {
    /// The highlighted row, if any.
    pub selected: Option<usize>,
}

impl Cursor {
    /// The cursor invariant against the list it indexes.
    pub open spec fn in_bounds(self, len: nat) -> bool {
        match self.selected {
            Option::Some(i) => (i as nat) < len,
            Option::None => true,
        }
    }

    /// A fresh, unset cursor.
    pub fn new() -> (c: Cursor)
        ensures
            c.selected is None,
    {
        Cursor { selected: Option::None }
    }

    /// Move down one row, clamped to the last valid index.
    pub fn select_next(&mut self, len: usize)
        requires
            old(self).in_bounds(len as nat),
        ensures
            final(self).selected == next_selection(old(self).selected, len as nat),
            final(self).in_bounds(len as nat),
    {
        self.selected = match self.selected {
            Option::None => if len == 0 {
                Option::None
            } else {
                Option::Some(0)
            },
            Option::Some(i) => if i + 1 < len {
                Option::Some(i + 1)
            } else {
                Option::Some(i)
            },
        };
    }

    /// Move up one row, stopping at the first.
    pub fn select_previous(&mut self, len: usize)
        requires
            old(self).in_bounds(len as nat),
        ensures
            final(self).selected == previous_selection(old(self).selected, len as nat),
            final(self).in_bounds(len as nat),
    {
        self.selected = match self.selected {
            Option::None => if len == 0 {
                Option::None
            } else {
                Option::Some(len - 1)
            },
            Option::Some(i) => if i == 0 {
                Option::Some(0)
            } else {
                Option::Some(i - 1)
            },
        };
    }

    /// Jump to the first row.
    pub fn select_first(&mut self, len: usize)
        ensures
            final(self).selected == first_selection(len as nat),
            final(self).in_bounds(len as nat),
    {
        self.selected = if len == 0 {
            Option::None
        } else {
            Option::Some(0)
        };
    }

    /// Jump to the last row.
    pub fn select_last(&mut self, len: usize)
        ensures
            final(self).selected == last_selection(len as nat),
            final(self).in_bounds(len as nat),
    {
        self.selected = if len == 0 {
            Option::None
        } else {
            Option::Some(len - 1)
        };
    }

    /// Force the cursor back into bounds after the list changed.
    pub fn clamp(&mut self, len: usize)
        ensures
            final(self).selected == clamped_selection(old(self).selected, len as nat),
            final(self).in_bounds(len as nat),
    {
        self.selected = match self.selected {
            Option::None => Option::None,
            Option::Some(i) => if len == 0 {
                Option::None
            } else if i < len {
                Option::Some(i)
            } else {
                Option::Some(len - 1)
            },
        };
    }
}

/// The two independent cursors.
#[derive(Debug, Clone, Copy)]
pub struct State {
    /// Cursor into the displayed task sequence.
    pub task_state: Cursor,
    /// Cursor into the project list.
    pub project_state: Cursor,
}

// ---------------------------------------------------------------------
// Cached data and text entry
// ---------------------------------------------------------------------

/// The cached records, replaced wholesale on every reload.
#[derive(Debug)]
pub struct Twodo {
    /// Tasks of the selected project, in display (preorder) order.
    pub tasks: Vec<Task>,
    /// All projects.
    pub projects: Vec<Project>,
}

/// Derived render metadata.
#[derive(Debug)]
pub struct ViewData {
    /// Depth of each displayed task, parallel to the task sequence.
    pub task_depth: Vec<usize>,
}

/// Text buffers of the add-task popover.
#[derive(Debug)]
pub struct AddTask {
    /// The title being typed (a single line).
    pub title: Vec<char>,
    /// The description being typed (may span lines).
    pub description: Vec<char>,
}

impl AddTask {
    /// Fresh, empty buffers.
    pub fn new() -> (a: AddTask)
        ensures
            a.title@ == Seq::<char>::empty(),
            a.description@ == Seq::<char>::empty(),
    {
        AddTask { title: Vec::new(), description: Vec::new() }
    }

    /// Discard whatever was typed.
    pub fn clear(&mut self)
        ensures
            final(self).title@ == Seq::<char>::empty(),
            final(self).description@ == Seq::<char>::empty(),
    {
        self.title = Vec::new();
        self.description = Vec::new();
    }
}

/// Text buffer of the add-project popover.
#[derive(Debug)]
pub struct AddProject {
    /// The name being typed.
    pub name: Vec<char>,
}

impl AddProject {
    /// A fresh, empty buffer.
    pub fn new() -> (a: AddProject)
        ensures
            a.name@ == Seq::<char>::empty(),
    {
        AddProject { name: Vec::new() }
    }

    /// Discard whatever was typed.
    pub fn clear(&mut self)
        ensures
            final(self).name@ == Seq::<char>::empty(),
    {
        self.name = Vec::new();
    }
}

/// The text-entry popovers.
#[derive(Debug)]
pub struct Popover {
    /// Buffers of the add-task flow.
    pub add_task: AddTask,
    /// Buffer of the add-project flow.
    pub add_project: AddProject,
}

/// The whole model: mode, cached data, text entry, selection, render
/// metadata.  Owned by the event loop and only ever mutated inside the
/// update function.
#[derive(Debug)]
pub struct App {
    /// The active interaction mode.
    pub mode: Mode,
    /// The cached task and project records.
    pub twodo: Twodo,
    /// The text-entry popovers.
    pub popover: Popover,
    /// The selection cursors.
    pub state: State,
    /// Derived render metadata.
    pub view_data: ViewData,
}

impl App {
    /// The model invariant: each cursor stays inside the list it
    /// indexes, and the depth metadata is parallel to the task list.
    pub open spec fn inv(self) -> bool {
        &&& self.state.task_state.in_bounds(self.twodo.tasks@.len() as nat)
        &&& self.state.project_state.in_bounds(self.twodo.projects@.len() as nat)
        &&& self.view_data.task_depth@.len() == self.twodo.tasks@.len()
    }

    /// An empty model in the starting mode; the caller fills the caches
    /// by reload.
    pub fn new() -> (a: App)
        ensures
            a.inv(),
            a.mode.app_mode == AppMode::FocusTask,
            a.mode.add_task_mode == AddTaskMode::AddTitle,
            a.mode.add_project_mode == AddProjectMode::AddName,
            a.twodo.tasks@ == Seq::<Task>::empty(),
            a.twodo.projects@ == Seq::<Project>::empty(),
            a.popover.add_task.title@ == Seq::<char>::empty(),
            a.popover.add_task.description@ == Seq::<char>::empty(),
            a.popover.add_project.name@ == Seq::<char>::empty(),
            a.state.task_state.selected is None,
            a.state.project_state.selected is None,
            a.view_data.task_depth@ == Seq::<usize>::empty(),
    {
        App {
            mode: Mode::new(),
            twodo: Twodo { tasks: Vec::new(), projects: Vec::new() },
            popover: Popover { add_task: AddTask::new(), add_project: AddProject::new() },
            state: State { task_state: Cursor::new(), project_state: Cursor::new() },
            view_data: ViewData { task_depth: Vec::new() },
        }
    }
}

} // verus!
