//! Translation of key presses into messages.
//!
//! Only key presses reach the core (the event loop already discards
//! releases, mouse and resize events).  The active mode decides how a
//! key is read: the two normal modes map keys to navigation and
//! management messages, the text-entry modes feed most keys into the
//! active buffer.

use vstd::prelude::*;

use crate::message::Message;
use crate::model::{AddProjectMode, AddTaskMode, App, AppMode};

verus! {

/// The keys the core distinguishes.
#[derive(Debug, Clone, Copy, PartialEq)]
pub enum Key {
    /// A printable character (including space).
    Char(char),
    /// The escape key.
    Esc,
    /// The tab key.
    Tab,
    /// The enter key.
    Enter,
    /// The backspace key.
    Backspace,
    /// Any other key.
    Other,
}

/// One key press: the key, and whether control was held.
#[derive(Debug, Clone, Copy, PartialEq)]
pub struct KeyPress {
    /// The key.
    pub code: Key,
    /// Whether the control modifier was held.
    pub ctrl: bool,
}

// ---------------------------------------------------------------------
// The per-mode dispatch tables, as spec functions
// ---------------------------------------------------------------------

/// The bindings that hold in every normal mode: quit on escape, `q` or
/// control-c, and the numeric focus switches.
pub open spec fn spec_global_key(k: KeyPress) -> Message {
    match k.code {
        Key::Esc => Message::Quit,
        Key::Char(c) => if c == 'q' || (k.ctrl && (c == 'c' || c == 'C')) {
            Message::Quit
        } else if c == '1' {
            Message::FocusProject
        } else if c == '2' {
            Message::FocusTask
        } else {
            Message::Noop
        },
        _ => Message::Noop,
    }
}

/// The bindings while the task list has the focus.
pub open spec fn spec_focus_task_key(k: KeyPress) -> Message {
    match k.code {
        Key::Char(c) => if c == 'j' {
            Message::SelectNextTask
        } else if c == 'k' {
            Message::SelectPrevTask
        } else if c == 'g' {
            Message::SelectFirstTask
        } else if c == 'G' {
            Message::SelectLastTask
        } else if c == 'i' {
            Message::AddTaskBegin
        } else if c == 's' {
            Message::AddSubTaskBegin
        } else if c == 'a' {
            Message::AddSiblingTaskBegin
        } else if c == 'x' {
            Message::DeleteTask
        } else if c == 'r' {
            Message::ReloadTask
        } else if c == ' ' {
            Message::ToggleTaskStatus
        } else {
            spec_global_key(k)
        },
        Key::Tab => Message::FocusProject,
        _ => spec_global_key(k),
    }
}

/// The bindings while the project list has the focus.
pub open spec fn spec_focus_project_key(k: KeyPress) -> Message {
    match k.code {
        Key::Char(c) => if c == 'j' {
            Message::SelectNextProject
        } else if c == 'k' {
            Message::SelectPrevProject
        } else if c == 'g' {
            Message::SelectFirstProject
        } else if c == 'G' {
            Message::SelectLastProject
        } else if c == 'i' {
            Message::AddProjectBegin
        } else {
            spec_global_key(k)
        },
        Key::Tab => Message::FocusTask,
        _ => spec_global_key(k),
    }
}

/// In a text-entry mode, escape or control-c aborts the flow.
pub open spec fn is_abort_key(k: KeyPress) -> bool {
    k.code == Key::Esc || (k.ctrl && (k.code == Key::Char('c') || k.code == Key::Char('C')))
}

/// In a text-entry mode, control-space commits the flow.
pub open spec fn is_commit_key(k: KeyPress) -> bool {
    k.ctrl && k.code == Key::Char(' ')
}

/// How a key press edits a single-line buffer: plain characters are
/// appended, backspace deletes the last character, anything else is
/// ignored.
pub open spec fn edited_line(buf: Seq<char>, k: KeyPress) -> Seq<char> {
    match k.code {
        Key::Char(c) => if !k.ctrl {
            buf.push(c)
        } else {
            buf
        },
        Key::Backspace => if buf.len() == 0 {
            buf
        } else {
            buf.drop_last()
        },
        _ => buf,
    }
}

/// How a key press edits a multi-line buffer: as a single-line buffer,
/// and enter appends a line break.
pub open spec fn edited_text(buf: Seq<char>, k: KeyPress) -> Seq<char> {
    match k.code {
        Key::Enter => buf.push('\n'),
        _ => edited_line(buf, k),
    }
}

/// The add-task text-entry reaction: abort, commit, switch fields with
/// tab, or feed the key into the focused buffer.
pub open spec fn add_task_key_outcome(pre: App, post: App, k: KeyPress, m: Message) -> bool {
    if is_abort_key(k) {
        post == pre && m == Message::AddTaskAbort
    } else if is_commit_key(k) {
        post == pre && m == Message::AddTaskCommit
    } else if k.code == Key::Tab {
        post == pre && m == (match pre.mode.add_task_mode {
            AddTaskMode::AddTitle => Message::FocusAddTaskDescription,
            AddTaskMode::AddDescription => Message::FocusAddTaskTitle,
        })
    } else {
        &&& m == Message::Noop
        &&& post.mode == pre.mode
        &&& post.twodo == pre.twodo
        &&& post.state == pre.state
        &&& post.view_data == pre.view_data
        &&& post.popover.add_project == pre.popover.add_project
        &&& (match pre.mode.add_task_mode {
            AddTaskMode::AddTitle => post.popover.add_task.title@ == edited_line(
                pre.popover.add_task.title@,
                k,
            ) && post.popover.add_task.description == pre.popover.add_task.description,
            AddTaskMode::AddDescription => post.popover.add_task.description@ == edited_text(
                pre.popover.add_task.description@,
                k,
            ) && post.popover.add_task.title == pre.popover.add_task.title,
        })
    }
}

/// The add-project text-entry reaction.
pub open spec fn add_project_key_outcome(pre: App, post: App, k: KeyPress, m: Message) -> bool {
    if is_abort_key(k) {
        post == pre && m == Message::AddProjectAbort
    } else if is_commit_key(k) {
        post == pre && m == Message::AddProjectCommit
    } else if k.code == Key::Tab {
        post == pre && m == (match pre.mode.add_project_mode {
            AddProjectMode::AddName => Message::FocusAddProjectName,
        })
    } else {
        &&& m == Message::Noop
        &&& post.mode == pre.mode
        &&& post.twodo == pre.twodo
        &&& post.state == pre.state
        &&& post.view_data == pre.view_data
        &&& post.popover.add_task == pre.popover.add_task
        &&& post.popover.add_project.name@ == edited_line(pre.popover.add_project.name@, k)
    }
}

// ---------------------------------------------------------------------
// Executable dispatch
// ---------------------------------------------------------------------

/// Map a key press in the task-focused normal mode.
pub fn on_focus_task_key_event(key: KeyPress) -> (m: Message)
    ensures
        m == spec_focus_task_key(key),
{
    match key.code {
        Key::Char(c) => {
            if c == 'j' {
                Message::SelectNextTask
            } else if c == 'k' {
                Message::SelectPrevTask
            } else if c == 'g' {
                Message::SelectFirstTask
            } else if c == 'G' {
                Message::SelectLastTask
            } else if c == 'i' {
                Message::AddTaskBegin
            } else if c == 's' {
                Message::AddSubTaskBegin
            } else if c == 'a' {
                Message::AddSiblingTaskBegin
            } else if c == 'x' {
                Message::DeleteTask
            } else if c == 'r' {
                Message::ReloadTask
            } else if c == ' ' {
                Message::ToggleTaskStatus
            } else {
                on_global_key_event(key)
            }
        },
        Key::Tab => Message::FocusProject,
        _ => on_global_key_event(key),
    }
}

/// Map a key press in the project-focused normal mode.
pub fn on_focus_project_key_event(key: KeyPress) -> (m: Message)
    ensures
        m == spec_focus_project_key(key),
{
    match key.code {
        Key::Char(c) => {
            if c == 'j' {
                Message::SelectNextProject
            } else if c == 'k' {
                Message::SelectPrevProject
            } else if c == 'g' {
                Message::SelectFirstProject
            } else if c == 'G' {
                Message::SelectLastProject
            } else if c == 'i' {
                Message::AddProjectBegin
            } else {
                on_global_key_event(key)
            }
        },
        Key::Tab => Message::FocusTask,
        _ => on_global_key_event(key),
    }
}

/// Map a key press that no mode-specific binding claimed.
pub fn on_global_key_event(key: KeyPress) -> (m: Message)
    ensures
        m == spec_global_key(key),
{
    match key.code {
        Key::Esc => Message::Quit,
        Key::Char(c) => {
            if c == 'q' || (key.ctrl && (c == 'c' || c == 'C')) {
                Message::Quit
            } else if c == '1' {
                Message::FocusProject
            } else if c == '2' {
                Message::FocusTask
            } else {
                Message::Noop
            }
        },
        _ => Message::Noop,
    }
}

impl App {
    /// Map a key press according to the active mode, feeding text keys
    /// into the focused buffer while a text-entry mode is active.
    pub fn on_key_event(&mut self, key: KeyPress) -> (m: Message)
        requires
            old(self).mode.app_mode != AppMode::Quit,
        ensures
            old(self).mode.app_mode == AppMode::FocusTask ==> *final(self) == *old(self) && m
                == spec_focus_task_key(key),
            old(self).mode.app_mode == AppMode::FocusProject ==> *final(self) == *old(self) && m
                == spec_focus_project_key(key),
            (old(self).mode.app_mode == AppMode::AddTask || old(self).mode.app_mode
                == AppMode::AddSubTask || old(self).mode.app_mode == AppMode::AddSiblingTask)
                ==> add_task_key_outcome(*old(self), *final(self), key, m),
            old(self).mode.app_mode == AppMode::AddProject ==> add_project_key_outcome(
                *old(self),
                *final(self),
                key,
                m,
            ),
    {
        match self.mode.app_mode {
            AppMode::FocusTask => on_focus_task_key_event(key),
            AppMode::FocusProject => on_focus_project_key_event(key),
            AppMode::AddTask => self.on_add_task_key_event(key),
            AppMode::AddSubTask => self.on_add_task_key_event(key),
            AppMode::AddSiblingTask => self.on_add_task_key_event(key),
            AppMode::AddProject => self.on_add_project_key_event(key),
            AppMode::Quit => Message::Noop,
        }
    }

    /// Handle a key press while one of the add-task flows is active.
    fn on_add_task_key_event(&mut self, key: KeyPress) -> (m: Message)
        ensures
            add_task_key_outcome(*old(self), *final(self), key, m),
    {
        if is_abort(key) {
            Message::AddTaskAbort
        } else if is_commit(key) {
            Message::AddTaskCommit
        } else {
            match key.code {
                Key::Tab => match self.mode.add_task_mode {
                    AddTaskMode::AddTitle => Message::FocusAddTaskDescription,
                    AddTaskMode::AddDescription => Message::FocusAddTaskTitle,
                },
                _ => {
                    match self.mode.add_task_mode {
                        AddTaskMode::AddTitle => {
                            edit_line(&mut self.popover.add_task.title, key);
                        },
                        AddTaskMode::AddDescription => {
                            edit_text(&mut self.popover.add_task.description, key);
                        },
                    }
                    Message::Noop
                },
            }
        }
    }

    /// Handle a key press while the add-project flow is active.
    fn on_add_project_key_event(&mut self, key: KeyPress) -> (m: Message)
        ensures
            add_project_key_outcome(*old(self), *final(self), key, m),
    {
        if is_abort(key) {
            Message::AddProjectAbort
        } else if is_commit(key) {
            Message::AddProjectCommit
        } else {
            match key.code {
                Key::Tab => match self.mode.add_project_mode {
                    AddProjectMode::AddName => Message::FocusAddProjectName,
                },
                _ => {
                    match self.mode.add_project_mode {
                        AddProjectMode::AddName => {
                            edit_line(&mut self.popover.add_project.name, key);
                        },
                    }
                    Message::Noop
                },
            }
        }
    }
}

/// Whether the key aborts a text-entry flow.
fn is_abort(key: KeyPress) -> (b: bool)
    ensures
        b == is_abort_key(key),
{
    match key.code {
        Key::Esc => true,
        Key::Char(c) => key.ctrl && (c == 'c' || c == 'C'),
        _ => false,
    }
}

/// Whether the key commits a text-entry flow.
fn is_commit(key: KeyPress) -> (b: bool)
    ensures
        b == is_commit_key(key),
{
    match key.code {
        Key::Char(c) => key.ctrl && c == ' ',
        _ => false,
    }
}

/// Apply a key press to a single-line buffer.
fn edit_line(buf: &mut Vec<char>, key: KeyPress)
    ensures
        final(buf)@ == edited_line(old(buf)@, key),
{
    match key.code {
        Key::Char(c) => {
            if !key.ctrl {
                buf.push(c);
            }
        },
        Key::Backspace => {
            if buf.len() > 0 {
                let _ = buf.pop();
            }
        },
        _ => {},
    }
}

/// Apply a key press to a multi-line buffer.
fn edit_text(buf: &mut Vec<char>, key: KeyPress)
    ensures
        final(buf)@ == edited_text(old(buf)@, key),
{
    match key.code {
        Key::Enter => {
            buf.push('\n');
        },
        _ => edit_line(buf, key),
    }
}

} // verus!
