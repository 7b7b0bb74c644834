//! The update function: advance the model exactly once per message.
//!
//! Each call consumes one message and returns either the next message
//! of the chain (`Step::Next`, with `Message::Noop` as the fixed point
//! that ends the chain) or a persistence command (`Step::Dispatch`)
//! that the caller must run against the store before resuming the
//! chain with the command's follow-up message.
//!
//! Failure semantics: operations that need a selected row but find no
//! selection return a missing-identifier error and leave the model
//! exactly as it was; committing an empty title is a silent no-op.

use vstd::prelude::*;

use crate::cli::{ProjectAddArg, ProjectOp, TaskAddArg, TaskDeleteArg, TaskDoneArg, TaskOp};
use crate::error::Error;
use crate::message::Message;
use crate::model::{
    AddProjectMode, AddTaskMode, App, AppMode, Cursor, Mode, State, clamped_selection,
    first_selection, last_selection, next_selection, previous_selection,
};
use crate::objects::Task;
use crate::reorder::{reorder_spec, reorder_tasks, uniq_ids};
use crate::text::{chars_to_string, trim_spec, trimmed};

verus! {

/// A side effect the caller must run against the persistence gateway.
#[derive(Debug, Clone, PartialEq)]
pub enum Command {
    /// Run a task operation against the store.
    TaskStore(TaskOp),
    /// Run a project operation against the store.
    ProjectStore(ProjectOp),
    /// Fetch the tasks of the given project; hand them back through
    /// `App::install_tasks`.
    LoadTasks(i64),
    /// Fetch all projects; hand them back through
    /// `App::install_projects`.
    LoadProjects,
}

/// What one update step asks of its caller.
#[derive(Debug, Clone, PartialEq)]
pub enum Step {
    /// Feed this message back in; `Message::Noop` ends the chain.
    Next(Message),
    /// Run this command, then resume with its follow-up message.
    Dispatch(Command),
}

/// A completed reaction: the chain ends here.
pub fn return_noop() -> (r: Result<Step, Error>)
    ensures
        r == Ok::<Step, Error>(Step::Next(Message::Noop)),
{
    Ok(Step::Next(Message::Noop))
}

/// The message that resumes the chain after a task operation ran: the
/// listing is read-only, everything else invalidates the task cache.
pub fn task_op_follow_up(op: &TaskOp) -> (m: Message)
    ensures
        op is List ==> m == Message::Noop,
        !(op is List) ==> m == Message::ReloadTask,
{
    match op {
        TaskOp::List(_) => Message::Noop,
        _ => Message::ReloadTask,
    }
}

/// The message that resumes the chain after a project operation ran:
/// the listing is read-only, everything else invalidates the project
/// cache.
pub fn project_op_follow_up(op: &ProjectOp) -> (m: Message)
    ensures
        op is List ==> m == Message::Noop,
        !(op is List) ==> m == Message::ReloadProject,
{
    match op {
        ProjectOp::List => Message::Noop,
        _ => Message::ReloadProject,
    }
}

// ---------------------------------------------------------------------
// Vocabulary for the transition table
// ---------------------------------------------------------------------

/// `a` with another mode, all else equal.
pub open spec fn with_mode(a: App, m: Mode) -> App {
    App { mode: m, twodo: a.twodo, popover: a.popover, state: a.state, view_data: a.view_data }
}

/// `a` with another active mode, all else equal.
pub open spec fn with_app_mode(a: App, m: AppMode) -> App {
    with_mode(
        a,
        Mode {
            app_mode: m,
            add_task_mode: a.mode.add_task_mode,
            add_project_mode: a.mode.add_project_mode,
        },
    )
}

/// `a` with another add-task field focused, all else equal.
pub open spec fn with_add_task_mode(a: App, m: AddTaskMode) -> App {
    with_mode(
        a,
        Mode {
            app_mode: a.mode.app_mode,
            add_task_mode: m,
            add_project_mode: a.mode.add_project_mode,
        },
    )
}

/// `a` with another add-project field focused, all else equal.
pub open spec fn with_add_project_mode(a: App, m: AddProjectMode) -> App {
    with_mode(
        a,
        Mode {
            app_mode: a.mode.app_mode,
            add_task_mode: a.mode.add_task_mode,
            add_project_mode: m,
        },
    )
}

/// `a` with the task cursor at `sel`, all else equal.
pub open spec fn with_task_sel(a: App, sel: Option<usize>) -> App {
    App {
        mode: a.mode,
        twodo: a.twodo,
        popover: a.popover,
        state: State {
            task_state: Cursor { selected: sel },
            project_state: a.state.project_state,
        },
        view_data: a.view_data,
    }
}

/// `a` with the project cursor at `sel`, all else equal.
pub open spec fn with_project_sel(a: App, sel: Option<usize>) -> App {
    App {
        mode: a.mode,
        twodo: a.twodo,
        popover: a.popover,
        state: State {
            task_state: a.state.task_state,
            project_state: Cursor { selected: sel },
        },
        view_data: a.view_data,
    }
}

/// `post` is `pre` in mode `m` with the add-task buffers discarded.
pub open spec fn begun_add_task(pre: App, post: App, m: AppMode) -> bool {
    &&& post.mode == with_app_mode(pre, m).mode
    &&& post.twodo == pre.twodo
    &&& post.state == pre.state
    &&& post.view_data == pre.view_data
    &&& post.popover.add_task.title@ == Seq::<char>::empty()
    &&& post.popover.add_task.description@ == Seq::<char>::empty()
    &&& post.popover.add_project == pre.popover.add_project
}

/// `post` is `pre` in mode `m` with the add-project buffer discarded.
pub open spec fn begun_add_project(pre: App, post: App, m: AppMode) -> bool {
    &&& post.mode == with_app_mode(pre, m).mode
    &&& post.twodo == pre.twodo
    &&& post.state == pre.state
    &&& post.view_data == pre.view_data
    &&& post.popover.add_task == pre.popover.add_task
    &&& post.popover.add_project.name@ == Seq::<char>::empty()
}

/// The title that a commit would use.
pub open spec fn spec_title(a: App) -> Seq<char> {
    trim_spec(a.popover.add_task.title@)
}

/// The description that a commit would use.
pub open spec fn spec_description(a: App) -> Seq<char> {
    trim_spec(a.popover.add_task.description@)
}

/// Whether committing in this mode needs a selected task to derive the
/// parent from.
pub open spec fn needs_selected_task(m: AppMode) -> bool {
    m == AppMode::AddSubTask || m == AppMode::AddSiblingTask
}

/// The parent-id policy: a plain task has no parent, a sub-task's
/// parent is the selected task, and a sibling shares the selected
/// task's parent (so a sibling of a root is itself a root).
pub open spec fn spec_parent_id(m: AppMode, selected: Task) -> Option<i64> {
    match m {
        AppMode::AddSubTask => Option::Some(selected.id),
        AppMode::AddSiblingTask => selected.parent_id,
        _ => Option::None,
    }
}

/// The project cursor can still move down.
pub open spec fn can_advance_project(a: App) -> bool {
    match a.state.project_state.selected {
        Option::Some(i) => i + 1 < a.twodo.projects@.len(),
        Option::None => false,
    }
}

/// A successful add-task commit: focus returns to the task list and
/// the create command carries the trimmed title, the trimmed
/// description (or none), the selected project and the derived parent.
pub open spec fn committed_add_task(
    pre: App,
    post: App,
    r: Result<Step, Error>,
    pi: int,
    parent: Option<i64>,
) -> bool {
    &&& post == with_app_mode(pre, AppMode::FocusTask)
    &&& (r matches Ok(Step::Next(Message::TaskOp(TaskOp::Add(arg)))) && arg.title@ == spec_title(
        pre,
    ) && (match arg.description {
        Option::Some(d) => spec_description(pre).len() > 0 && d@ == spec_description(pre),
        Option::None => spec_description(pre).len() == 0,
    }) && arg.project_id == pre.twodo.projects@[pi].id && arg.parent_id == parent)
}

// ---------------------------------------------------------------------
// Parent derivation
// ---------------------------------------------------------------------

/// Derive the parent id of a task about to be created, from the active
/// mode and the selected task.  Modes that need a selection but have
/// none yield the missing-identifier error.
pub fn derive_parent_id(m: &AppMode, selected: Option<&Task>) -> (r: Result<Option<i64>, Error>)
    ensures
        match selected {
            Option::Some(t) => r == Ok::<Option<i64>, Error>(spec_parent_id(*m, *t)),
            Option::None => if needs_selected_task(*m) {
                r == Err::<Option<i64>, Error>(Error::MissingTaskId)
            } else {
                r == Ok::<Option<i64>, Error>(Option::<i64>::None)
            },
        },
{
    match m {
        AppMode::AddSubTask => match selected {
            Option::Some(t) => Ok(Option::Some(t.id)),
            Option::None => Err(Error::MissingTaskId),
        },
        AppMode::AddSiblingTask => match selected {
            Option::Some(t) => Ok(t.parent_id),
            Option::None => Err(Error::MissingTaskId),
        },
        _ => Ok(Option::None),
    }
}

// ---------------------------------------------------------------------
// The update function
// ---------------------------------------------------------------------

impl App {
    /// Advance the model exactly once for `msg`.
    ///
    /// The sentinel `Noop` and the terminal `Quit` mode are programmer
    /// invariants, not runtime inputs, so they are excluded up front.
    pub fn update(&mut self, msg: Message) -> (r: Result<Step, Error>)
        requires
            old(self).inv(),
            !(msg is Noop),
            old(self).mode.app_mode != AppMode::Quit,
        ensures
            final(self).inv(),
            msg is Quit ==> *final(self) == with_app_mode(*old(self), AppMode::Quit) && r == Ok::<
                Step,
                Error,
            >(Step::Next(Message::Noop)),
            msg is FocusTask ==> *final(self) == with_app_mode(*old(self), AppMode::FocusTask) && r
                == Ok::<Step, Error>(Step::Next(Message::Noop)),
            msg is FocusProject ==> *final(self) == with_app_mode(*old(self), AppMode::FocusProject)
                && r == Ok::<Step, Error>(Step::Next(Message::Noop)),
            msg is FocusAddTaskTitle ==> *final(self) == with_add_task_mode(
                *old(self),
                AddTaskMode::AddTitle,
            ) && r == Ok::<Step, Error>(Step::Next(Message::Noop)),
            msg is FocusAddTaskDescription ==> *final(self) == with_add_task_mode(
                *old(self),
                AddTaskMode::AddDescription,
            ) && r == Ok::<Step, Error>(Step::Next(Message::Noop)),
            msg is FocusAddProjectName ==> *final(self) == with_add_project_mode(
                *old(self),
                AddProjectMode::AddName,
            ) && r == Ok::<Step, Error>(Step::Next(Message::Noop)),
            msg is AddTaskBegin ==> begun_add_task(*old(self), *final(self), AppMode::AddTask) && r
                == Ok::<Step, Error>(Step::Next(Message::FocusAddTaskTitle)),
            msg is AddSubTaskBegin ==> begun_add_task(*old(self), *final(self), AppMode::AddSubTask)
                && r == Ok::<Step, Error>(Step::Next(Message::FocusAddTaskTitle)),
            msg is AddSiblingTaskBegin ==> begun_add_task(
                *old(self),
                *final(self),
                AppMode::AddSiblingTask,
            ) && r == Ok::<Step, Error>(Step::Next(Message::FocusAddTaskTitle)),
            msg is AddTaskAbort ==> begun_add_task(*old(self), *final(self), AppMode::FocusTask)
                && r == Ok::<Step, Error>(Step::Next(Message::Noop)),
            msg is AddProjectBegin ==> begun_add_project(
                *old(self),
                *final(self),
                AppMode::AddProject,
            ) && r == Ok::<Step, Error>(Step::Next(Message::FocusAddProjectName)),
            msg is AddProjectAbort ==> begun_add_project(
                *old(self),
                *final(self),
                AppMode::FocusProject,
            ) && r == Ok::<Step, Error>(Step::Next(Message::Noop)),
            msg is SelectNextTask ==> *final(self) == with_task_sel(
                *old(self),
                next_selection(
                    old(self).state.task_state.selected,
                    old(self).twodo.tasks@.len() as nat,
                ),
            ) && r == Ok::<Step, Error>(Step::Next(Message::Noop)),
            msg is SelectPrevTask ==> *final(self) == with_task_sel(
                *old(self),
                previous_selection(
                    old(self).state.task_state.selected,
                    old(self).twodo.tasks@.len() as nat,
                ),
            ) && r == Ok::<Step, Error>(Step::Next(Message::Noop)),
            msg is SelectFirstTask ==> *final(self) == with_task_sel(
                *old(self),
                first_selection(old(self).twodo.tasks@.len() as nat),
            ) && r == Ok::<Step, Error>(Step::Next(Message::Noop)),
            msg is SelectLastTask ==> *final(self) == with_task_sel(
                *old(self),
                last_selection(old(self).twodo.tasks@.len() as nat),
            ) && r == Ok::<Step, Error>(Step::Next(Message::Noop)),
            msg is SelectNextProject ==> (if can_advance_project(*old(self)) {
                *final(self) == with_project_sel(
                    *old(self),
                    next_selection(
                        old(self).state.project_state.selected,
                        old(self).twodo.projects@.len() as nat,
                    ),
                ) && r == Ok::<Step, Error>(Step::Next(Message::ReloadTask))
            } else {
                *final(self) == *old(self) && r == Ok::<Step, Error>(Step::Next(Message::Noop))
            }),
            msg is SelectPrevProject ==> *final(self) == with_project_sel(
                *old(self),
                previous_selection(
                    old(self).state.project_state.selected,
                    old(self).twodo.projects@.len() as nat,
                ),
            ) && r == Ok::<Step, Error>(Step::Next(Message::ReloadTask)),
            msg is SelectFirstProject ==> *final(self) == with_project_sel(
                *old(self),
                first_selection(old(self).twodo.projects@.len() as nat),
            ) && r == Ok::<Step, Error>(Step::Next(Message::ReloadTask)),
            msg is SelectLastProject ==> *final(self) == with_project_sel(
                *old(self),
                last_selection(old(self).twodo.projects@.len() as nat),
            ) && r == Ok::<Step, Error>(Step::Next(Message::ReloadTask)),
            msg is DeleteTask ==> (match old(self).state.task_state.selected {
                Option::None => *final(self) == *old(self) && r == Err::<Step, Error>(
                    Error::MissingTaskId,
                ),
                Option::Some(i) => *final(self) == *old(self) && r == Ok::<Step, Error>(
                    Step::Next(
                        Message::TaskOp(
                            TaskOp::Delete(
                                TaskDeleteArg { id: old(self).twodo.tasks@[i as int].id },
                            ),
                        ),
                    ),
                ),
            }),
            msg is ToggleTaskStatus ==> (match old(self).state.task_state.selected {
                Option::None => *final(self) == *old(self) && r == Err::<Step, Error>(
                    Error::MissingTaskId,
                ),
                Option::Some(i) => *final(self) == *old(self) && r == Ok::<Step, Error>(
                    Step::Next(
                        Message::TaskOp(
                            if old(self).twodo.tasks@[i as int].done {
                                TaskOp::UnDone(
                                    TaskDoneArg { id: old(self).twodo.tasks@[i as int].id },
                                )
                            } else {
                                TaskOp::Done(
                                    TaskDoneArg { id: old(self).twodo.tasks@[i as int].id },
                                )
                            },
                        ),
                    ),
                ),
            }),
            msg matches Message::TaskOp(op) ==> *final(self) == *old(self) && r == Ok::<
                Step,
                Error,
            >(Step::Dispatch(Command::TaskStore(op))),
            msg matches Message::ProjectOp(op) ==> *final(self) == *old(self) && r == Ok::<
                Step,
                Error,
            >(Step::Dispatch(Command::ProjectStore(op))),
            msg is ReloadTask ==> (match old(self).state.project_state.selected {
                Option::None => *final(self) == *old(self) && r == Err::<Step, Error>(
                    Error::MissingProjectId,
                ),
                Option::Some(i) => *final(self) == *old(self) && r == Ok::<Step, Error>(
                    Step::Dispatch(
                        Command::LoadTasks(old(self).twodo.projects@[i as int].id),
                    ),
                ),
            }),
            msg is ReloadProject ==> *final(self) == *old(self) && r == Ok::<Step, Error>(
                Step::Dispatch(Command::LoadProjects),
            ),
            msg is AddTaskCommit ==> (match old(self).state.project_state.selected {
                Option::None => *final(self) == *old(self) && r == Err::<Step, Error>(
                    Error::MissingProjectId,
                ),
                Option::Some(pi) => if spec_title(*old(self)).len() == 0 {
                    *final(self) == *old(self) && r == Ok::<Step, Error>(
                        Step::Next(Message::Noop),
                    )
                } else {
                    match old(self).state.task_state.selected {
                        Option::None => if needs_selected_task(old(self).mode.app_mode) {
                            *final(self) == *old(self) && r == Err::<Step, Error>(
                                Error::MissingTaskId,
                            )
                        } else {
                            committed_add_task(
                                *old(self),
                                *final(self),
                                r,
                                pi as int,
                                Option::<i64>::None,
                            )
                        },
                        Option::Some(ti) => committed_add_task(
                            *old(self),
                            *final(self),
                            r,
                            pi as int,
                            spec_parent_id(
                                old(self).mode.app_mode,
                                old(self).twodo.tasks@[ti as int],
                            ),
                        ),
                    }
                },
            }),
            msg is AddProjectCommit ==> (if trim_spec(
                old(self).popover.add_project.name@,
            ).len() == 0 {
                *final(self) == *old(self) && r == Ok::<Step, Error>(Step::Next(Message::Noop))
            } else {
                *final(self) == with_app_mode(*old(self), AppMode::FocusProject) && (r matches Ok(
                    Step::Next(Message::ProjectOp(ProjectOp::Add(arg))),
                ) && arg.name@ == trim_spec(old(self).popover.add_project.name@))
            }),
    {
        match msg {
            Message::Noop => {
                // Excluded by the precondition; keep the model as is.
                Err(Error::Custom(String::new()))
            },
            Message::Quit => {
                self.mode.app_mode = AppMode::Quit;
                return_noop()
            },
            Message::FocusTask => {
                self.mode.app_mode = AppMode::FocusTask;
                return_noop()
            },
            Message::FocusProject => {
                self.mode.app_mode = AppMode::FocusProject;
                return_noop()
            },
            Message::FocusAddTaskTitle => {
                self.mode.add_task_mode = AddTaskMode::AddTitle;
                return_noop()
            },
            Message::FocusAddTaskDescription => {
                self.mode.add_task_mode = AddTaskMode::AddDescription;
                return_noop()
            },
            Message::FocusAddProjectName => {
                self.mode.add_project_mode = AddProjectMode::AddName;
                return_noop()
            },
            Message::AddTaskBegin => {
                self.mode.app_mode = AppMode::AddTask;
                self.popover.add_task.clear();
                Ok(Step::Next(Message::FocusAddTaskTitle))
            },
            Message::AddSubTaskBegin => {
                self.mode.app_mode = AppMode::AddSubTask;
                self.popover.add_task.clear();
                Ok(Step::Next(Message::FocusAddTaskTitle))
            },
            Message::AddSiblingTaskBegin => {
                self.mode.app_mode = AppMode::AddSiblingTask;
                self.popover.add_task.clear();
                Ok(Step::Next(Message::FocusAddTaskTitle))
            },
            Message::AddTaskAbort => {
                self.mode.app_mode = AppMode::FocusTask;
                self.popover.add_task.clear();
                return_noop()
            },
            Message::AddProjectBegin => {
                self.mode.app_mode = AppMode::AddProject;
                self.popover.add_project.clear();
                Ok(Step::Next(Message::FocusAddProjectName))
            },
            Message::AddProjectAbort => {
                self.mode.app_mode = AppMode::FocusProject;
                self.popover.add_project.clear();
                return_noop()
            },
            Message::SelectNextTask => {
                let len = self.twodo.tasks.len();
                self.state.task_state.select_next(len);
                return_noop()
            },
            Message::SelectPrevTask => {
                let len = self.twodo.tasks.len();
                self.state.task_state.select_previous(len);
                return_noop()
            },
            Message::SelectFirstTask => {
                let len = self.twodo.tasks.len();
                self.state.task_state.select_first(len);
                return_noop()
            },
            Message::SelectLastTask => {
                let len = self.twodo.tasks.len();
                self.state.task_state.select_last(len);
                return_noop()
            },
            Message::SelectNextProject => self.select_next_project(),
            Message::SelectPrevProject => self.select_previous_project(),
            Message::SelectFirstProject => self.select_first_project(),
            Message::SelectLastProject => self.select_last_project(),
            Message::DeleteTask => self.delete_task(),
            Message::ToggleTaskStatus => self.toggle_task_status(),
            Message::TaskOp(op) => Ok(Step::Dispatch(Command::TaskStore(op))),
            Message::ProjectOp(op) => Ok(Step::Dispatch(Command::ProjectStore(op))),
            Message::ReloadTask => match self.state.project_state.selected {
                Option::None => Err(Error::MissingProjectId),
                Option::Some(i) => Ok(
                    Step::Dispatch(Command::LoadTasks(self.twodo.projects[i].id)),
                ),
            },
            Message::ReloadProject => Ok(Step::Dispatch(Command::LoadProjects)),
            Message::AddTaskCommit => self.add_task_commit(),
            Message::AddProjectCommit => self.add_project_commit(),
        }
    }

    /// Move the project cursor down, but never past the last valid
    /// index; a real move makes the visible task set stale, so it asks
    /// for exactly one reload.
    fn select_next_project(&mut self) -> (r: Result<Step, Error>)
        requires
            old(self).inv(),
        ensures
            final(self).inv(),
            can_advance_project(*old(self)) ==> *final(self) == with_project_sel(
                *old(self),
                next_selection(
                    old(self).state.project_state.selected,
                    old(self).twodo.projects@.len() as nat,
                ),
            ) && r == Ok::<Step, Error>(Step::Next(Message::ReloadTask)),
            !can_advance_project(*old(self)) ==> *final(self) == *old(self) && r == Ok::<
                Step,
                Error,
            >(Step::Next(Message::Noop)),
    {
        let len = self.twodo.projects.len();
        let advance = match self.state.project_state.selected {
            Option::Some(i) => i + 1 < len,
            Option::None => false,
        };
        if advance {
            self.state.project_state.select_next(len);
            Ok(Step::Next(Message::ReloadTask))
        } else {
            return_noop()
        }
    }

    /// Move the project cursor up and ask for a task reload.
    fn select_previous_project(&mut self) -> (r: Result<Step, Error>)
        requires
            old(self).inv(),
        ensures
            final(self).inv(),
            *final(self) == with_project_sel(
                *old(self),
                previous_selection(
                    old(self).state.project_state.selected,
                    old(self).twodo.projects@.len() as nat,
                ),
            ),
            r == Ok::<Step, Error>(Step::Next(Message::ReloadTask)),
    {
        let len = self.twodo.projects.len();
        self.state.project_state.select_previous(len);
        Ok(Step::Next(Message::ReloadTask))
    }

    /// Move the project cursor to the first row and ask for a reload.
    fn select_first_project(&mut self) -> (r: Result<Step, Error>)
        requires
            old(self).inv(),
        ensures
            final(self).inv(),
            *final(self) == with_project_sel(
                *old(self),
                first_selection(old(self).twodo.projects@.len() as nat),
            ),
            r == Ok::<Step, Error>(Step::Next(Message::ReloadTask)),
    {
        let len = self.twodo.projects.len();
        self.state.project_state.select_first(len);
        Ok(Step::Next(Message::ReloadTask))
    }

    /// Move the project cursor to the last row and ask for a reload.
    fn select_last_project(&mut self) -> (r: Result<Step, Error>)
        requires
            old(self).inv(),
        ensures
            final(self).inv(),
            *final(self) == with_project_sel(
                *old(self),
                last_selection(old(self).twodo.projects@.len() as nat),
            ),
            r == Ok::<Step, Error>(Step::Next(Message::ReloadTask)),
    {
        let len = self.twodo.projects.len();
        self.state.project_state.select_last(len);
        Ok(Step::Next(Message::ReloadTask))
    }

    /// Ask to delete the selected task; with no selection this is the
    /// missing-identifier error and nothing changes.
    fn delete_task(&mut self) -> (r: Result<Step, Error>)
        requires
            old(self).inv(),
        ensures
            *final(self) == *old(self),
            match old(self).state.task_state.selected {
                Option::None => r == Err::<Step, Error>(Error::MissingTaskId),
                Option::Some(i) => r == Ok::<Step, Error>(
                    Step::Next(
                        Message::TaskOp(
                            TaskOp::Delete(
                                TaskDeleteArg { id: old(self).twodo.tasks@[i as int].id },
                            ),
                        ),
                    ),
                ),
            },
    {
        match self.state.task_state.selected {
            Option::None => Err(Error::MissingTaskId),
            Option::Some(i) => {
                let id = self.twodo.tasks[i].id;
                Ok(Step::Next(Message::TaskOp(TaskOp::Delete(TaskDeleteArg { id }))))
            },
        }
    }

    /// Ask to flip the done flag of the selected task; with no
    /// selection this is the missing-identifier error.
    fn toggle_task_status(&mut self) -> (r: Result<Step, Error>)
        requires
            old(self).inv(),
        ensures
            *final(self) == *old(self),
            match old(self).state.task_state.selected {
                Option::None => r == Err::<Step, Error>(Error::MissingTaskId),
                Option::Some(i) => r == Ok::<Step, Error>(
                    Step::Next(
                        Message::TaskOp(
                            if old(self).twodo.tasks@[i as int].done {
                                TaskOp::UnDone(
                                    TaskDoneArg { id: old(self).twodo.tasks@[i as int].id },
                                )
                            } else {
                                TaskOp::Done(
                                    TaskDoneArg { id: old(self).twodo.tasks@[i as int].id },
                                )
                            },
                        ),
                    ),
                ),
            },
    {
        match self.state.task_state.selected {
            Option::None => Err(Error::MissingTaskId),
            Option::Some(i) => {
                let id = self.twodo.tasks[i].id;
                let op = if self.twodo.tasks[i].done {
                    TaskOp::UnDone(TaskDoneArg { id })
                } else {
                    TaskOp::Done(TaskDoneArg { id })
                };
                Ok(Step::Next(Message::TaskOp(op)))
            },
        }
    }

    /// Commit the add-task flow: needs a selected project, a non-empty
    /// trimmed title (else a silent no-op that changes nothing), and,
    /// for the sub-task and sibling flows, a selected task to derive
    /// the parent from.
    fn add_task_commit(&mut self) -> (r: Result<Step, Error>)
        requires
            old(self).inv(),
        ensures
            final(self).inv(),
            match old(self).state.project_state.selected {
                Option::None => *final(self) == *old(self) && r == Err::<Step, Error>(
                    Error::MissingProjectId,
                ),
                Option::Some(pi) => if spec_title(*old(self)).len() == 0 {
                    *final(self) == *old(self) && r == Ok::<Step, Error>(
                        Step::Next(Message::Noop),
                    )
                } else {
                    match old(self).state.task_state.selected {
                        Option::None => if needs_selected_task(old(self).mode.app_mode) {
                            *final(self) == *old(self) && r == Err::<Step, Error>(
                                Error::MissingTaskId,
                            )
                        } else {
                            committed_add_task(
                                *old(self),
                                *final(self),
                                r,
                                pi as int,
                                Option::<i64>::None,
                            )
                        },
                        Option::Some(ti) => committed_add_task(
                            *old(self),
                            *final(self),
                            r,
                            pi as int,
                            spec_parent_id(
                                old(self).mode.app_mode,
                                old(self).twodo.tasks@[ti as int],
                            ),
                        ),
                    }
                },
            },
    {
        let pi = match self.state.project_state.selected {
            Option::None => {
                return Err(Error::MissingProjectId);
            },
            Option::Some(i) => i,
        };
        let title_chars = trimmed(&self.popover.add_task.title);
        if title_chars.len() == 0 {
            return Ok(Step::Next(Message::Noop));
        }
        let selected: Option<&Task> = match self.state.task_state.selected {
            Option::None => Option::None,
            Option::Some(ti) => Option::Some(&self.twodo.tasks[ti]),
        };
        let parent_id = match derive_parent_id(&self.mode.app_mode, selected) {
            Ok(p) => p,
            Err(e) => {
                return Err(e);
            },
        };
        self.mode.app_mode = AppMode::FocusTask;
        let title = chars_to_string(&title_chars);
        let desc_chars = trimmed(&self.popover.add_task.description);
        let description = if desc_chars.len() == 0 {
            Option::None
        } else {
            Option::Some(chars_to_string(&desc_chars))
        };
        let project_id = self.twodo.projects[pi].id;
        Ok(
            Step::Next(
                Message::TaskOp(
                    TaskOp::Add(TaskAddArg { title, description, project_id, parent_id }),
                ),
            ),
        )
    }

    /// Commit the add-project flow: an empty trimmed name is a silent
    /// no-op; otherwise focus returns to the project list and the
    /// create command carries the trimmed name.
    fn add_project_commit(&mut self) -> (r: Result<Step, Error>)
        requires
            old(self).inv(),
        ensures
            final(self).inv(),
            if trim_spec(old(self).popover.add_project.name@).len() == 0 {
                *final(self) == *old(self) && r == Ok::<Step, Error>(Step::Next(Message::Noop))
            } else {
                *final(self) == with_app_mode(*old(self), AppMode::FocusProject) && (r matches Ok(
                    Step::Next(Message::ProjectOp(ProjectOp::Add(arg))),
                ) && arg.name@ == trim_spec(old(self).popover.add_project.name@))
            },
    {
        let name_chars = trimmed(&self.popover.add_project.name);
        if name_chars.len() == 0 {
            return Ok(Step::Next(Message::Noop));
        }
        self.mode.app_mode = AppMode::FocusProject;
        let name = chars_to_string(&name_chars);
        Ok(Step::Next(Message::ProjectOp(ProjectOp::Add(ProjectAddArg { name }))))
    }

    /// Replace the cached task list wholesale: reorder the records into
    /// preorder, keep the parallel depths, and force the task cursor
    /// back into bounds.
    pub fn install_tasks(&mut self, tasks: Vec<Task>)
        requires
            old(self).inv(),
            uniq_ids(tasks@),
        ensures
            final(self).inv(),
            final(self).mode == old(self).mode,
            final(self).popover == old(self).popover,
            final(self).twodo.projects == old(self).twodo.projects,
            final(self).state.project_state == old(self).state.project_state,
            final(self).twodo.tasks@.len() == reorder_spec(tasks@).len(),
            final(self).view_data.task_depth@.len() == reorder_spec(tasks@).len(),
            forall|k: int|
                0 <= k < reorder_spec(tasks@).len() ==> #[trigger] final(self).twodo.tasks@[k]
                    == tasks@[reorder_spec(tasks@)[k].0] && final(self).view_data.task_depth@[k]
                    as int == reorder_spec(tasks@)[k].1,
            final(self).state.task_state.selected == clamped_selection(
                old(self).state.task_state.selected,
                reorder_spec(tasks@).len() as nat,
            ),
    {
        let (ordered, depths) = reorder_tasks(tasks);
        self.twodo.tasks = ordered;
        self.view_data.task_depth = depths;
        let len = self.twodo.tasks.len();
        self.state.task_state.clamp(len);
    }

    /// Replace the cached project list wholesale and force the project
    /// cursor back into bounds.
    pub fn install_projects(&mut self, projects: Vec<crate::objects::Project>)
        requires
            old(self).inv(),
        ensures
            final(self).inv(),
            final(self).mode == old(self).mode,
            final(self).popover == old(self).popover,
            final(self).twodo.tasks == old(self).twodo.tasks,
            final(self).view_data == old(self).view_data,
            final(self).state.task_state == old(self).state.task_state,
            final(self).twodo.projects == projects,
            final(self).state.project_state.selected == clamped_selection(
                old(self).state.project_state.selected,
                projects@.len() as nat,
            ),
    {
        self.twodo.projects = projects;
        let len = self.twodo.projects.len();
        self.state.project_state.clamp(len);
    }
}

} // verus!
