use twodo::cli::{ProjectOp, TaskOp};
use twodo::update::{project_op_follow_up, task_op_follow_up};
use twodo::error::Error;
use twodo::message::Message;
use twodo::model::{AddTaskMode, App, AppMode};
use twodo::objects::{Project, Task};
use twodo::update::{Command, Step};

fn task(parent_id: Option<i64>, id: i64) -> Task {
    Task {
        id,
        title: format!("task {id}"),
        description: None,
        done: false,
        project_id: 1,
        parent_id,
    }
}

fn project(id: i64, name: &str) -> Project {
    Project { id, name: name.to_string() }
}

fn app_with(projects: Vec<Project>, tasks: Vec<Task>) -> App {
    let mut app = App::new();
    app.install_projects(projects);
    app.state.project_state.select_first(app.twodo.projects.len());
    app.install_tasks(tasks);
    app
}

fn type_chars(buf: &mut Vec<char>, text: &str) {
    for c in text.chars() {
        buf.push(c);
    }
}

#[test]
fn select_next_project_clamps_and_reloads_once() {
    // Moving the project cursor from index 0 to 1 asks for exactly one
    // reload; at the last valid index it must not advance again.
    let mut app = app_with(vec![project(1, "INBOX"), project(2, "work")], vec![]);
    assert_eq!(app.state.project_state.selected, Some(0));

    let step = app.update(Message::SelectNextProject).unwrap();
    assert_eq!(step, Step::Next(Message::ReloadTask));
    assert_eq!(app.state.project_state.selected, Some(1));

    let step = app.update(Message::SelectNextProject).unwrap();
    assert_eq!(step, Step::Next(Message::Noop));
    assert_eq!(app.state.project_state.selected, Some(1));
}

#[test]
fn empty_title_commit_is_silent_noop() {
    // Committing an add-task flow with a whitespace-only title leaves
    // the mode unchanged and produces no persistence command.
    let mut app = app_with(vec![project(1, "INBOX")], vec![]);
    app.update(Message::AddTaskBegin).unwrap();
    assert_eq!(app.mode.app_mode, AppMode::AddTask);
    type_chars(&mut app.popover.add_task.title, "   \t ");

    let step = app.update(Message::AddTaskCommit).unwrap();
    assert_eq!(step, Step::Next(Message::Noop));
    assert_eq!(app.mode.app_mode, AppMode::AddTask);
}

#[test]
fn delete_without_selection_is_missing_id() {
    // Deleting while nothing is selected yields the missing-identifier
    // error and leaves selection and mode unchanged.
    let mut app = app_with(vec![project(1, "INBOX")], vec![]);
    assert_eq!(app.state.task_state.selected, None);

    let r = app.update(Message::DeleteTask);
    assert!(matches!(r, Err(Error::MissingTaskId)));
    assert_eq!(app.state.task_state.selected, None);
    assert_eq!(app.mode.app_mode, AppMode::FocusTask);
}

#[test]
fn commit_trims_title_and_description() {
    let mut app = app_with(vec![project(3, "work")], vec![]);
    app.update(Message::AddTaskBegin).unwrap();
    type_chars(&mut app.popover.add_task.title, "  Buy milk  ");
    type_chars(&mut app.popover.add_task.description, "\n2 litres\n");

    let step = app.update(Message::AddTaskCommit).unwrap();
    assert_eq!(app.mode.app_mode, AppMode::FocusTask);
    match step {
        Step::Next(Message::TaskOp(TaskOp::Add(arg))) => {
            assert_eq!(arg.title, "Buy milk");
            assert_eq!(arg.description.as_deref(), Some("2 litres"));
            assert_eq!(arg.project_id, 3);
            assert_eq!(arg.parent_id, None);
        }
        other => panic!("unexpected step {other:?}"),
    }
}

#[test]
fn commit_without_project_is_missing_project() {
    let mut app = App::new();
    app.update(Message::AddTaskBegin).unwrap();
    type_chars(&mut app.popover.add_task.title, "orphan");
    let r = app.update(Message::AddTaskCommit);
    assert!(matches!(r, Err(Error::MissingProjectId)));
}

#[test]
fn sub_task_commit_uses_selected_task_as_parent() {
    let mut app = app_with(
        vec![project(1, "INBOX")],
        vec![task(None, 1), task(Some(1), 2)],
    );
    app.state.task_state.select_first(app.twodo.tasks.len());
    app.update(Message::AddSubTaskBegin).unwrap();
    type_chars(&mut app.popover.add_task.title, "child");

    let step = app.update(Message::AddTaskCommit).unwrap();
    match step {
        Step::Next(Message::TaskOp(TaskOp::Add(arg))) => {
            // The displayed order is [1, 2]; the first row is task 1.
            assert_eq!(arg.parent_id, Some(1));
        }
        other => panic!("unexpected step {other:?}"),
    }
}

#[test]
fn sibling_commit_shares_parent_of_selected_task() {
    let mut app = app_with(
        vec![project(1, "INBOX")],
        vec![task(None, 1), task(Some(1), 2)],
    );
    app.state.task_state.select_last(app.twodo.tasks.len());
    app.update(Message::AddSiblingTaskBegin).unwrap();
    type_chars(&mut app.popover.add_task.title, "sibling");

    let step = app.update(Message::AddTaskCommit).unwrap();
    match step {
        Step::Next(Message::TaskOp(TaskOp::Add(arg))) => {
            // The selected row is task 2, whose parent is 1.
            assert_eq!(arg.parent_id, Some(1));
        }
        other => panic!("unexpected step {other:?}"),
    }
}

#[test]
fn sibling_of_root_is_root() {
    let mut app = app_with(vec![project(1, "INBOX")], vec![task(None, 1)]);
    app.state.task_state.select_first(app.twodo.tasks.len());
    app.update(Message::AddSiblingTaskBegin).unwrap();
    type_chars(&mut app.popover.add_task.title, "another root");

    let step = app.update(Message::AddTaskCommit).unwrap();
    match step {
        Step::Next(Message::TaskOp(TaskOp::Add(arg))) => {
            assert_eq!(arg.parent_id, None);
        }
        other => panic!("unexpected step {other:?}"),
    }
}

#[test]
fn toggle_produces_done_then_undone() {
    let mut done_task = task(None, 5);
    done_task.done = true;
    let mut app = app_with(vec![project(1, "INBOX")], vec![task(None, 4)]);
    app.state.task_state.select_first(app.twodo.tasks.len());

    let step = app.update(Message::ToggleTaskStatus).unwrap();
    assert_eq!(
        step,
        Step::Next(Message::TaskOp(TaskOp::Done(twodo::cli::TaskDoneArg { id: 4 })))
    );

    app.install_tasks(vec![done_task]);
    let step = app.update(Message::ToggleTaskStatus).unwrap();
    assert_eq!(
        step,
        Step::Next(Message::TaskOp(TaskOp::UnDone(twodo::cli::TaskDoneArg { id: 5 })))
    );
}

#[test]
fn toggle_without_selection_is_missing_id() {
    let mut app = app_with(vec![project(1, "INBOX")], vec![]);
    let r = app.update(Message::ToggleTaskStatus);
    assert!(matches!(r, Err(Error::MissingTaskId)));
}

#[test]
fn reload_task_needs_selected_project() {
    let mut app = App::new();
    let r = app.update(Message::ReloadTask);
    assert!(matches!(r, Err(Error::MissingProjectId)));

    let mut app = app_with(vec![project(9, "errands")], vec![]);
    let step = app.update(Message::ReloadTask).unwrap();
    assert_eq!(step, Step::Dispatch(Command::LoadTasks(9)));
}

#[test]
fn task_and_project_ops_are_dispatched() {
    let mut app = app_with(vec![project(1, "INBOX")], vec![]);
    let op = TaskOp::Delete(twodo::cli::TaskDeleteArg { id: 8 });
    let step = app.update(Message::TaskOp(op.clone())).unwrap();
    assert_eq!(step, Step::Dispatch(Command::TaskStore(op)));

    let pop = ProjectOp::List;
    let step = app.update(Message::ProjectOp(pop.clone())).unwrap();
    assert_eq!(step, Step::Dispatch(Command::ProjectStore(pop)));

    let step = app.update(Message::ReloadProject).unwrap();
    assert_eq!(step, Step::Dispatch(Command::LoadProjects));
}

#[test]
fn quit_is_terminal_mode() {
    let mut app = app_with(vec![project(1, "INBOX")], vec![]);
    let step = app.update(Message::Quit).unwrap();
    assert_eq!(step, Step::Next(Message::Noop));
    assert_eq!(app.mode.app_mode, AppMode::Quit);
}

#[test]
fn add_project_commit_carries_trimmed_name() {
    let mut app = app_with(vec![project(1, "INBOX")], vec![]);
    app.update(Message::AddProjectBegin).unwrap();
    assert_eq!(app.mode.app_mode, AppMode::AddProject);
    type_chars(&mut app.popover.add_project.name, "  errands ");

    let step = app.update(Message::AddProjectCommit).unwrap();
    assert_eq!(app.mode.app_mode, AppMode::FocusProject);
    match step {
        Step::Next(Message::ProjectOp(ProjectOp::Add(arg))) => {
            assert_eq!(arg.name, "errands");
        }
        other => panic!("unexpected step {other:?}"),
    }
}

#[test]
fn add_project_commit_empty_name_is_noop() {
    let mut app = app_with(vec![project(1, "INBOX")], vec![]);
    app.update(Message::AddProjectBegin).unwrap();
    type_chars(&mut app.popover.add_project.name, "   ");
    let step = app.update(Message::AddProjectCommit).unwrap();
    assert_eq!(step, Step::Next(Message::Noop));
    assert_eq!(app.mode.app_mode, AppMode::AddProject);
}

#[test]
fn abort_discards_buffers() {
    let mut app = app_with(vec![project(1, "INBOX")], vec![]);
    app.update(Message::AddTaskBegin).unwrap();
    type_chars(&mut app.popover.add_task.title, "half-typed");
    app.update(Message::AddTaskAbort).unwrap();
    assert_eq!(app.mode.app_mode, AppMode::FocusTask);
    assert!(app.popover.add_task.title.is_empty());

    // Beginning a new flow starts from clean buffers too.
    type_chars(&mut app.popover.add_task.title, "leftover");
    app.update(Message::AddTaskBegin).unwrap();
    assert!(app.popover.add_task.title.is_empty());
}

#[test]
fn begin_add_task_chains_to_title_focus() {
    let mut app = app_with(vec![project(1, "INBOX")], vec![]);
    let step = app.update(Message::AddTaskBegin).unwrap();
    assert_eq!(step, Step::Next(Message::FocusAddTaskTitle));
    let step = app.update(Message::FocusAddTaskTitle).unwrap();
    assert_eq!(step, Step::Next(Message::Noop));
    assert_eq!(app.mode.add_task_mode, AddTaskMode::AddTitle);
}

#[test]
fn install_tasks_reorders_and_clamps_cursor() {
    let mut app = app_with(
        vec![project(1, "INBOX")],
        vec![task(None, 1), task(None, 2), task(None, 3)],
    );
    app.state.task_state.select_last(app.twodo.tasks.len());
    assert_eq!(app.state.task_state.selected, Some(2));

    // The reload shrinks the list: the cursor is pulled back in bounds.
    app.install_tasks(vec![task(None, 9)]);
    assert_eq!(app.twodo.tasks.len(), 1);
    assert_eq!(app.view_data.task_depth, vec![0]);
    assert_eq!(app.state.task_state.selected, Some(0));

    // An empty reload resets it.
    app.install_tasks(vec![]);
    assert_eq!(app.state.task_state.selected, None);
}

#[test]
fn task_cursor_moves_clamped() {
    let mut app = app_with(
        vec![project(1, "INBOX")],
        vec![task(None, 1), task(None, 2)],
    );
    app.update(Message::SelectNextTask).unwrap();
    assert_eq!(app.state.task_state.selected, Some(0));
    app.update(Message::SelectNextTask).unwrap();
    assert_eq!(app.state.task_state.selected, Some(1));
    app.update(Message::SelectNextTask).unwrap();
    assert_eq!(app.state.task_state.selected, Some(1));
    app.update(Message::SelectPrevTask).unwrap();
    assert_eq!(app.state.task_state.selected, Some(0));
    app.update(Message::SelectPrevTask).unwrap();
    assert_eq!(app.state.task_state.selected, Some(0));
    app.update(Message::SelectLastTask).unwrap();
    assert_eq!(app.state.task_state.selected, Some(1));
    app.update(Message::SelectFirstTask).unwrap();
    assert_eq!(app.state.task_state.selected, Some(0));
}

#[test]
fn message_noop_sentinel() {
    assert!(Message::Noop.is_noop());
    assert!(!Message::Quit.is_noop());
}

#[test]
fn follow_ups_reload_after_mutations() {
    let list = TaskOp::List(twodo::cli::TaskListArg { project_id: Some(1), number: None });
    assert_eq!(task_op_follow_up(&list), Message::Noop);
    let del = TaskOp::Delete(twodo::cli::TaskDeleteArg { id: 1 });
    assert_eq!(task_op_follow_up(&del), Message::ReloadTask);
    assert_eq!(project_op_follow_up(&ProjectOp::List), Message::Noop);
    let padd = ProjectOp::Add(twodo::cli::ProjectAddArg { name: "p".to_string() });
    assert_eq!(project_op_follow_up(&padd), Message::ReloadProject);
}

#[test]
fn return_noop_ends_chain() {
    let r = twodo::update::return_noop().unwrap();
    assert_eq!(r, Step::Next(Message::Noop));
}

#[test]
fn custom_error_carries_its_text() {
    let e = twodo::error::Error::custom("storage unavailable".to_string());
    assert!(matches!(e, Error::Custom(s) if s == "storage unavailable"));
}
