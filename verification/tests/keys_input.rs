use twodo::keys::{
    on_focus_project_key_event, on_focus_task_key_event, on_global_key_event, Key, KeyPress,
};
use twodo::message::Message;
use twodo::model::{App, AppMode};

fn press(code: Key) -> KeyPress {
    KeyPress { code, ctrl: false }
}

fn ctrl(code: Key) -> KeyPress {
    KeyPress { code, ctrl: true }
}

#[test]
fn global_keys_quit_and_switch_focus() {
    assert_eq!(on_global_key_event(press(Key::Esc)), Message::Quit);
    assert_eq!(on_global_key_event(press(Key::Char('q'))), Message::Quit);
    assert_eq!(on_global_key_event(ctrl(Key::Char('c'))), Message::Quit);
    assert_eq!(on_global_key_event(ctrl(Key::Char('C'))), Message::Quit);
    assert_eq!(on_global_key_event(press(Key::Char('c'))), Message::Noop);
    assert_eq!(on_global_key_event(press(Key::Char('1'))), Message::FocusProject);
    assert_eq!(on_global_key_event(press(Key::Char('2'))), Message::FocusTask);
    assert_eq!(on_global_key_event(press(Key::Other)), Message::Noop);
}

#[test]
fn task_focus_bindings() {
    assert_eq!(on_focus_task_key_event(press(Key::Char('j'))), Message::SelectNextTask);
    assert_eq!(on_focus_task_key_event(press(Key::Char('k'))), Message::SelectPrevTask);
    assert_eq!(on_focus_task_key_event(press(Key::Char('g'))), Message::SelectFirstTask);
    assert_eq!(on_focus_task_key_event(press(Key::Char('G'))), Message::SelectLastTask);
    assert_eq!(on_focus_task_key_event(press(Key::Tab)), Message::FocusProject);
    assert_eq!(on_focus_task_key_event(press(Key::Char('i'))), Message::AddTaskBegin);
    assert_eq!(on_focus_task_key_event(press(Key::Char('s'))), Message::AddSubTaskBegin);
    assert_eq!(on_focus_task_key_event(press(Key::Char('a'))), Message::AddSiblingTaskBegin);
    assert_eq!(on_focus_task_key_event(press(Key::Char('x'))), Message::DeleteTask);
    assert_eq!(on_focus_task_key_event(press(Key::Char('r'))), Message::ReloadTask);
    assert_eq!(on_focus_task_key_event(press(Key::Char(' '))), Message::ToggleTaskStatus);
    assert_eq!(on_focus_task_key_event(press(Key::Char('q'))), Message::Quit);
}

#[test]
fn project_focus_bindings() {
    assert_eq!(on_focus_project_key_event(press(Key::Char('j'))), Message::SelectNextProject);
    assert_eq!(on_focus_project_key_event(press(Key::Char('k'))), Message::SelectPrevProject);
    assert_eq!(on_focus_project_key_event(press(Key::Char('g'))), Message::SelectFirstProject);
    assert_eq!(on_focus_project_key_event(press(Key::Char('G'))), Message::SelectLastProject);
    assert_eq!(on_focus_project_key_event(press(Key::Tab)), Message::FocusTask);
    assert_eq!(on_focus_project_key_event(press(Key::Char('i'))), Message::AddProjectBegin);
    assert_eq!(on_focus_project_key_event(press(Key::Esc)), Message::Quit);
}

#[test]
fn mode_routes_key_dispatch() {
    let mut app = App::new();
    assert_eq!(app.on_key_event(press(Key::Char('j'))), Message::SelectNextTask);
    app.mode.app_mode = AppMode::FocusProject;
    assert_eq!(app.on_key_event(press(Key::Char('j'))), Message::SelectNextProject);
}

#[test]
fn text_entry_edits_title_buffer() {
    let mut app = App::new();
    app.mode.app_mode = AppMode::AddTask;
    for c in ['h', 'i', '!'] {
        assert_eq!(app.on_key_event(press(Key::Char(c))), Message::Noop);
    }
    assert_eq!(app.popover.add_task.title.iter().collect::<String>(), "hi!");
    assert_eq!(app.on_key_event(press(Key::Backspace)), Message::Noop);
    assert_eq!(app.popover.add_task.title.iter().collect::<String>(), "hi");
    // Enter does not break the single-line title.
    assert_eq!(app.on_key_event(press(Key::Enter)), Message::Noop);
    assert_eq!(app.popover.add_task.title.iter().collect::<String>(), "hi");
}

#[test]
fn text_entry_tab_switches_fields() {
    let mut app = App::new();
    app.mode.app_mode = AppMode::AddTask;
    assert_eq!(app.on_key_event(press(Key::Tab)), Message::FocusAddTaskDescription);
    app.mode.add_task_mode = twodo::model::AddTaskMode::AddDescription;
    assert_eq!(app.on_key_event(press(Key::Tab)), Message::FocusAddTaskTitle);
    // The description takes line breaks.
    assert_eq!(app.on_key_event(press(Key::Char('a'))), Message::Noop);
    assert_eq!(app.on_key_event(press(Key::Enter)), Message::Noop);
    assert_eq!(app.on_key_event(press(Key::Char('b'))), Message::Noop);
    assert_eq!(app.popover.add_task.description.iter().collect::<String>(), "a\nb");
}

#[test]
fn text_entry_abort_and_commit_keys() {
    let mut app = App::new();
    app.mode.app_mode = AppMode::AddTask;
    assert_eq!(app.on_key_event(press(Key::Esc)), Message::AddTaskAbort);
    assert_eq!(app.on_key_event(ctrl(Key::Char('c'))), Message::AddTaskAbort);
    assert_eq!(app.on_key_event(ctrl(Key::Char(' '))), Message::AddTaskCommit);
    // A plain space is text, not a commit.
    assert_eq!(app.on_key_event(press(Key::Char(' '))), Message::Noop);
    assert_eq!(app.popover.add_task.title, vec![' ']);

    app.mode.app_mode = AppMode::AddProject;
    assert_eq!(app.on_key_event(press(Key::Esc)), Message::AddProjectAbort);
    assert_eq!(app.on_key_event(ctrl(Key::Char(' '))), Message::AddProjectCommit);
    assert_eq!(app.on_key_event(press(Key::Tab)), Message::FocusAddProjectName);
    assert_eq!(app.on_key_event(press(Key::Char('p'))), Message::Noop);
    assert_eq!(app.popover.add_project.name, vec!['p']);
}
