use gtab::app::{total_directory_rows, App, BrowserMode, Dialog, StatusKind, TuiExit};
use gtab::config::Config;
use gtab::env::AppEnv;
use gtab::geometry::Rect;
use gtab::input::Action;
use gtab::key::{
    is_text_input, shortcut_key_name, shortcut_string_for_key_event, KeyCode, KeyEvent,
    KeyModifiers, MouseEvent, MouseEventKind,
};
use gtab::session::{
    display_path, input_source_warning, launch_warning_from_tui, Event, Next, Outcome,
};
use gtab::shortcut::{
    GhosttyShortcutApplyResult, GhosttyShortcutApplyStatus, GhosttyShortcutSync,
};
use gtab::workspace::{SavedDirectory, Workspace};

const NOW: u64 = 10_000;

fn workspace(name: &str) -> Workspace {
    Workspace {
        name: name.to_string(),
        path: format!("/tmp/{name}.applescript"),
        tabs: vec![],
        layout: vec![],
    }
}

fn directory(name: &str) -> SavedDirectory {
    SavedDirectory {
        name: name.to_string(),
        path: format!("/tmp/{name}"),
    }
}

fn workspaces(names: &[&str]) -> App {
    App::new(names.iter().map(|name| workspace(name)).collect(), vec![])
}

fn directories(count: usize) -> App {
    let mut app = App::new(
        vec![],
        (0..count).map(|i| directory(&format!("d{i:02}"))).collect(),
    );
    app.mode = BrowserMode::Directory;
    app
}

fn env() -> AppEnv {
    AppEnv {
        base_dir: "/tmp/gtab".to_string(),
        config_file: "/tmp/gtab/config".to_string(),
        config: Config {
            close_tab: true,
            ghostty_shortcut: "cmd+g".to_string(),
        },
    }
}

fn pressed(code: KeyCode) -> KeyEvent {
    KeyEvent {
        code,
        modifiers: KeyModifiers::none(),
    }
}

fn with_control(code: KeyCode) -> KeyEvent {
    let mut key = pressed(code);
    key.modifiers.control = true;
    key
}

fn mouse(kind: MouseEventKind, column: u16, row: u16) -> MouseEvent {
    MouseEvent { kind, column, row }
}

fn status(app: &App) -> &str {
    match &app.status {
        Some(status) => status.text.as_str(),
        None => "",
    }
}

fn key(app: &mut App, code: KeyCode) -> Action {
    app.handle_key(pressed(code), &env(), Some("/work"), NOW)
        .unwrap()
}

#[test]
fn filters_ignore_case() {
    let mut app = workspaces(&["Alpha", "beta", "GAMMA", "Ärger"]);
    app.filter = "A".to_string();
    assert_eq!(app.visible_indices(), vec![0, 1, 2]);
    app.filter = "ä".to_string();
    assert_eq!(app.visible_indices(), vec![3]);
    app.filter = String::new();
    assert_eq!(app.visible_indices(), vec![0, 1, 2, 3]);
    app.filter = "zzz".to_string();
    assert!(app.visible_indices().is_empty());
    assert!(app.selected_workspace().is_none());
}

#[test]
fn control_c_quits_from_everywhere() {
    for dialog in [
        Dialog::Closed,
        Dialog::SaveWorkspace,
        Dialog::SaveDirectory,
        Dialog::RenameWorkspace,
        Dialog::RenameDirectory,
        Dialog::ConfirmDeleteWorkspace,
        Dialog::ConfirmDeleteDirectory,
        Dialog::Settings,
        Dialog::EditGhosttyShortcut,
        Dialog::Help,
    ] {
        let mut app = workspaces(&["a"]);
        app.dialog = dialog;
        assert_eq!(
            app.handle_key(with_control(KeyCode::Char('c')), &env(), None, NOW)
                .unwrap(),
            Action::Quit
        );
    }
}

#[test]
fn selection_stops_at_the_ends() {
    let mut app = workspaces(&["a", "b", "c"]);
    key(&mut app, KeyCode::Up);
    assert_eq!(app.selected, 0);
    key(&mut app, KeyCode::Char('j'));
    key(&mut app, KeyCode::Char('s'));
    key(&mut app, KeyCode::Down);
    assert_eq!(app.selected, 2);
    key(&mut app, KeyCode::Char('k'));
    key(&mut app, KeyCode::Char('w'));
    assert_eq!(app.selected, 0);
    key(&mut app, KeyCode::End);
    assert_eq!(app.selected, 2);
    key(&mut app, KeyCode::Home);
    assert_eq!(app.selected, 0);
    key(&mut app, KeyCode::Char('G'));
    assert_eq!(app.selected, 2);
    app.move_selection(i64::MIN);
    assert_eq!(app.selected, 0);
    app.move_selection_wrapping(-4);
    assert_eq!(app.selected, 2);
    app.move_selection_wrapping(i64::MAX);
    assert_eq!(app.selected, 0);
}

#[test]
fn pages_go_by_the_height_of_the_list() {
    let names: Vec<String> = (0..30).map(|i| format!("w{i:02}")).collect();
    let mut app = App::new(names.iter().map(|name| workspace(name)).collect(), vec![]);
    app.list_area = Rect::new(0, 0, 20, 11);
    key(&mut app, KeyCode::PageDown);
    assert_eq!(app.selected, 10);
    app.list_area = Rect::new(0, 0, 20, 3);
    key(&mut app, KeyCode::PageDown);
    assert_eq!(app.selected, 15);
    key(&mut app, KeyCode::PageUp);
    assert_eq!(app.selected, 10);
}

#[test]
fn sideways_keys_move_in_the_grid_only() {
    let mut app = directories(4);
    app.list_area = Rect::new(0, 0, 40, 4);
    key(&mut app, KeyCode::Right);
    assert_eq!(app.selected, 1);
    key(&mut app, KeyCode::Left);
    assert_eq!(app.selected, 0);
    let mut app = workspaces(&["a", "b"]);
    key(&mut app, KeyCode::Right);
    assert_eq!(app.selected, 0);
}

#[test]
fn grid_adapts_to_the_width() {
    let mut app = directories(10);
    app.list_area = Rect::new(0, 0, 40, 4);
    let metrics = app.directory_grid_metrics();
    assert_eq!(
        (metrics.columns, metrics.rows_per_page, metrics.cell_width),
        (2, 4, 14)
    );
    app.list_area = Rect::new(0, 0, 5, 0);
    let metrics = app.directory_grid_metrics();
    assert_eq!(
        (metrics.columns, metrics.rows_per_page, metrics.cell_width),
        (1, 1, 5)
    );
    app.directories.push(directory(&"x".repeat(40)));
    app.list_area = Rect::new(0, 0, 100, 4);
    let metrics = app.directory_grid_metrics();
    assert_eq!((metrics.columns, metrics.cell_width), (3, 26));
    assert_eq!(total_directory_rows(0, 3), 0);
    assert_eq!(total_directory_rows(7, 3), 3);
    assert_eq!(total_directory_rows(6, 3), 2);
    assert_eq!(total_directory_rows(6, 0), 6);
}

#[test]
fn grid_scrolls_to_the_selection() {
    let mut app = directories(20);
    app.list_area = Rect::new(0, 0, 40, 3);
    app.selected = 19;
    app.ensure_directory_selection_visible();
    assert_eq!(app.list_offset, 7);
    app.selected = 2;
    app.ensure_directory_selection_visible();
    assert_eq!(app.list_offset, 1);
    app.list_offset = 50;
    app.clamp_directory_offset();
    assert_eq!(app.list_offset, 7);
    key(&mut app, KeyCode::PageDown);
    assert_eq!(app.selected, 8);
}

#[test]
fn clicks_hit_the_cell_that_is_drawn() {
    let mut app = directories(20);
    app.list_area = Rect::new(3, 5, 40, 3);
    app.list_offset = 2;
    for row in 0..3_u16 {
        for column in 0..2_u16 {
            for inside in 0..14_u16 {
                assert_eq!(
                    app.list_index_at(3 + column * 16 + inside, 5 + row),
                    Some((2 + row as usize) * 2 + column as usize)
                );
            }
        }
        assert_eq!(app.list_index_at(3 + 14, 5 + row), None);
    }
    assert_eq!(app.list_index_at(2, 5), None);
    assert_eq!(app.list_index_at(3, 8), None);
}

#[test]
fn slow_clicks_are_no_double_click() {
    let mut app = workspaces(&["a", "b"]);
    app.list_area = Rect::new(0, 0, 20, 5);
    let click = mouse(MouseEventKind::LeftDown, 1, 1);
    assert_eq!(app.handle_mouse(click, &env(), 1000), Action::Nothing);
    assert_eq!(status(&app), "Selected \"b\"");
    assert_eq!(app.handle_mouse(click, &env(), 1351), Action::Nothing);
    assert_eq!(
        app.handle_mouse(click, &env(), 1701),
        Action::LaunchWorkspace("b".to_string())
    );
    assert_eq!(
        key(&mut app, KeyCode::Enter),
        Action::LaunchWorkspace("b".to_string())
    );
}

#[test]
fn other_clicks_forget_the_first() {
    let mut app = workspaces(&["a", "b"]);
    app.list_area = Rect::new(0, 0, 20, 5);
    let click = mouse(MouseEventKind::LeftDown, 1, 1);
    app.handle_mouse(click, &env(), 1000);
    app.handle_mouse(mouse(MouseEventKind::LeftDown, 1, 4), &env(), 1001);
    assert_eq!(app.handle_mouse(click, &env(), 1002), Action::Nothing);
    app.handle_mouse(mouse(MouseEventKind::ScrollUp, 1, 1), &env(), 1003);
    assert_eq!(app.selected, 0);
    app.handle_mouse(mouse(MouseEventKind::ScrollDown, 1, 1), &env(), 1003);
    assert_eq!(app.selected, 1);
    app.handle_mouse(mouse(MouseEventKind::ScrollUp, 30, 1), &env(), 1003);
    assert_eq!(app.selected, 1);
    assert_eq!(app.handle_mouse(click, &env(), 1004), Action::Nothing);
    app.dialog = Dialog::Help;
    assert_eq!(app.handle_mouse(click, &env(), 1005), Action::Nothing);
    assert_eq!(
        app.handle_mouse(mouse(MouseEventKind::Other, 1, 1), &env(), 1005),
        Action::Nothing
    );
}

#[test]
fn escape_brings_back_the_filter_before() {
    let mut app = workspaces(&["alpha", "beta"]);
    app.filter = "a".to_string();
    key(&mut app, KeyCode::Char('/'));
    for code in [
        KeyCode::Char('l'),
        KeyCode::Backspace,
        KeyCode::Backspace,
        KeyCode::Char('z'),
        KeyCode::Down,
        KeyCode::Tab,
        KeyCode::PageDown,
    ] {
        key(&mut app, code);
    }
    assert_eq!(app.filter, "z");
    key(&mut app, KeyCode::Esc);
    assert_eq!(app.filter, "a");
    assert!(!app.search_active());
    assert_eq!(app.selected, 0);
}

#[test]
fn control_letters_move_in_a_search() {
    let mut app = workspaces(&["a", "b", "c"]);
    app.begin_search(None);
    app.handle_search_key(with_control(KeyCode::Char('J')), NOW);
    assert_eq!(app.selected, 1);
    app.handle_search_key(with_control(KeyCode::Char('P')), NOW);
    assert_eq!(app.selected, 0);
    app.handle_search_key(with_control(KeyCode::Char('x')), NOW);
    assert!(app.filter.is_empty());
}

#[test]
fn names_are_trimmed_before_they_are_saved() {
    let mut app = workspaces(&["a"]);
    key(&mut app, KeyCode::Char('a'));
    assert_eq!(app.dialog, Dialog::SaveWorkspace);
    for c in " new ".chars() {
        key(&mut app, KeyCode::Char(c));
    }
    key(&mut app, KeyCode::Char('x'));
    key(&mut app, KeyCode::Backspace);
    assert_eq!(app.save_input, " new ");
    assert_eq!(
        key(&mut app, KeyCode::Enter),
        Action::SaveWorkspace("new".to_string())
    );
    key(&mut app, KeyCode::Esc);
    assert_eq!(app.dialog, Dialog::Closed);
    assert!(app.save_input.is_empty());
}

#[test]
fn directories_are_saved_from_where_the_user_is() {
    let mut app = directories(1);
    key(&mut app, KeyCode::Char('a'));
    assert_eq!(key(&mut app, KeyCode::Enter), Action::Nothing);
    assert_eq!(status(&app), "Directory name cannot be empty");
    key(&mut app, KeyCode::Char('x'));
    assert_eq!(
        key(&mut app, KeyCode::Enter),
        Action::SaveDirectory("x".to_string(), "/work".to_string())
    );
    assert_eq!(
        app.handle_key(pressed(KeyCode::Enter), &env(), None, NOW)
            .unwrap_err()
            .message(),
        "failed to resolve current directory"
    );
}

#[test]
fn directories_are_renamed_and_deleted() {
    let mut app = directories(2);
    key(&mut app, KeyCode::Char('n'));
    assert_eq!(key(&mut app, KeyCode::Enter), Action::Nothing);
    assert_eq!(status(&app), "Directory name unchanged");
    key(&mut app, KeyCode::Char('n'));
    key(&mut app, KeyCode::Char('x'));
    assert_eq!(
        key(&mut app, KeyCode::Enter),
        Action::RenameDirectory("d00".to_string(), "d00x".to_string())
    );
    app.rename_input = "  ".to_string();
    assert_eq!(key(&mut app, KeyCode::Enter), Action::Nothing);
    assert_eq!(status(&app), "Directory name cannot be empty");
    key(&mut app, KeyCode::Esc);
    key(&mut app, KeyCode::Char('d'));
    assert_eq!(app.dialog, Dialog::ConfirmDeleteDirectory);
    assert_eq!(key(&mut app, KeyCode::Char('x')), Action::Nothing);
    assert_eq!(
        key(&mut app, KeyCode::Char('y')),
        Action::DeleteDirectory("d00".to_string())
    );
    key(&mut app, KeyCode::Char('n'));
    assert_eq!(app.dialog, Dialog::Closed);
}

#[test]
fn workspaces_are_deleted_and_edited() {
    let mut app = workspaces(&["a"]);
    key(&mut app, KeyCode::Char('d'));
    assert_eq!(
        key(&mut app, KeyCode::Enter),
        Action::DeleteWorkspace("a".to_string())
    );
    app.filter = "zzz".to_string();
    assert_eq!(key(&mut app, KeyCode::Enter), Action::Nothing);
    assert_eq!(app.dialog, Dialog::Closed);
    app.filter = String::new();
    assert_eq!(
        key(&mut app, KeyCode::Char('e')),
        Action::EditWorkspace("a".to_string())
    );
    assert_eq!(key(&mut app, KeyCode::Char('r')), Action::Refresh);
    key(&mut app, KeyCode::Char('t'));
    assert_eq!(app.dialog, Dialog::Settings);
    key(&mut app, KeyCode::Char('g'));
    assert_eq!(app.dialog, Dialog::EditGhosttyShortcut);
    assert_eq!(app.shortcut_return_dialog, Dialog::Settings);
    key(&mut app, KeyCode::Esc);
    key(&mut app, KeyCode::Enter);
    key(&mut app, KeyCode::Char('?'));
    assert_eq!(app.dialog, Dialog::Help);
    key(&mut app, KeyCode::Char('q'));
    assert_eq!(app.dialog, Dialog::Closed);
}

#[test]
fn workspace_keys_do_nothing_among_directories() {
    let mut app = directories(1);
    for c in ['e', 'g', 't'] {
        assert_eq!(key(&mut app, KeyCode::Char(c)), Action::Nothing);
        assert_eq!(app.dialog, Dialog::Closed);
    }
    key(&mut app, KeyCode::Char('f'));
    assert_eq!(app.mode, BrowserMode::Workspace);
    assert_eq!(status(&app), "Switched to workspace space");
}

#[test]
fn shortcuts_are_typed_or_pressed() {
    let mut app = workspaces(&["a"]);
    key(&mut app, KeyCode::Char('g'));
    key(&mut app, KeyCode::Backspace);
    assert_eq!(app.shortcut_input, "cmd+");
    key(&mut app, KeyCode::Char('k'));
    assert_eq!(app.shortcut_input, "cmd+k");
    assert_eq!(
        key(&mut app, KeyCode::Enter),
        Action::SetGhosttyShortcut("cmd+k".to_string())
    );
    key(&mut app, KeyCode::Up);
    assert_eq!(app.shortcut_input, "up");
    app.shortcut_input = " ".to_string();
    assert_eq!(key(&mut app, KeyCode::Enter), Action::Nothing);
    assert_eq!(status(&app), "Ghostty shortcut cannot be empty");
}

#[test]
fn keys_have_names() {
    let name = |code| shortcut_key_name(code);
    assert_eq!(name(KeyCode::Char('Z')).as_deref(), Some("z"));
    assert_eq!(name(KeyCode::Char(' ')).as_deref(), Some("space"));
    assert_eq!(name(KeyCode::Char('{')).as_deref(), Some("["));
    assert_eq!(name(KeyCode::Char('"')).as_deref(), Some("'"));
    assert_eq!(name(KeyCode::Char('7')).as_deref(), Some("7"));
    assert_eq!(name(KeyCode::Char('ä')), None);
    assert_eq!(name(KeyCode::BackTab).as_deref(), Some("tab"));
    assert_eq!(name(KeyCode::Home), None);
    assert_eq!(
        shortcut_string_for_key_event(pressed(KeyCode::Char('g'))),
        None
    );
    let mut key = pressed(KeyCode::Char('g'));
    key.modifiers.control = true;
    key.modifiers.alt = true;
    key.modifiers.command = true;
    assert_eq!(
        shortcut_string_for_key_event(key).as_deref(),
        Some("cmd+ctrl+alt+g")
    );
    assert!(is_text_input(KeyModifiers::none()));
    assert!(!is_text_input(key.modifiers));
}

#[test]
fn status_lines_go_after_four_seconds() {
    let mut app = workspaces(&["a"]);
    app.expire_status(u64::MAX);
    assert!(app.status.is_some());
    app.set_error("broken", 1000);
    app.expire_status(4999);
    assert_eq!(status(&app), "broken");
    assert_eq!(app.status.as_ref().unwrap().kind, StatusKind::Error);
    app.expire_status(5000);
    assert!(app.status.is_none());
}

#[test]
fn events_lead_to_actions() {
    let mut app = workspaces(&["a"]);
    assert!(matches!(
        app.take_event(Event::Other, &env(), None, NOW),
        Ok(Next::Wait)
    ));
    assert!(matches!(
        app.take_event(Event::Press(pressed(KeyCode::Char('q'))), &env(), None, NOW),
        Ok(Next::Exit)
    ));
    assert!(matches!(
        app.take_event(Event::Press(pressed(KeyCode::Enter)), &env(), None, NOW),
        Ok(Next::Perform(Action::LaunchWorkspace(name))) if name == "a"
    ));
    assert!(matches!(
        app.take_event(
            Event::Mouse(mouse(MouseEventKind::ScrollDown, 0, 0)),
            &env(),
            None,
            NOW
        ),
        Ok(Next::Wait)
    ));
}

#[test]
fn outcomes_are_shown() {
    let home = Some("/home/me");
    let mut app = workspaces(&["a"]);
    app.dialog = Dialog::SaveWorkspace;
    assert!(app
        .complete(
            Outcome::WorkspaceSaved {
                name: "b".to_string(),
                path: "/home/me/b".to_string(),
                workspaces: vec![workspace("a"), workspace("b")],
            },
            &env(),
            home,
            NOW
        )
        .is_none());
    assert_eq!(app.dialog, Dialog::Closed);
    assert_eq!(app.selected, 1);
    assert_eq!(status(&app), "Saved workspace \"b\" to ~/b");

    app.complete(
        Outcome::WorkspaceRenamed {
            old_name: "a".to_string(),
            new_name: "c".to_string(),
            workspaces: vec![workspace("b"), workspace("c")],
        },
        &env(),
        home,
        NOW,
    );
    assert_eq!(status(&app), "Renamed workspace \"a\" to \"c\"");
    assert_eq!(app.selected, 1);

    app.complete(
        Outcome::WorkspaceEdited {
            name: "b".to_string(),
            workspaces: vec![workspace("b"), workspace("c")],
        },
        &env(),
        home,
        NOW,
    );
    assert_eq!(status(&app), "Closed editor for \"b\"");
    assert_eq!(app.selected, 0);

    app.selected = 1;
    app.complete(
        Outcome::WorkspaceRemoved {
            name: "c".to_string(),
            workspaces: vec![workspace("b")],
        },
        &env(),
        home,
        NOW,
    );
    assert_eq!(status(&app), "Removed workspace \"c\"");
    assert_eq!(app.selected, 0);

    app.complete(
        Outcome::Refreshed(vec![], vec![directory("x")]),
        &env(),
        home,
        NOW,
    );
    assert_eq!(status(&app), "Reloaded list");
    app.complete(Outcome::Failed("no".to_string()), &env(), home, NOW);
    assert_eq!(status(&app), "no");
    app.complete(Outcome::CloseTabSet, &env(), home, NOW);
    assert_eq!(status(&app), "close_tab = on");
    assert_eq!(
        app.complete(Outcome::WorkspaceLaunched, &env(), home, NOW),
        Some(TuiExit::Nothing)
    );
    assert_eq!(
        app.complete(
            Outcome::DirectoryFound("/tmp".to_string()),
            &env(),
            home,
            NOW
        ),
        Some(TuiExit::ReplaceSplit("/tmp".to_string()))
    );
}

#[test]
fn outcomes_of_directories_are_shown() {
    let mut app = directories(1);
    app.complete(
        Outcome::DirectorySaved {
            name: "d01".to_string(),
            path: "/tmp/d01".to_string(),
            directories: vec![directory("d00"), directory("d01")],
        },
        &env(),
        Some("/home/me"),
        NOW,
    );
    assert_eq!(status(&app), "Saved directory \"d01\" to /tmp/d01");
    assert_eq!(app.selected, 1);
    app.complete(
        Outcome::DirectoryRenamed {
            old_name: "d01".to_string(),
            new_name: "e".to_string(),
            directories: vec![directory("d00"), directory("e")],
        },
        &env(),
        None,
        NOW,
    );
    assert_eq!(status(&app), "Renamed directory \"d01\" to \"e\"");
    app.complete(
        Outcome::DirectoryRemoved {
            name: "e".to_string(),
            directories: vec![directory("d00")],
        },
        &env(),
        None,
        NOW,
    );
    assert_eq!(status(&app), "Removed directory \"e\"");
    assert_eq!(app.selected, 0);
}

#[test]
fn shortcut_outcomes_are_shown() {
    let set = |shortcut: &str, status| {
        Outcome::ShortcutSet(GhosttyShortcutApplyResult {
            sync: GhosttyShortcutSync {
                config_path: "/c".to_string(),
                include_path: "/i".to_string(),
                shortcut: shortcut.to_string(),
            },
            status,
            reason: None,
        })
    };
    let mut app = workspaces(&["a"]);
    app.open_shortcut_editor(&env(), Dialog::Settings);
    app.complete(
        set("cmd+k", GhosttyShortcutApplyStatus::UpdatedConfig),
        &env(),
        None,
        NOW,
    );
    assert_eq!(app.dialog, Dialog::Settings);
    assert_eq!(
        status(&app),
        "Ghostty-local shortcut saved as cmd+k. Reload Ghostty config to apply it."
    );
    app.complete(
        set("cmd+k", GhosttyShortcutApplyStatus::ManualConfigRequired),
        &env(),
        None,
        NOW,
    );
    assert_eq!(
        status(&app),
        "Shortcut file updated. Add the include to your Ghostty config source, then rebuild."
    );
    app.complete(
        set("off", GhosttyShortcutApplyStatus::UpdatedConfig),
        &env(),
        None,
        NOW,
    );
    assert_eq!(
        status(&app),
        "Ghostty-local shortcut disabled. Run `gtab init` to restore Cmd+G."
    );
    app.complete(
        set(
            "off",
            GhosttyShortcutApplyStatus::ManualConfigRemovalRequired,
        ),
        &env(),
        None,
        NOW,
    );
    assert_eq!(
        status(&app),
        "Shortcut file removed. Also remove the include from your Ghostty config source."
    );
}

#[test]
fn warnings_and_paths_are_shown() {
    assert_eq!(display_path("/home/me", Some("/home/me")), "~");
    assert_eq!(display_path("/home/me/a", Some("/home/me")), "~/a");
    assert_eq!(display_path("/home/mea", Some("/home/me")), "/home/mea");
    assert_eq!(display_path("/home/me", None), "/home/me");
    assert_eq!(
        launch_warning_from_tui(Some("w".to_string()), Some("e")).as_deref(),
        Some("w")
    );
    assert_eq!(
        launch_warning_from_tui(None, Some("e")).as_deref(),
        Some("workspace launched without frame sync; gtab could not read the current Ghostty window frame: e")
    );
    assert_eq!(launch_warning_from_tui(None, None), None);
    assert_eq!(
        input_source_warning("e"),
        "ASCII input source switch failed; letter shortcuts may not work: e"
    );
}
