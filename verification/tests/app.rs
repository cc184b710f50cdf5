use gtab::app::{App, BrowserMode, Dialog};
use gtab::config::Config;
use gtab::env::AppEnv;
use gtab::geometry::Rect;
use gtab::input::Action;
use gtab::key::{
    shortcut_string_for_key_event, KeyCode, KeyEvent, KeyModifiers, MouseEvent, MouseEventKind,
};
use gtab::lines::{Text, Theme};
use gtab::view::{directory_grid_text, quick_settings_text, workspace_tabs_text};
use gtab::workspace::{SavedDirectory, Workspace, WorkspaceTab};

const NOW: u64 = 10_000;

fn workspace(name: &str) -> Workspace {
    Workspace {
        name: name.to_string(),
        path: format!("/tmp/{name}.applescript"),
        tabs: vec![WorkspaceTab {
            title: "tab".to_string(),
            working_dir: Some("/tmp/project".to_string()),
        }],
        layout: vec![],
    }
}

fn directory(name: &str, path: &str) -> SavedDirectory {
    SavedDirectory {
        name: name.to_string(),
        path: path.to_string(),
    }
}

fn app(workspaces: Vec<Workspace>) -> App {
    App::new(workspaces, vec![])
}

fn left_click(column: u16, row: u16) -> MouseEvent {
    MouseEvent {
        kind: MouseEventKind::LeftDown,
        column,
        row,
    }
}

fn pressed(code: KeyCode) -> KeyEvent {
    KeyEvent {
        code,
        modifiers: KeyModifiers::none(),
    }
}

fn with_control(code: KeyCode) -> KeyEvent {
    let mut key = pressed(code);
    key.modifiers.control = true;
    key
}

fn with_command(code: KeyCode) -> KeyEvent {
    let mut key = pressed(code);
    key.modifiers.command = true;
    key
}

fn with_command_and_shift(code: KeyCode) -> KeyEvent {
    let mut key = with_command(code);
    key.modifiers.shift = true;
    key
}

fn env() -> AppEnv {
    AppEnv {
        base_dir: "/tmp/gtab".to_string(),
        config_file: "/tmp/gtab/config".to_string(),
        config: Config {
            close_tab: true,
            ghostty_shortcut: "cmd+g".to_string(),
        },
    }
}

fn text_lines(text: Text) -> Vec<String> {
    text.lines
        .into_iter()
        .map(|line| {
            line.spans
                .into_iter()
                .map(|span| span.content)
                .collect::<String>()
        })
        .collect()
}

#[test]
fn single_click_selects_and_double_click_launches() {
    let mut app = app(vec![workspace("alpha"), workspace("beta")]);
    app.list_area = Rect::new(0, 0, 40, 6);

    assert_eq!(
        app.handle_mouse(left_click(1, 1), &env(), NOW),
        Action::Nothing
    );
    assert_eq!(app.selected, 1);

    assert_eq!(
        app.handle_mouse(left_click(1, 1), &env(), NOW),
        Action::LaunchWorkspace("beta".to_string())
    );
}

#[test]
fn emphasis_style_stays_visible_on_light_backgrounds() {
    // Emphasized text relies on the terminal's default foreground plus weight, not on an
    // absolute colour, so it stays readable on any background.
    let theme = Theme::detect(false);
    assert_eq!(theme.emphasis.fg, None);
    assert!(theme.emphasis.bold);
}

#[test]
fn directory_grid_text_wraps_across_multiple_columns() {
    let theme = Theme::detect(false);
    let mut app = app(vec![workspace("alpha")]);
    app.directories = vec![
        directory("docs", "/tmp/docs"),
        directory("circle", "/tmp/circle"),
        directory("notes", "/tmp/notes"),
    ];
    app.mode = BrowserMode::Directory;
    app.list_area = Rect::new(0, 0, 40, 4);

    let text = directory_grid_text(&app, &theme);
    let lines = text_lines(text);

    assert_eq!(lines.len(), 2);
    assert!(lines[0].contains("[docs]"));
    assert!(lines[0].contains("[circle]"));
    assert!(lines[1].contains("[notes]"));
}

#[test]
fn directory_grid_click_maps_second_column_item() {
    let mut app = app(vec![workspace("alpha")]);
    app.directories = vec![
        directory("docs", "/tmp/docs"),
        directory("circle", "/tmp/circle"),
        directory("notes", "/tmp/notes"),
    ];
    app.mode = BrowserMode::Directory;
    app.list_area = Rect::new(0, 0, 40, 4);

    assert_eq!(app.list_index_at(16, 0), Some(1));
    assert_eq!(app.list_index_at(14, 0), None);
}

#[test]
fn directory_grid_down_moves_by_visual_row() {
    let mut app = app(vec![workspace("alpha")]);
    app.directories = vec![
        directory("docs", "/tmp/docs"),
        directory("circle", "/tmp/circle"),
        directory("notes", "/tmp/notes"),
        directory("play", "/tmp/play"),
    ];
    app.mode = BrowserMode::Directory;
    app.list_area = Rect::new(0, 0, 40, 4);

    assert_eq!(
        app.handle_main_key(pressed(KeyCode::Down), &env(), NOW),
        Action::Nothing
    );
    assert_eq!(app.selected, 2);
}

#[test]
fn search_escape_restores_previous_filter() {
    let mut app = app(vec![workspace("alpha"), workspace("beta")]);
    app.filter = "al".to_string();
    app.begin_search(Some('p'));

    assert_eq!(app.filter, "alp");
    app.cancel_search();
    assert_eq!(app.filter, "al");
    assert!(!app.search_active());
}

#[test]
fn main_screen_typing_letter_does_not_start_filter_mode() {
    let mut app = app(vec![workspace("alpha"), workspace("beta")]);

    assert!(app.filter.is_empty());
    assert!(!app.search_active());

    assert_eq!(
        app.handle_main_key(pressed(KeyCode::Char('x')), &env(), NOW),
        Action::Nothing
    );
    assert!(app.filter.is_empty());
    assert!(!app.search_active());
}

#[test]
fn filter_mode_navigation_wraps_with_tab_and_ctrl_n_p() {
    let mut app = app(vec![
        workspace("alpha"),
        workspace("beta"),
        workspace("gamma"),
    ]);
    app.begin_search(None);

    app.selected = 2;
    assert_eq!(
        app.handle_search_key(pressed(KeyCode::Tab), NOW),
        Action::Nothing
    );
    assert_eq!(app.selected, 0);

    app.selected = 0;
    assert_eq!(
        app.handle_search_key(pressed(KeyCode::BackTab), NOW),
        Action::Nothing
    );
    assert_eq!(app.selected, 2);

    app.selected = 2;
    assert_eq!(
        app.handle_search_key(with_control(KeyCode::Char('n')), NOW),
        Action::Nothing
    );
    assert_eq!(app.selected, 0);

    app.selected = 0;
    assert_eq!(
        app.handle_search_key(with_control(KeyCode::Char('p')), NOW),
        Action::Nothing
    );
    assert_eq!(app.selected, 2);
}

#[test]
fn filter_mode_navigation_wraps_with_ctrl_j_k() {
    let mut app = app(vec![
        workspace("alpha"),
        workspace("beta"),
        workspace("gamma"),
    ]);
    app.begin_search(None);

    app.selected = 2;
    assert_eq!(
        app.handle_search_key(with_control(KeyCode::Char('j')), NOW),
        Action::Nothing
    );
    assert_eq!(app.selected, 0);

    app.selected = 0;
    assert_eq!(
        app.handle_search_key(with_control(KeyCode::Char('k')), NOW),
        Action::Nothing
    );
    assert_eq!(app.selected, 2);
}

#[test]
fn quick_settings_show_shortcut_status() {
    let theme = Theme::detect(false);
    let lines = text_lines(quick_settings_text(&env(), 28, &theme));

    assert!(lines.iter().any(|line| line.contains("shortcut cmd+g")));
    assert!(lines.iter().any(|line| line.contains("click / g")));
    assert!(
        lines
            .iter()
            .any(|line| line.contains("same-shell in Ghostty"))
    );
    assert!(lines.iter().any(|line| line.contains("Ghostty-local only")));
    assert!(!lines.iter().any(|line| line.contains("close_tab")));
}

#[test]
fn main_screen_g_opens_shortcut_editor() {
    let mut app = app(vec![workspace("alpha")]);

    assert_eq!(
        app.handle_main_key(pressed(KeyCode::Char('g')), &env(), NOW),
        Action::Nothing
    );
    assert_eq!(app.dialog, Dialog::EditGhosttyShortcut);
    assert_eq!(app.shortcut_return_dialog, Dialog::Closed);
    assert_eq!(app.shortcut_input, "cmd+g");
}

#[test]
fn main_screen_n_opens_rename_dialog_with_existing_name() {
    let mut app = app(vec![workspace("alpha")]);

    assert_eq!(
        app.handle_main_key(pressed(KeyCode::Char('n')), &env(), NOW),
        Action::Nothing
    );
    assert_eq!(app.dialog, Dialog::RenameWorkspace);
    assert_eq!(app.rename_original.as_deref(), Some("alpha"));
    assert_eq!(app.rename_input, "alpha");
}

#[test]
fn rename_dialog_returns_rename_action() {
    let mut app = app(vec![workspace("alpha")]);
    app.open_rename_workspace("alpha".to_string());
    app.rename_input = "beta".to_string();

    assert_eq!(
        app.handle_rename_workspace_key(pressed(KeyCode::Enter), NOW),
        Action::RenameWorkspace("alpha".to_string(), "beta".to_string())
    );
}

#[test]
fn rename_dialog_closes_without_action_when_name_is_unchanged() {
    let mut app = app(vec![workspace("alpha")]);
    app.open_rename_workspace("alpha".to_string());

    assert_eq!(
        app.handle_rename_workspace_key(pressed(KeyCode::Enter), NOW),
        Action::Nothing
    );
    assert_eq!(app.dialog, Dialog::Closed);
    assert!(app.rename_original.is_none());
    assert_eq!(
        app.status.as_ref().map(|status| status.text.as_str()),
        Some("Workspace name unchanged")
    );
}

#[test]
fn save_dialog_rejects_empty_name() {
    let mut app = app(vec![workspace("alpha")]);
    app.dialog = Dialog::SaveWorkspace;
    app.save_input = "   ".to_string();

    assert_eq!(
        app.handle_save_workspace_key(pressed(KeyCode::Enter), NOW),
        Action::Nothing
    );
    assert_eq!(app.dialog, Dialog::SaveWorkspace);
    assert_eq!(
        app.status.as_ref().map(|status| status.text.as_str()),
        Some("Workspace name cannot be empty")
    );
}

#[test]
fn main_screen_q_returns_quit_action() {
    let mut app = app(vec![workspace("alpha")]);

    assert_eq!(
        app.handle_main_key(pressed(KeyCode::Char('q')), &env(), NOW),
        Action::Quit
    );
}

#[test]
fn main_screen_enter_without_selection_sets_error() {
    let mut app = app(vec![workspace("alpha")]);
    app.filter = "zzz".to_string();

    assert_eq!(
        app.handle_main_key(pressed(KeyCode::Enter), &env(), NOW),
        Action::Nothing
    );
    assert_eq!(
        app.status.as_ref().map(|status| status.text.as_str()),
        Some("No workspace selected")
    );
}

#[test]
fn main_screen_delete_without_selection_sets_error() {
    let mut app = app(vec![workspace("alpha")]);
    app.filter = "zzz".to_string();

    assert_eq!(
        app.handle_main_key(pressed(KeyCode::Char('d')), &env(), NOW),
        Action::Nothing
    );
    assert_eq!(app.dialog, Dialog::Closed);
    assert_eq!(
        app.status.as_ref().map(|status| status.text.as_str()),
        Some("No workspace selected")
    );
}

#[test]
fn main_screen_edit_without_selection_sets_error() {
    let mut app = app(vec![workspace("alpha")]);
    app.filter = "zzz".to_string();

    assert_eq!(
        app.handle_main_key(pressed(KeyCode::Char('e')), &env(), NOW),
        Action::Nothing
    );
    assert_eq!(
        app.status.as_ref().map(|status| status.text.as_str()),
        Some("No workspace selected")
    );
}

#[test]
fn main_screen_escape_clears_filter_before_quitting() {
    let mut app = app(vec![workspace("alpha"), workspace("beta")]);
    app.filter = "al".to_string();

    assert_eq!(
        app.handle_main_key(pressed(KeyCode::Esc), &env(), NOW),
        Action::Nothing
    );
    assert!(app.filter.is_empty());
    assert_eq!(
        app.status.as_ref().map(|status| status.text.as_str()),
        Some("Cleared workspaces filter")
    );
}

#[test]
fn shortcut_capture_formats_modified_char_keys() {
    let shortcut = shortcut_string_for_key_event(with_command_and_shift(KeyCode::Char('?')));

    assert_eq!(shortcut.as_deref(), Some("cmd+shift+/"));
}

#[test]
fn shortcut_capture_formats_named_keys() {
    let shortcut =
        shortcut_string_for_key_event(with_command(KeyCode::Left));

    assert_eq!(shortcut.as_deref(), Some("cmd+left"));
}

#[test]
fn clicking_shortcut_opens_shortcut_editor() {
    let mut app = app(vec![workspace("alpha")]);
    app.shortcut_area = Rect::new(30, 2, 20, 1);

    assert_eq!(
        app.handle_mouse(left_click(31, 2), &env(), NOW),
        Action::Nothing
    );
    assert_eq!(app.dialog, Dialog::EditGhosttyShortcut);
    assert_eq!(app.shortcut_return_dialog, Dialog::Closed);
    assert_eq!(app.shortcut_input, "cmd+g");
}

#[test]
fn shortcut_dialog_records_modified_keys() {
    let mut app = app(vec![workspace("alpha")]);

    assert_eq!(
        app.handle_shortcut_key(with_command_and_shift(KeyCode::Char('G')), NOW),
        Action::Nothing
    );
    assert_eq!(app.shortcut_input, "cmd+shift+g");
}

#[test]
fn settings_shortcut_escape_returns_to_settings_dialog() {
    let mut app = app(vec![workspace("alpha")]);
    app.open_shortcut_editor(&env(), Dialog::Settings);

    assert_eq!(
        app.handle_shortcut_key(pressed(KeyCode::Esc), NOW),
        Action::Nothing
    );
    assert_eq!(app.dialog, Dialog::Settings);
    assert!(app.shortcut_input.is_empty());
}

#[test]
fn settings_dialog_space_toggles_close_tab() {
    let mut app = app(vec![workspace("alpha")]);
    app.dialog = Dialog::Settings;

    assert_eq!(
        app.handle_settings_key(pressed(KeyCode::Char(' ')), &env()),
        Action::ToggleCloseTab
    );
}

#[test]
fn search_enter_commits_filter_and_sets_status() {
    let mut app = app(vec![workspace("alpha"), workspace("beta")]);
    app.begin_search(Some('l'));

    assert_eq!(
        app.handle_search_key(pressed(KeyCode::Enter), NOW),
        Action::Nothing
    );
    assert!(!app.search_active());
    assert_eq!(
        app.status.as_ref().map(|status| status.text.as_str()),
        Some("Showing 1 of 2 workspaces")
    );
}

#[test]
fn workspace_tabs_follow_applescript_order() {
    let theme = Theme::detect(false);
    let app = app(vec![Workspace {
        name: "alpha".to_string(),
        path: "/tmp/alpha.applescript".to_string(),
        tabs: vec![
            WorkspaceTab {
                title: "api".to_string(),
                working_dir: Some("/tmp/project/api".to_string()),
            },
            WorkspaceTab {
                title: "worker".to_string(),
                working_dir: Some("/tmp/project/worker".to_string()),
            },
        ],
        layout: vec![],
    }]);

    let lines = text_lines(workspace_tabs_text(&app, &theme));

    assert_eq!(lines, vec!["「api」 「worker」 ".to_string()]);
}

#[test]
fn workspace_tabs_are_empty_without_visible_selection() {
    let theme = Theme::detect(false);
    let mut app = app(vec![workspace("alpha"), workspace("beta")]);
    app.filter = "zzz".to_string();

    let lines = text_lines(workspace_tabs_text(&app, &theme));

    assert!(lines.is_empty());
}

#[test]
fn workspace_tabs_are_empty_when_workspace_has_no_tabs() {
    let theme = Theme::detect(false);
    let app = app(vec![Workspace {
        name: "empty".to_string(),
        path: "/tmp/empty.applescript".to_string(),
        tabs: vec![],
        layout: vec![],
    }]);

    let lines = text_lines(workspace_tabs_text(&app, &theme));

    assert!(lines.is_empty());
}

#[test]
fn main_screen_f_toggles_directory_mode() {
    let mut app = app(vec![workspace("alpha")]);
    app.directories = vec![directory("docs", "/tmp")];

    assert_eq!(
        app.handle_main_key(pressed(KeyCode::Char('f')), &env(), NOW),
        Action::Nothing
    );
    assert_eq!(app.mode, BrowserMode::Directory);
    assert_eq!(
        app.status.as_ref().map(|status| status.text.as_str()),
        Some("Switched to directory space")
    );
}

#[test]
fn directory_mode_enter_returns_replace_directory_action() {
    let mut app = app(vec![workspace("alpha")]);
    app.directories = vec![directory("docs", "/tmp")];
    app.mode = BrowserMode::Directory;

    assert_eq!(
        app.handle_main_key(pressed(KeyCode::Enter), &env(), NOW),
        Action::ReplaceDirectory("/tmp".to_string())
    );
}

#[test]
fn directory_mode_a_opens_save_directory_dialog() {
    let mut app = app(vec![workspace("alpha")]);
    app.mode = BrowserMode::Directory;

    assert_eq!(
        app.handle_main_key(pressed(KeyCode::Char('a')), &env(), NOW),
        Action::Nothing
    );
    assert_eq!(app.dialog, Dialog::SaveDirectory);
}

#[test]
fn directory_mode_double_click_replaces_directory() {
    let mut app = app(vec![workspace("alpha")]);
    app.directories = vec![directory("docs", "/tmp/docs"), directory("tmp", "/tmp")];
    app.mode = BrowserMode::Directory;
    app.list_area = Rect::new(0, 0, 40, 6);

    assert_eq!(
        app.handle_mouse(left_click(16, 0), &env(), NOW),
        Action::Nothing
    );
    assert_eq!(
        app.handle_mouse(left_click(16, 0), &env(), NOW),
        Action::ReplaceDirectory("/tmp".to_string())
    );
}

#[test]
fn directory_mode_n_opens_directory_rename_dialog() {
    let mut app = app(vec![workspace("alpha")]);
    app.directories = vec![directory("docs", "/tmp/docs")];
    app.mode = BrowserMode::Directory;

    assert_eq!(
        app.handle_main_key(pressed(KeyCode::Char('n')), &env(), NOW),
        Action::Nothing
    );
    assert_eq!(app.dialog, Dialog::RenameDirectory);
    assert_eq!(app.rename_original.as_deref(), Some("docs"));
}
