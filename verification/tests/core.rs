use gtab::applescript::{
    apple_escape, build_ghostty_cd_script, build_ghostty_replace_directory_script,
    render_ghostty_direct_cd_command, render_shell_cd_command,
};
use gtab::capture::{
    build_restore_script, looks_like_shell_default_title, normalize_captured_tab_title,
    parse_captured_window_frames,
};
use gtab::config::{build_ghostty_shortcut_include, Config};
use gtab::env::{
    format_workspace_list, should_switch_to_ascii_input_source, validate_workspace_name,
};
use gtab::restore_script::{
    CapturedPaneRect, CapturedTabSurface, CapturedWindow, CapturedWorkspace,
};
use gtab::window::{parse_window_frame, WindowFrame};
use gtab::workspace::{
    build_workspace_script, parse_workspace_rows, parse_workspace_tabs, plan_workspace_launch,
    script_has_multiple_windows, workspace_requires_true_legacy_launch, TabRow, Workspace,
    WorkspaceLaunchMode,
};

fn captured_surface(window: usize, tab: usize, wd: &str) -> CapturedTabSurface {
    CapturedTabSurface {
        window_index: window,
        tab_index: tab,
        pane_index: 1,
        terminal_id: format!("term-{window}-{tab}"),
        working_dir: wd.to_string(),
        title: String::new(),
        rect: CapturedPaneRect {
            x: 0,
            y: 0,
            width: 1,
            height: 1,
        },
    }
}

fn workspace(name: &str) -> Workspace {
    Workspace {
        name: name.to_string(),
        path: format!("/tmp/{name}.applescript"),
        tabs: vec![],
        layout: vec![],
    }
}

#[test]
fn build_restore_script_single_window_keeps_legacy_shape() {
    let workspace = CapturedWorkspace::single_window(vec![
        captured_surface(1, 1, "/tmp/one"),
        captured_surface(1, 2, "/tmp/two"),
    ]);
    let script = build_restore_script(&workspace);

    assert!(script.starts_with("-- gtab: format=2 windows=1\n"));
    assert!(script.contains("set cfg1 to new surface configuration"));
    assert!(script.contains("set cfg2 to new surface configuration"));
    assert!(script.contains("set win to new window with configuration cfg1"));
    assert!(script.contains("set newtab1_1 to new tab in win with configuration cfg2"));
    assert!(!script.contains("set_frame:"));
    assert!(!script_has_multiple_windows(&script));
    // Legacy parsers still see both tabs.
    assert_eq!(parse_workspace_rows(&script, "/Users/fran").len(), 2);
}

#[test]
fn build_restore_script_multi_window_uses_per_window_vars_and_frames() {
    let workspace = CapturedWorkspace {
        windows: vec![
            CapturedWindow {
                window_index: 1,
                frame: WindowFrame::new(10, 20, 800, 600),
            },
            CapturedWindow {
                window_index: 2,
                frame: WindowFrame::new(-500, 40, 1024, 768),
            },
        ],
        surfaces: vec![
            captured_surface(1, 1, "/tmp/one"),
            captured_surface(2, 1, "/tmp/two"),
            captured_surface(2, 2, "/tmp/three"),
        ],
    };
    let script = build_restore_script(&workspace);

    assert!(script.starts_with("-- gtab: format=2 windows=2\n"));
    assert!(script.contains("set win1 to new window with configuration cfg1_1"));
    assert!(script.contains("set win2 to new window with configuration cfg2_1"));
    assert!(script.contains("set newtab2_1 to new tab in win2 with configuration cfg2_2"));
    assert!(script.contains("set initial working directory of cfg2_2 to \"/tmp/three\""));
    assert!(script.contains("perform action \"set_frame:10,20,800,600\" on p1_1"));
    assert!(script.contains("perform action \"set_frame:-500,40,1024,768\" on p2_1"));
    assert!(script_has_multiple_windows(&script));
}

#[test]
fn build_restore_script_multi_window_split_tree() {
    let mut left = captured_surface(2, 1, "/tmp/left");
    left.pane_index = 1;
    left.rect = CapturedPaneRect {
        x: 0,
        y: 0,
        width: 100,
        height: 200,
    };
    let mut right = captured_surface(2, 1, "/tmp/right");
    right.pane_index = 2;
    right.rect = CapturedPaneRect {
        x: 100,
        y: 0,
        width: 100,
        height: 200,
    };

    let workspace = CapturedWorkspace {
        windows: vec![
            CapturedWindow {
                window_index: 1,
                frame: WindowFrame::new(0, 0, 100, 100),
            },
            CapturedWindow {
                window_index: 2,
                frame: WindowFrame::new(0, 0, 200, 200),
            },
        ],
        surfaces: vec![captured_surface(1, 1, "/tmp/one"), left, right],
    };
    let script = build_restore_script(&workspace);

    // Window 2's tab has two side-by-side panes: anchor split to the right.
    assert!(script.contains("set cfg2_2 to new surface configuration"));
    assert!(script.contains("set initial working directory of cfg2_2 to \"/tmp/right\""));
    assert!(script.contains("split p2_1 direction right with configuration cfg2_2"));
}

#[test]
fn parse_captured_window_frames_reads_rows() {
    let frames = parse_captured_window_frames("1\t10\t20\t800\t600\n2\t-5\t0\t1024\t768\n");
    assert_eq!(
        frames,
        vec![
            CapturedWindow {
                window_index: 1,
                frame: WindowFrame::new(10, 20, 800, 600),
            },
            CapturedWindow {
                window_index: 2,
                frame: WindowFrame::new(-5, 0, 1024, 768),
            },
        ]
    );
}

#[test]
fn script_has_multiple_windows_detection() {
    assert!(script_has_multiple_windows(
        "-- gtab: format=2 windows=3\ntell application \"Ghostty\""
    ));
    assert!(!script_has_multiple_windows(
        "-- gtab: format=2 windows=1\ntell application \"Ghostty\""
    ));
    assert!(!script_has_multiple_windows(
        "tell application \"Ghostty\"\n    activate"
    ));
}

#[test]
fn config_defaults_to_ghostty_local_cmd_g() {
    let config = Config::default();
    assert_eq!(config.ghostty_shortcut, "cmd+g");
}

#[test]
fn validate_workspace_name_rejects_empty_and_path_like_names() {
    for value in ["", "   ", ".", "..", "alpha/beta"] {
        assert!(
            validate_workspace_name(value).is_err(),
            "{value:?} should fail"
        );
    }
}

#[test]
fn validate_workspace_name_accepts_plain_names() {
    for value in ["alpha", "demo-1", "hello_world"] {
        assert!(
            validate_workspace_name(value).is_ok(),
            "{value:?} should pass"
        );
    }
}

#[test]
fn ascii_input_source_switch_skips_matching_source_ids() {
    assert!(!should_switch_to_ascii_input_source(
        Some("com.apple.keylayout.ABC"),
        Some("com.apple.keylayout.ABC"),
        false,
    ));
}

#[test]
fn ascii_input_source_switch_skips_matching_source_refs() {
    assert!(!should_switch_to_ascii_input_source(None, None, true));
}

#[test]
fn ascii_input_source_switch_uses_ascii_source_when_current_differs() {
    assert!(should_switch_to_ascii_input_source(
        Some("com.apple.inputmethod.SCIM.ITABC"),
        Some("com.apple.keylayout.ABC"),
        false,
    ));
}

#[test]
fn apple_script_generation_preserves_workspace_structure() {
    let script = build_workspace_script(&vec![
        TabRow {
            working_dir: "/tmp/demo".to_string(),
            title: "main".to_string(),
        },
        TabRow {
            working_dir: "/tmp/api".to_string(),
            title: String::new(),
        },
    ]);

    assert!(script.contains("set win to new window"));
    assert!(script.contains("new tab in win"));
    assert!(script.contains("set_tab_title:main"));
}

#[test]
fn apple_escape_handles_quotes_and_backslashes() {
    assert_eq!(
        apple_escape(r#"/tmp/"quote"\path"#),
        r#"/tmp/\"quote\"\\path"#
    );
}

#[test]
fn workspace_preview_uses_titles_and_fallbacks() {
    let tabs = parse_workspace_tabs(
        r#"tell application "Ghostty"
    activate

    set cfg1 to new surface configuration
    set initial working directory of cfg1 to "/tmp/project"
    set win to new window with configuration cfg1
    set term1 to focused terminal of selected tab of win
    perform action "set_tab_title:api" on term1

    set cfg2 to new surface configuration
    set initial working directory of cfg2 to "/tmp/work"
    set tab2 to new tab in win with configuration cfg2
    set term2 to focused terminal of tab2
end tell
"#,
        "/Users/fran",
    );

    assert_eq!(tabs.len(), 2);
    assert_eq!(tabs[0].title, "api");
    assert_eq!(tabs[0].working_dir.as_deref(), Some("/tmp/project"));
    assert_eq!(tabs[1].title, "work");
    assert_eq!(tabs[1].working_dir.as_deref(), Some("/tmp/work"));
}

#[test]
fn workspace_preview_skips_malformed_lines_and_keeps_valid_tabs() {
    let tabs = parse_workspace_tabs(
        r#"tell application "Ghostty"
    activate

    set cfg1 to new surface configuration
    set initial working directory of cfg1 to "/tmp/project"
    set win to new window with configuration cfg1
    set term1 to focused terminal of selected tab of win
    perform action "set_tab_title:api" on term1
    perform action "set_tab_title:broken

    set cfg2 to new surface configuration
    set initial working directory of cfg2 to "/tmp/worker"
    set tab2 to new tab in win with configuration cfg2
    set term2 to focused terminal of tab2
end tell
"#,
        "/Users/fran",
    );

    assert_eq!(tabs.len(), 2);
    assert_eq!(tabs[0].title, "api");
    assert_eq!(tabs[1].title, "worker");
}

#[test]
fn workspace_rows_preserve_empty_titles_for_relaunch() {
    let rows = parse_workspace_rows(
        r#"tell application "Ghostty"
    activate

    set cfg1 to new surface configuration
    set initial working directory of cfg1 to "/tmp/project"
    set win to new window with configuration cfg1
    set term1 to focused terminal of selected tab of win

    set cfg2 to new surface configuration
    set initial working directory of cfg2 to "/tmp/work"
    set tab2 to new tab in win with configuration cfg2
    set term2 to focused terminal of tab2
end tell
"#,
        "/Users/fran",
    );

    assert_eq!(rows.len(), 2);
    assert_eq!(rows[0].working_dir, "/tmp/project");
    assert!(rows[0].title.is_empty());
    assert_eq!(rows[1].working_dir, "/tmp/work");
    assert!(rows[1].title.is_empty());
}

#[test]
fn captured_titles_strip_transient_prefixes() {
    assert_eq!(
        normalize_captured_tab_title("⠐ 🔔 dither-motion"),
        "dither-motion"
    );
    assert_eq!(normalize_captured_tab_title("🔔 dither"), "dither");
    assert_eq!(normalize_captured_tab_title("  api  "), "api");
}

#[test]
fn shell_default_title_detection_suppresses_expected_patterns() {
    let wd = "/Users/fran/Documents/GitHub/dither-motion";
    let cases = [
        (
            "fran@frandeMacBook-Pro:~/Documents/GitHub/dither-motion",
            wd,
        ),
        (
            "~/Documents/GitHub/gtab",
            "/Users/fran/Documents/GitHub/gtab",
        ),
        (
            "…/GitHub/rss-breeze/",
            "/Users/fran/Documents/GitHub/rss-breeze",
        ),
        ("zsh", "/Users/fran"),
        ("", wd),
        ("   ", wd),
        ("🔔 fran@host:~/foo", "/tmp"),
    ];
    for (title, working_dir) in cases {
        assert!(
            looks_like_shell_default_title(title),
            "{title:?} with wd={working_dir:?} should be treated as shell default"
        );
    }
}

#[test]
fn shell_default_title_detection_preserves_custom_titles() {
    let cases = [
        ("dither-motion", "/Users/fran/Documents/GitHub/new"),
        ("rss", "/Users/fran/Documents/GitHub/rss-breeze"),
        ("api", "/tmp/project"),
        ("operation", "/Users/fran/Documents/GitHub/new"),
        ("my project", "/Users/fran/work"),
    ];
    for (title, working_dir) in cases {
        assert!(
            !looks_like_shell_default_title(title),
            "{title:?} with wd={working_dir:?} should be preserved as custom title"
        );
    }
}

#[test]
fn build_workspace_script_suppresses_shell_default_titles() {
    let script = build_workspace_script(&vec![
        TabRow {
            working_dir: "/tmp/project".to_string(),
            title: "fran@host:~/tmp/project".to_string(), // shell default
        },
        TabRow {
            working_dir: "/Users/fran/Documents/GitHub/new".to_string(),
            title: "operation".to_string(), // custom (not equal to basename "new")
        },
    ]);

    assert!(!script.contains("set_tab_title:fran@host"));
    assert!(script.contains("set_tab_title:operation"));
}

#[test]
fn custom_workspace_features_require_legacy_launch() {
    assert!(workspace_requires_true_legacy_launch(
        r#"tell application "Ghostty"
    set cfg1 to new surface configuration
    set initial working directory of cfg1 to "/tmp/project"
    set command of cfg1 to "npm run dev"
end tell"#
    ));

    assert!(!workspace_requires_true_legacy_launch(
        r#"tell application "Ghostty"
    set cfg1 to new surface configuration
    set initial working directory of cfg1 to "/tmp/project"
end tell"#
    ));
}

#[test]
fn launch_plan_prefers_legacy_for_custom_commands() {
    let script = r#"tell application "Ghostty"
    set cfg1 to new surface configuration
    set initial working directory of cfg1 to "/tmp/project"
    set command of cfg1 to "npm run dev"
end tell"#;

    let rows = parse_workspace_rows(script, "/Users/fran");
    assert_eq!(
        plan_workspace_launch(script, &rows),
        WorkspaceLaunchMode::DirectLegacy
    );
}

#[test]
fn launch_plan_uses_split_mode_for_split_workspaces() {
    let script = r#"tell application "Ghostty"
    set cfg1 to new surface configuration
    set initial working directory of cfg1 to "/tmp/project"
    set win to new window with configuration cfg1
    set p1 to split p0 direction right with configuration cfg2
end tell"#;

    let rows = parse_workspace_rows(script, "/Users/fran");
    assert_eq!(
        plan_workspace_launch(script, &rows),
        WorkspaceLaunchMode::DirectSplit
    );
}

#[test]
fn launch_plan_uses_direct_split_mode_for_plain_workspaces() {
    let script = r#"tell application "Ghostty"
    activate

    set cfg1 to new surface configuration
    set initial working directory of cfg1 to "/tmp/project"
    set win to new window with configuration cfg1
    set term1 to focused terminal of selected tab of win
end tell"#;

    let rows = parse_workspace_rows(script, "/Users/fran");
    assert_eq!(
        plan_workspace_launch(script, &rows),
        WorkspaceLaunchMode::DirectSplit
    );
}

#[test]
fn launch_plan_falls_back_when_rows_cannot_be_reconstructed() {
    let script = r#"tell application "Ghostty"
    activate
end tell"#;

    let rows = parse_workspace_rows(script, "/Users/fran");
    assert_eq!(
        plan_workspace_launch(script, &rows),
        WorkspaceLaunchMode::DirectFallback
    );
}

#[test]
fn split_workspace_uses_direct_split_launch() {
    let script = r#"tell application "Ghostty"
    set cfg1 to new surface configuration
    set initial working directory of cfg1 to "/tmp/project"
    set win to new window with configuration cfg1
    set p1 to split p0 direction right with configuration cfg2
end tell"#;
    let rows = parse_workspace_rows(script, "/Users/fran");
    assert_eq!(
        plan_workspace_launch(script, &rows),
        WorkspaceLaunchMode::DirectSplit
    );

    // split workspaces are not treated as "true legacy"
    assert!(!workspace_requires_true_legacy_launch(script));
}

#[test]
fn tab_only_workspace_with_custom_titles_uses_direct_split_launch() {
    let script = r#"tell application "Ghostty"
    activate

    set cfg1 to new surface configuration
    set initial working directory of cfg1 to "/tmp/project"
    set win to new window with configuration cfg1
    set p1 to focused terminal of selected tab of win
    perform action "set_tab_title:alpha" on p1

    set cfg2 to new surface configuration
    set initial working directory of cfg2 to "/tmp/work"
    set newtab1 to new tab in win with configuration cfg2
    set p2 to focused terminal of newtab1
    perform action "set_tab_title:beta" on p2
end tell"#;

    let rows = parse_workspace_rows(script, "/Users/fran");
    assert_eq!(rows.len(), 2);
    assert_eq!(rows[0].title, "");
    assert_eq!(rows[1].title, "");
    assert_eq!(
        plan_workspace_launch(script, &rows),
        WorkspaceLaunchMode::DirectSplit
    );
    assert!(!workspace_requires_true_legacy_launch(script));
    // Sanity: the saved script still contains the title commands so that
    // the single-osascript launch will re-apply them.
    assert!(script.contains("set_tab_title:alpha"));
    assert!(script.contains("set_tab_title:beta"));
}

#[test]
fn parse_window_frame_reads_tab_separated_numbers() {
    let frame = parse_window_frame("40\t80\t1440\t900").unwrap();

    assert_eq!(
        frame,
        WindowFrame {
            x: 40,
            y: 80,
            width: 1440,
            height: 900,
        }
    );
}

#[test]
fn render_shell_cd_command_quotes_single_quotes() {
    assert_eq!(
        render_shell_cd_command("/tmp/it'works"),
        "cd -- '/tmp/it'\"'\"'works'"
    );
}

#[test]
fn render_ghostty_direct_cd_command_prefixes_plain_cd() {
    assert_eq!(
        render_ghostty_direct_cd_command("/tmp/it'works"),
        " cd -- '/tmp/it'\"'\"'works'"
    );
}

#[test]
fn build_ghostty_cd_script_includes_input_and_enter() {
    let script = build_ghostty_cd_script("cd -- '/tmp/it'\"'\"'works'");
    assert!(script.contains("set term to focused terminal of selected tab of front window"));
    assert!(script.contains("input text \"cd -- '/tmp/it'\\\"'\\\"'works'\" to term"));
    assert!(script.contains("send key \"enter\" to term"));
}

#[test]
fn build_ghostty_cd_script_keeps_no_trace_command() {
    let command = render_ghostty_direct_cd_command("/tmp/demo");
    let script = build_ghostty_cd_script(&command);
    let expected = format!("input text \"{}\" to term", apple_escape(&command));
    assert!(script.contains(&expected));
}

#[test]
fn build_ghostty_replace_directory_script_splits_closes_and_focuses_new_surface() {
    let script = build_ghostty_replace_directory_script("/tmp/it'works");
    assert!(script.contains("set term to focused terminal of selected tab of front window"));
    assert!(script.contains("set cfg to new surface configuration"));
    assert!(script.contains("set initial working directory of cfg to \"/tmp/it'works\""));
    assert!(
        script.contains("set newTerm to split term direction right with configuration cfg")
    );
    assert!(script.contains("close term"));
    assert!(script.contains("focus newTerm"));
}

#[test]
fn format_workspace_list_is_empty_when_no_workspaces_exist() {
    assert_eq!(format_workspace_list(&vec![]), "No workspaces saved.");
}

#[test]
fn format_workspace_list_renders_one_name_per_line() {
    let list = format_workspace_list(&vec![workspace("alpha"), workspace("beta")]);

    assert_eq!(list, "Workspaces:\n  - alpha\n  - beta");
}

#[test]
fn ghostty_shortcut_include_writes_keybind_command() {
    let text = build_ghostty_shortcut_include("cmd+g");
    assert!(text.contains("Default Ghostty-local shortcut"));
    assert!(text.contains("keybind = cmd+g=text:gtab\\x0d"));
}

#[test]
fn disabled_ghostty_shortcut_include_has_no_keybind() {
    let text = build_ghostty_shortcut_include("off");
    assert!(!text.contains("keybind ="));
    assert!(text.contains("Ghostty-local shortcut is disabled"));
}
