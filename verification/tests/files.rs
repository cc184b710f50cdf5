use gtab::config::{
    plan_config_sync, render_ghostty_include_config_line, Config, ConfigPlan,
    GHOSTTY_EXTERNAL_CONFIG_REASON,
};
use gtab::env::{
    capture_script, editor_command, format_settings, home_or_root, launch_failure,
    launchctl_domain, legacy_artifacts, legacy_hotkey_plist_path, legacy_hotkey_service,
    parent_process, resolve_base_dir, AppEnv, DirectoryFile, RenamePlan, WorkspaceFile,
};
use gtab::path::{follow_link, join_path};
use gtab::scripts::{CAPTURE_ALL_WINDOWS, CAPTURE_FRONT_WINDOW};
use gtab::shortcut::{
    config_sync_result, ghostty_config_candidates, is_externally_managed, is_in_nix_store,
    is_manual_config_error, plan_shortcut_sync, resolve_ghostty_config_path,
    shortcut_sync_result, FilePlan, GhosttyConfigSync, GhosttyShortcutApplyStatus,
    GhosttyShortcutSync, ShortcutFiles, WriteOutcome,
};
use gtab::window::WindowFrame;

const OWN_FILE: &str = "/tmp/gtab-shortcut.conf";

fn test_env() -> AppEnv {
    AppEnv {
        base_dir: "/tmp/gtab".to_string(),
        config_file: "/tmp/gtab/config".to_string(),
        config: Config::default(),
    }
}

#[test]
fn config_parses_close_tab_truthy_values() {
    let config = Config::parse(Some(
        "close_tab=true\nglobal_shortcut=cmd+g\nghostty_shortcut=cmd+shift+g\n",
    ))
    .unwrap();
    assert!(config.close_tab);
    assert_eq!(config.ghostty_shortcut, "cmd+shift+g");
    assert!(Config::parse(Some("close_tab = on\n")).unwrap().close_tab);
    assert!(!Config::parse(Some("close_tab=yes\n")).unwrap().close_tab);
}

#[test]
fn config_normalizes_disabled_ghostty_shortcut() {
    let config =
        Config::parse(Some("global_shortcut=cmd+g\nghostty_shortcut=disabled\n")).unwrap();
    assert_eq!(config.ghostty_shortcut, "off");
}

#[test]
fn config_ignores_removed_launch_mode() {
    let config = Config::parse(Some(
        "global_shortcut=cmd+g\nghostty_shortcut=off\nlaunch_mode=inject\n",
    ))
    .unwrap();
    assert_eq!(config.ghostty_shortcut, "off");
}

#[test]
fn config_without_a_file_is_the_default() {
    let config = Config::parse(None).unwrap();
    assert!(!config.close_tab);
    assert_eq!(config.ghostty_shortcut, "cmd+g");
}

#[test]
fn config_reads_back_what_it_writes() {
    for close_tab in [true, false] {
        for shortcut in ["cmd+g", "off", "cmd+shift+/"] {
            let config = Config {
                close_tab,
                ghostty_shortcut: shortcut.to_string(),
            };
            let text = config.serialize();
            let read = Config::parse(Some(text.as_str())).unwrap();
            assert_eq!(read.close_tab, close_tab);
            assert_eq!(read.ghostty_shortcut, shortcut);
        }
    }
    assert_eq!(
        Config::default().serialize(),
        "close_tab=false\nghostty_shortcut=cmd+g\n"
    );
}

#[test]
fn shortcuts_are_lowered_and_trimmed() {
    let mut env = test_env();
    let text = env.set_ghostty_shortcut("  CMD+Shift+G ").unwrap();
    assert_eq!(env.ghostty_shortcut_display(), "cmd+shift+g");
    assert_eq!(text, "close_tab=false\nghostty_shortcut=cmd+shift+g\n");
    env.set_ghostty_shortcut("CMD+Ä").unwrap();
    assert_eq!(env.ghostty_shortcut_display(), "cmd+ä");
    env.set_ghostty_shortcut("None").unwrap();
    assert_eq!(env.ghostty_shortcut_display(), "off");
}

#[test]
fn bad_shortcuts_are_refused_and_change_nothing() {
    let mut env = test_env();
    assert_eq!(
        env.set_ghostty_shortcut("   ").unwrap_err().message(),
        "ghostty_shortcut cannot be empty"
    );
    assert_eq!(
        env.set_ghostty_shortcut("a=b").unwrap_err().message(),
        "ghostty_shortcut contains invalid characters"
    );
    assert_eq!(env.ghostty_shortcut_display(), "cmd+g");
}

#[test]
fn settings_are_set_and_shown() {
    let mut env = test_env();
    assert_eq!(
        env.set_close_tab(true),
        "close_tab=true\nghostty_shortcut=cmd+g\n"
    );
    assert_eq!(env.close_tab_display(), "on");
    assert_eq!(
        format_settings(&env, Some("/home/me/.config/ghostty/config")),
        "Settings:\n  close_tab = on\n  ghostty_shortcut = cmd+g\n  ghostty_config = /home/me/.config/ghostty/config\n  ghostty_include = /tmp/gtab/ghostty-shortcut.conf\n  Ghostty-local shortcut is the default fast path. It types `gtab` into the focused Ghostty shell and only works when Ghostty is focused."
    );
    env.set_ghostty_shortcut("off").unwrap();
    assert!(format_settings(&env, None).ends_with(
        "Ghostty-local shortcut is disabled. Run `gtab init` to restore the default same-shell Cmd+G."
    ));
    assert_eq!(
        env.init_shortcuts(),
        "close_tab=true\nghostty_shortcut=cmd+g\n"
    );
}

#[test]
fn environment_is_loaded_and_reloaded() {
    let mut env = AppEnv::load("/tmp/gtab", Some("close_tab=on\n")).unwrap();
    assert_eq!(env.config_file, "/tmp/gtab/config");
    assert_eq!(AppEnv::config_path("/tmp/gtab/"), "/tmp/gtab/config");
    assert!(env.config.close_tab);
    env.reload_config(Some("ghostty_shortcut=cmd+k\n")).unwrap();
    assert!(!env.config.close_tab);
    assert_eq!(env.config.ghostty_shortcut, "cmd+k");
    assert!(env.reload_config(Some("ghostty_shortcut=a=b\n")).is_err());
    assert_eq!(env.config.ghostty_shortcut, "cmd+k");
}

#[test]
fn rename_workspace_renames_applescript_file() {
    match test_env()
        .rename_workspace("alpha", "beta", true, false)
        .unwrap()
    {
        RenamePlan::Move { from, to } => {
            assert_eq!(from, "/tmp/gtab/alpha.applescript");
            assert_eq!(to, "/tmp/gtab/beta.applescript");
        }
        other => panic!("expected a move, got {other:?}"),
    }
}

#[test]
fn rename_workspace_rejects_existing_destination() {
    let error = test_env()
        .rename_workspace("alpha", "beta", true, true)
        .unwrap_err()
        .message();
    assert!(error.contains("workspace 'beta' already exists"));
}

#[test]
fn renaming_to_the_same_name_keeps_the_file() {
    match test_env()
        .rename_workspace("alpha", "alpha", true, true)
        .unwrap()
    {
        RenamePlan::Keep(path) => assert_eq!(path, "/tmp/gtab/alpha.applescript"),
        other => panic!("expected to keep it, got {other:?}"),
    }
    assert_eq!(
        test_env()
            .rename_workspace("alpha", "beta", false, false)
            .unwrap_err()
            .message(),
        "workspace 'alpha' not found"
    );
    assert_eq!(
        test_env()
            .rename_workspace("alpha", "a/b", true, false)
            .unwrap_err()
            .message(),
        "invalid workspace name 'a/b'"
    );
}

#[test]
fn list_directories_sorts_case_insensitively() {
    let file = |name: &str, content: &str| DirectoryFile {
        file_name: name.to_string(),
        content: content.to_string(),
    };
    let directories = test_env().list_directories(&vec![
        file("Zulu.path", "/tmp/zulu"),
        file("alpha.path", "/tmp/alpha\r\n"),
        file("beta.path", "/tmp/beta"),
        file("empty.path", "\n"),
        file("notes.txt", "/tmp/notes"),
        file(".path", "/tmp/hidden"),
    ]);

    assert_eq!(
        directories
            .iter()
            .map(|directory| directory.name.as_str())
            .collect::<Vec<_>>(),
        vec!["alpha", "beta", "Zulu"]
    );
    assert_eq!(directories[0].path, "/tmp/alpha");
}

#[test]
fn list_workspaces_reads_tabs_and_layouts() {
    let script = "-- gtab: format=2 windows=1\ntell application \"Ghostty\"\n    activate\n\n    set cfg1 to new surface configuration\n    set initial working directory of cfg1 to \"/tmp/left\"\n    set cfg2 to new surface configuration\n    set initial working directory of cfg2 to \"/tmp/right\"\n    set win to new window with configuration cfg1\n    set p1 to focused terminal of selected tab of win\n    set p2 to split p1 direction right with configuration cfg2\n    perform action \"set_tab_title:api\" on p1\nend tell\n";
    let workspaces = test_env().list_workspaces(
        &vec![
            WorkspaceFile {
                file_name: "zeta.applescript".to_string(),
                path: "/tmp/gtab/zeta.applescript".to_string(),
                content: None,
            },
            WorkspaceFile {
                file_name: "Alpha.applescript".to_string(),
                path: "/tmp/gtab/Alpha.applescript".to_string(),
                content: Some(script.to_string()),
            },
            WorkspaceFile {
                file_name: "config".to_string(),
                path: "/tmp/gtab/config".to_string(),
                content: Some("set initial working directory of cfg0 to \"/a\"".to_string()),
            },
        ],
        "/home/me",
    );
    assert_eq!(workspaces.len(), 2);
    assert_eq!(workspaces[0].name, "Alpha");
    assert_eq!(workspaces[0].tabs.len(), 2);
    assert_eq!(workspaces[0].layout.len(), 1);
    assert_eq!(workspaces[0].layout[0].title, "api");
    assert_eq!(workspaces[1].name, "zeta");
    assert!(workspaces[1].tabs.is_empty());
}

#[test]
fn save_directory_writes_path_file() {
    let plan = test_env()
        .save_directory("docs", "/tmp/docs", false)
        .unwrap();
    assert_eq!(plan.path, "/tmp/gtab/dirs/docs.path");
    assert_eq!(plan.text, "/tmp/docs");
}

#[test]
fn save_directory_rejects_existing_name() {
    let error = test_env()
        .save_directory("docs", "/tmp/other", true)
        .unwrap_err()
        .message();
    assert!(error.contains("directory 'docs' already exists"));
}

#[test]
fn rename_directory_renames_path_file() {
    match test_env()
        .rename_directory("alpha", "beta", true, false)
        .unwrap()
    {
        RenamePlan::Move { from, to } => {
            assert_eq!(from, "/tmp/gtab/dirs/alpha.path");
            assert_eq!(to, "/tmp/gtab/dirs/beta.path");
        }
        other => panic!("expected a move, got {other:?}"),
    }
}

#[test]
fn rename_directory_rejects_existing_destination() {
    let error = test_env()
        .rename_directory("alpha", "beta", true, true)
        .unwrap_err()
        .message();
    assert!(error.contains("directory 'beta' already exists"));
}

#[test]
fn remove_directory_reports_not_found() {
    let error = test_env()
        .remove_directory("missing", false)
        .unwrap_err()
        .message();
    assert!(error.contains("directory 'missing' not found"));
    assert_eq!(
        test_env().remove_directory("docs", true).unwrap(),
        "/tmp/gtab/dirs/docs.path"
    );
}

#[test]
fn validate_directory_target_rejects_missing_and_files() {
    let env = test_env();
    assert_eq!(
        env.validate_directory_target("", false, false)
            .unwrap_err()
            .message(),
        "directory path is empty"
    );
    assert_eq!(
        env.validate_directory_target("/tmp/missing", false, false)
            .unwrap_err()
            .message(),
        "directory '/tmp/missing' not found"
    );
    let file_error = env
        .validate_directory_target("/tmp/file.txt", true, false)
        .unwrap_err()
        .message();
    assert!(file_error.contains("is not a directory"));
    assert!(env.validate_directory_target("/tmp", true, true).is_ok());
}

#[test]
fn workspaces_are_found_and_removed() {
    let env = test_env();
    assert_eq!(
        env.workspace_path("alpha").unwrap(),
        "/tmp/gtab/alpha.applescript"
    );
    assert_eq!(
        env.directory_path("alpha").unwrap(),
        "/tmp/gtab/dirs/alpha.path"
    );
    assert_eq!(
        env.workspace_path(" ").unwrap_err().message(),
        "missing workspace name"
    );
    assert_eq!(
        env.remove_workspace("alpha", false).unwrap_err().message(),
        "workspace 'alpha' not found"
    );
}

#[test]
fn saving_writes_a_script_that_is_read_back() {
    let env = test_env();
    let raw = "1\t1\tA\t/tmp/left\tapi\t0,0,100,200\n1\t2\tB\t/tmp/right\tapi\t100,0,100,200\n2\t1\tC\t/tmp/two\tzsh\t0,0,1,1\n";
    let plan = env.save_current_window("demo", raw).unwrap();
    assert_eq!(plan.path, "/tmp/gtab/demo.applescript");
    let layout = gtab::layout::parse_workspace_layout(plan.text.as_str(), "/home/me");
    assert_eq!(layout.len(), 2);
    assert_eq!(layout[0].title, "api");
    assert_eq!(layout[1].title, "two");
    assert!(matches!(
        &layout[0].root,
        gtab::layout::WorkspacePaneLayout::SplitRight { .. }
    ));

    // One window: the same script, whether all windows are asked for or not.
    let all = env.save_all_windows("demo", "window-1\n", raw).unwrap();
    assert_eq!(all.text, plan.text);
}

#[test]
fn saving_all_windows_keeps_their_frames() {
    let raw = "1\t10\t20\t800\t600\n2\t-5\t0\t1024\t768\n@@SURFACES@@\n1\t1\t1\tA\t/tmp/one\tone\t0,0,1,1\n2\t1\t1\tB\t/tmp/two\ttwo\t0,0,1,1\n";
    let plan = test_env()
        .save_all_windows("both", "a\nb\n", raw)
        .unwrap();
    assert!(plan.text.starts_with("-- gtab: format=2 windows=2\n"));
    assert!(plan.text.contains("set_frame:-5,0,1024,768"));
    assert!(gtab::workspace::script_has_multiple_windows(
        plan.text.as_str()
    ));
}

#[test]
fn captures_that_cannot_be_read_are_refused() {
    let env = test_env();
    assert_eq!(
        env.save_current_window("a", "  \n").unwrap_err().message(),
        "could not read Ghostty tabs (make sure Ghostty is the frontmost app)"
    );
    assert_eq!(
        env.save_current_window("a", "nothing").unwrap_err().message(),
        "could not parse Ghostty tabs (make sure Ghostty is the frontmost app)"
    );
    assert_eq!(
        env.save_all_windows("a", "1\n2\n", "nothing")
            .unwrap_err()
            .message(),
        "could not parse Ghostty windows (unexpected capture output)"
    );
    assert_eq!(
        env.save_all_windows("a", "1\n2\n", "x\n@@SURFACES@@\n")
            .unwrap_err()
            .message(),
        "could not read Ghostty window frames (check Accessibility permissions)"
    );
    assert_eq!(
        env.save_all_windows("a", "1\n2\n", "1\t0\t0\t5\t5\n@@SURFACES@@\nx")
            .unwrap_err()
            .message(),
        "could not parse Ghostty tabs (make sure Ghostty is running)"
    );
    assert_eq!(capture_script(false, 5), CAPTURE_FRONT_WINDOW);
    assert_eq!(capture_script(true, 1), CAPTURE_FRONT_WINDOW);
    assert_eq!(capture_script(true, 2), CAPTURE_ALL_WINDOWS);
}

#[test]
fn launches_follow_the_window_where_they_can() {
    let env = test_env();
    let plain = "set initial working directory of cfg1 to \"/tmp\"\n";
    let plan = env
        .launch_workspace_from_tui_with_frame("a", true, plain, "/home/me")
        .unwrap();
    assert!(plan.follow_window);
    assert!(plan.warning.is_none());
    assert_eq!(plan.path, "/tmp/gtab/a.applescript");

    let several = "-- gtab: format=2 windows=2\ntell application \"Ghostty\"\n    activate\n\n    set cfg1_1 to new surface configuration\n    set initial working directory of cfg1_1 to \"/tmp/one\"\n    set win1 to new window with configuration cfg1_1\n    set p1_1 to focused terminal of selected tab of win1\n\n    set cfg2_1 to new surface configuration\n    set initial working directory of cfg2_1 to \"/tmp/two\"\n    set win2 to new window with configuration cfg2_1\n    set p2_1 to focused terminal of selected tab of win2\nend tell\n";
    let plan = env
        .launch_workspace_from_tui_with_frame("a", true, several, "/home/me")
        .unwrap();
    assert!(!plan.follow_window);
    assert!(plan.warning.is_none());

    let custom = format!("{plain}set command of cfg1 to \"make\"\n");
    let plan = env
        .launch_workspace_from_tui_with_frame("a", true, custom.as_str(), "/home/me")
        .unwrap();
    assert!(!plan.follow_window);
    assert_eq!(
        plan.warning.as_deref(),
        Some("workspace launched without frame sync; saved AppleScript uses unsupported custom configuration")
    );

    let plan = env
        .launch_workspace_from_tui_with_frame("a", true, "activate\n", "/home/me")
        .unwrap();
    assert_eq!(
        plan.warning.as_deref(),
        Some("workspace launched without frame sync; saved AppleScript could not be reconstructed")
    );

    assert_eq!(
        env.launch_workspace("a", false).unwrap_err().message(),
        "workspace 'a' not found"
    );
    assert!(!env.launch_workspace("a", true).unwrap().close_tab);
    assert_eq!(
        env.capture_frontmost_ghostty_window_frame("1\t2\t3\t4")
            .unwrap(),
        WindowFrame::new(1, 2, 3, 4)
    );
}

#[test]
fn directories_are_opened_by_scripts() {
    let env = test_env();
    assert!(env
        .open_directory_in_focused_terminal("/tmp/it's", true, true)
        .unwrap()
        .contains("input text \" cd -- '/tmp/it'\\\"'\\\"'s'\" to term"));
    assert!(env
        .replace_directory_in_focused_terminal("/tmp/docs", true, true)
        .unwrap()
        .contains("set initial working directory of cfg to \"/tmp/docs\""));
    assert!(env
        .replace_directory_in_focused_terminal("/tmp/docs", false, false)
        .is_err());
}

#[test]
fn what_commands_print_is_read() {
    assert_eq!(launch_failure(" \n").message(), "workspace launch failed");
    assert_eq!(
        launch_failure(" boom\n").message(),
        "workspace launch failed: boom"
    );
    assert_eq!(editor_command(Some("nano")), "nano");
    assert_eq!(editor_command(Some("  ")), "vim");
    assert_eq!(editor_command(None), "vim");
    assert_eq!(launchctl_domain("501\n").unwrap(), "gui/501");
    assert_eq!(
        launchctl_domain("\n").unwrap_err().message(),
        "failed to resolve current user id"
    );
    assert_eq!(parent_process(" 42 \n").unwrap(), "42");
    assert_eq!(
        parent_process("").unwrap_err().message(),
        "failed to resolve parent process"
    );
    assert_eq!(home_or_root(None), "/");
    assert_eq!(home_or_root(Some("/home/me")), "/home/me");
}

#[test]
fn editors_open_the_file_of_a_workspace() {
    let (command, path) = test_env().open_in_editor("alpha", Some("nano")).unwrap();
    assert_eq!(command, "nano");
    assert_eq!(path, "/tmp/gtab/alpha.applescript");
    assert_eq!(
        test_env()
            .open_in_editor("a/b", None)
            .unwrap_err()
            .message(),
        "invalid workspace name 'a/b'"
    );
}

#[test]
fn places_are_resolved() {
    assert_eq!(
        resolve_base_dir(Some("/data/gtab"), None).unwrap(),
        "/data/gtab"
    );
    assert_eq!(
        resolve_base_dir(None, Some("/home/me")).unwrap(),
        "/home/me/.config/gtab"
    );
    assert_eq!(
        resolve_base_dir(None, None).unwrap_err().message(),
        "failed to resolve home directory"
    );
    assert_eq!(
        legacy_hotkey_plist_path(Some("/home/me")).unwrap(),
        "/home/me/Library/LaunchAgents/com.franvy.gtab.hotkey.plist"
    );
    assert_eq!(
        legacy_hotkey_service("gui/501"),
        "gui/501/com.franvy.gtab.hotkey"
    );
    assert_eq!(
        legacy_artifacts("/tmp/gtab"),
        (
            "/tmp/gtab/gtab-hotkey.log".to_string(),
            "/tmp/gtab/launcher.sh".to_string()
        )
    );
    let candidates = ghostty_config_candidates("/home/me", None);
    assert_eq!(
        resolve_ghostty_config_path(&candidates, true, true),
        "/home/me/.config/ghostty/config.ghostty"
    );
    assert_eq!(
        resolve_ghostty_config_path(&candidates, false, true),
        "/home/me/.config/ghostty/config"
    );
    assert_eq!(
        resolve_ghostty_config_path(&candidates, false, false),
        "/home/me/.config/ghostty/config.ghostty"
    );
    let candidates = ghostty_config_candidates("/home/me", Some("/xdg"));
    assert_eq!(
        resolve_ghostty_config_path(&candidates, true, false),
        "/xdg/ghostty/config.ghostty"
    );
}

#[test]
fn links_are_followed() {
    assert_eq!(join_path("/a", "b"), "/a/b");
    assert_eq!(join_path("/a/", "b"), "/a/b");
    assert_eq!(join_path("", "b"), "b");
    assert_eq!(follow_link(Some("/a"), "b/c"), "/a/b/c");
    assert_eq!(follow_link(Some("/a"), "/b/c"), "/b/c");
    assert_eq!(follow_link(None, "b"), "./b");
    assert!(is_in_nix_store("/nix/store/abc"));
    assert!(is_in_nix_store("/nix//store"));
    assert!(!is_in_nix_store("/nix/storage"));
    assert!(!is_in_nix_store("nix/store"));
    assert!(is_externally_managed("/nix/store/x", None));
    assert!(is_externally_managed("/home/x", Some("/nix/store/x")));
    assert!(!is_externally_managed("/home/x", Some("/home/y")));
    assert!(!is_externally_managed("/home/x", None));
}

#[test]
fn enabling_ghostty_sync_adds_managed_include_reference() {
    assert_eq!(
        plan_config_sync(None, OWN_FILE, true, false),
        ConfigPlan::Write(
            "# gtab managed include\nconfig-file = \"/tmp/gtab-shortcut.conf\"\n".to_string()
        )
    );
}

#[test]
fn enabling_ghostty_sync_is_idempotent() {
    let text = "# gtab managed include\nconfig-file = \"/tmp/gtab-shortcut.conf\"\n";
    assert_eq!(
        plan_config_sync(Some(text), OWN_FILE, true, false),
        ConfigPlan::Keep
    );
    // Nothing is to be written, so nobody has to be asked.
    assert_eq!(
        plan_config_sync(Some(text), OWN_FILE, true, true),
        ConfigPlan::Keep
    );
}

#[test]
fn enabling_ghostty_sync_deduplicates_existing_managed_reference() {
    let text = "font-size = 15\n\n# gtab managed include\nconfig-file = \"/tmp/gtab-shortcut.conf\"\n\n# gtab managed include\nconfig-file = \"/tmp/gtab-shortcut.conf\"\n";
    assert_eq!(
        plan_config_sync(Some(text), OWN_FILE, true, false),
        ConfigPlan::Write(
            "font-size = 15\n\n# gtab managed include\nconfig-file = \"/tmp/gtab-shortcut.conf\"\n"
                .to_string()
        )
    );
}

#[test]
fn disabling_ghostty_sync_removes_managed_include_and_preserves_other_config() {
    let text = "theme = dark\nconfig-file = \"/tmp/shared.conf\"\n\n# gtab managed include\nconfig-file = \"/tmp/gtab-shortcut.conf\"\nshell-integration = zsh";
    assert_eq!(
        plan_config_sync(Some(text), OWN_FILE, false, false),
        ConfigPlan::Write(
            "theme = dark\nconfig-file = \"/tmp/shared.conf\"\nshell-integration = zsh\n"
                .to_string()
        )
    );
}

#[test]
fn enabling_ghostty_sync_updates_writable_symlink_target() {
    let plan = plan_config_sync(Some("font-size = 14\n"), OWN_FILE, true, false);
    assert_eq!(
        plan,
        ConfigPlan::Write(
            "font-size = 14\n\n# gtab managed include\nconfig-file = \"/tmp/gtab-shortcut.conf\"\n"
                .to_string()
        )
    );
    assert_eq!(
        config_sync_result(&plan, WriteOutcome::Written),
        GhosttyConfigSync::Updated
    );
}

#[test]
fn enabling_ghostty_sync_reports_manual_config_for_nix_symlink_chain() {
    let step = follow_link(Some("/tmp/dir"), "config");
    assert_eq!(step, "/tmp/dir/config");
    let resolved = follow_link(
        Some("/tmp/dir"),
        "/nix/store/gtab-test-home-manager/.config/ghostty/config",
    );
    let managed = is_externally_managed("/tmp/dir/config.ghostty", Some(resolved.as_str()));
    let plan = plan_config_sync(None, OWN_FILE, true, managed);
    assert_eq!(plan, ConfigPlan::Manual);
    assert_eq!(
        config_sync_result(&plan, WriteOutcome::Written),
        GhosttyConfigSync::ManualConfigRequired {
            reason: GHOSTTY_EXTERNAL_CONFIG_REASON.to_string(),
        }
    );
    assert_eq!(
        plan_config_sync(None, OWN_FILE, false, managed),
        ConfigPlan::Keep
    );
}

#[test]
fn enabling_ghostty_sync_falls_back_to_manual_config_for_read_only_file() {
    let plan = plan_config_sync(Some("font-size = 14\n"), OWN_FILE, true, false);
    assert!(is_manual_config_error(true, None));
    assert!(is_manual_config_error(false, Some(30)));
    assert!(!is_manual_config_error(false, Some(2)));
    assert_eq!(
        config_sync_result(&plan, WriteOutcome::ReadOnly),
        GhosttyConfigSync::ManualConfigRequired {
            reason: GHOSTTY_EXTERNAL_CONFIG_REASON.to_string(),
        }
    );
}

#[test]
fn init_shortcuts_reports_manual_setup_when_ghostty_config_is_nix_managed() {
    let mut env = test_env();
    env.init_shortcuts();
    let sync = env.preview_ghostty_shortcut_sync(Some("/xdg/ghostty/config.ghostty"));
    let files = ShortcutFiles {
        include_text: None,
        include_exists: false,
        config_text: None,
        externally_managed: true,
    };
    let plan = env.ensure_ghostty_shortcut(Some("/xdg/ghostty/config.ghostty"), &files);
    assert!(matches!(plan.own_file, FilePlan::Write(_)));
    let result = shortcut_sync_result(&sync, &plan, WriteOutcome::Written);
    assert_eq!(
        result.status,
        GhosttyShortcutApplyStatus::ManualConfigRequired
    );
    assert_eq!(
        result.include_config_line(),
        render_ghostty_include_config_line(result.sync.include_path.as_str())
    );
    assert_eq!(
        result.sync.include_path,
        "/tmp/gtab/ghostty-shortcut.conf"
    );
    assert_eq!(result.sync.config_path, "/xdg/ghostty/config.ghostty");
}

#[test]
fn switching_the_shortcut_off_removes_its_file() {
    let sync = GhosttyShortcutSync {
        config_path: "/c".to_string(),
        include_path: OWN_FILE.to_string(),
        shortcut: "off".to_string(),
    };
    let files = ShortcutFiles {
        include_text: Some("x".to_string()),
        include_exists: true,
        config_text: Some("font-size = 14\n".to_string()),
        externally_managed: false,
    };
    let plan = plan_shortcut_sync(&sync, &files);
    assert!(!plan.enabled);
    assert_eq!(plan.own_file, FilePlan::Remove);
    assert_eq!(plan.config, ConfigPlan::Keep);
    assert_eq!(
        shortcut_sync_result(&sync, &plan, WriteOutcome::Written).status,
        GhosttyShortcutApplyStatus::UpdatedConfig
    );

    let text = "# gtab managed include\nconfig-file = \"/tmp/gtab-shortcut.conf\"\n";
    let managed = ShortcutFiles {
        include_text: None,
        include_exists: false,
        config_text: Some(text.to_string()),
        externally_managed: true,
    };
    let plan = plan_shortcut_sync(&sync, &managed);
    assert_eq!(plan.own_file, FilePlan::Keep);
    assert_eq!(
        shortcut_sync_result(&sync, &plan, WriteOutcome::Written).status,
        GhosttyShortcutApplyStatus::ManualConfigRemovalRequired
    );
}

#[test]
fn syncing_a_second_time_changes_nothing() {
    let existing = "theme = dark\n\n# mine\nfont-size = 14\n";
    let first = match plan_config_sync(Some(existing), OWN_FILE, true, false) {
        ConfigPlan::Write(text) => text,
        other => panic!("expected a change, got {other:?}"),
    };
    assert_eq!(
        plan_config_sync(Some(first.as_str()), OWN_FILE, true, false),
        ConfigPlan::Keep
    );
    assert_eq!(
        plan_config_sync(Some(first.as_str()), OWN_FILE, false, false),
        ConfigPlan::Write(existing.to_string())
    );
}
