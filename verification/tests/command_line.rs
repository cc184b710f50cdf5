use gtab::app::TuiExit;
use gtab::cli::{
    close_tab_line, handle_set, handle_tui_exit, init_lines, launching_line, plan_command,
    removed_line, renamed_line, saved_lines, shortcut_lines, Cli, Commands, ExitPlan, Request,
    SetRequest,
};
use gtab::error::Error;
use gtab::shortcut::{
    GhosttyShortcutApplyResult, GhosttyShortcutApplyStatus, GhosttyShortcutSync,
};

fn typed(command: Option<Commands>, workspace: Option<&str>) -> Cli {
    Cli {
        version: false,
        shell_cd: false,
        command,
        workspace: workspace.map(str::to_string),
    }
}

fn result(status: GhosttyShortcutApplyStatus, reason: Option<&str>) -> GhosttyShortcutApplyResult {
    GhosttyShortcutApplyResult {
        sync: GhosttyShortcutSync {
            config_path: "/c".to_string(),
            include_path: "/i".to_string(),
            shortcut: "cmd+g".to_string(),
        },
        status,
        reason: reason.map(str::to_string),
    }
}

#[test]
fn commands_are_planned() {
    assert!(matches!(
        plan_command(typed(None, None)),
        Ok(Request::Tui)
    ));
    assert!(matches!(
        plan_command(typed(Some(Commands::Tui), None)),
        Ok(Request::Tui)
    ));
    assert!(matches!(
        plan_command(typed(None, Some("a"))),
        Ok(Request::Launch(name)) if name == "a"
    ));
    assert!(matches!(
        plan_command(typed(Some(Commands::Init), None)),
        Ok(Request::Init)
    ));
    assert!(matches!(
        plan_command(typed(Some(Commands::List), None)),
        Ok(Request::List)
    ));
    assert!(matches!(
        plan_command(typed(
            Some(Commands::Save {
                name: "a".to_string(),
                all: true
            }),
            None
        )),
        Ok(Request::Save(name, true)) if name == "a"
    ));
    assert!(matches!(
        plan_command(typed(
            Some(Commands::Edit {
                name: "a".to_string()
            }),
            None
        )),
        Ok(Request::Edit(name)) if name == "a"
    ));
    assert!(matches!(
        plan_command(typed(
            Some(Commands::Remove {
                name: "a".to_string()
            }),
            None
        )),
        Ok(Request::Remove(name)) if name == "a"
    ));
    assert!(matches!(
        plan_command(typed(
            Some(Commands::Settings {
                key: None,
                value: None
            }),
            None
        )),
        Ok(Request::Settings(None, None))
    ));
    let mut version = typed(Some(Commands::List), Some("a"));
    version.version = true;
    assert!(matches!(plan_command(version), Ok(Request::Version)));
}

#[test]
fn a_command_and_a_workspace_do_not_go_together() {
    assert_eq!(
        plan_command(typed(Some(Commands::List), Some("a")))
            .unwrap_err()
            .message(),
        "unexpected CLI arguments"
    );
}

#[test]
fn renaming_to_the_same_name_is_noticed() {
    let rename = |from: &str, to: &str| {
        plan_command(typed(
            Some(Commands::Rename {
                old_name: from.to_string(),
                new_name: to.to_string(),
            }),
            None,
        ))
    };
    assert!(matches!(rename("a", "a"), Ok(Request::KeepName)));
    assert!(matches!(rename("a", "b"), Ok(Request::Rename(from, to)) if from == "a" && to == "b"));
}

#[test]
fn settings_are_understood() {
    assert!(matches!(handle_set(None, None), Ok(SetRequest::Show)));
    for value in ["on", "true"] {
        assert!(matches!(
            handle_set(Some("close_tab"), Some(value)),
            Ok(SetRequest::CloseTab(true))
        ));
    }
    for value in ["off", "false"] {
        assert!(matches!(
            handle_set(Some("close_tab"), Some(value)),
            Ok(SetRequest::CloseTab(false))
        ));
    }
    assert!(matches!(
        handle_set(Some("ghostty_shortcut"), Some("cmd+k")),
        Ok(SetRequest::Shortcut(shortcut)) if shortcut == "cmd+k"
    ));
}

#[test]
fn wrong_settings_are_refused() {
    let message = |key, value| handle_set(key, value).unwrap_err().message();
    assert_eq!(
        message(Some("close_tab"), Some("maybe")),
        "close_tab value must be 'on' or 'off'"
    );
    assert_eq!(
        message(Some("launch_mode"), Some("x")),
        "launch_mode has been removed; gtab only uses the Ghostty-local shortcut now"
    );
    assert_eq!(
        message(Some("global_shortcut"), Some("x")),
        "global_shortcut has been removed; gtab only uses the Ghostty-local shortcut now"
    );
    assert_eq!(message(Some("theme"), Some("x")), "unknown setting");
    assert_eq!(message(Some("close_tab"), None), "unknown setting");
    assert_eq!(
        message(None, Some("x")),
        "usage: gtab set <key> <value>"
    );
}

#[test]
fn leaving_the_browser_changes_the_directory() {
    assert!(matches!(
        handle_tui_exit(TuiExit::Nothing, true),
        ExitPlan::Nothing
    ));
    assert!(matches!(
        handle_tui_exit(TuiExit::Cd("/tmp/a".to_string()), true),
        ExitPlan::Print(text) if text == "cd -- '/tmp/a'"
    ));
    assert!(matches!(
        handle_tui_exit(TuiExit::Cd("/tmp/a".to_string()), false),
        ExitPlan::Open(path) if path == "/tmp/a"
    ));
    assert!(matches!(
        handle_tui_exit(TuiExit::ReplaceSplit("/tmp/a".to_string()), true),
        ExitPlan::Print(text) if text == "cd -- '/tmp/a'"
    ));
    assert!(matches!(
        handle_tui_exit(TuiExit::ReplaceSplit("/tmp/a".to_string()), false),
        ExitPlan::Replace(path) if path == "/tmp/a"
    ));
}

#[test]
fn lines_are_printed() {
    assert_eq!(launching_line("a"), "Launching \"a\"...");
    assert_eq!(
        saved_lines("a", "/tmp/a"),
        vec!["Saved workspace \"a\"".to_string(), "  /tmp/a".to_string()]
    );
    assert_eq!(renamed_line("a", "b"), "Renamed workspace \"a\" to \"b\"");
    assert_eq!(removed_line("a"), "Removed workspace \"a\"");
    assert_eq!(close_tab_line(true), "Set close_tab = on");
    assert_eq!(close_tab_line(false), "Set close_tab = off");
}

#[test]
fn setting_up_the_shortcut_is_reported() {
    assert_eq!(
        init_lines(&result(GhosttyShortcutApplyStatus::UpdatedConfig, None)),
        vec![
            "Initialized Ghostty-local shortcut.",
            "  ghostty_shortcut = cmd+g",
            "  ghostty_config = /c",
            "  ghostty_include = /i",
            "Reload Ghostty config or restart Ghostty, then press Cmd+G inside Ghostty.",
        ]
    );
    assert_eq!(
        init_lines(&result(
            GhosttyShortcutApplyStatus::ManualConfigRequired,
            Some("why")
        ))[4..],
        [
            "why",
            "Add this line to your Ghostty config source (for example Nix/Home Manager):",
            "  config-file = \"/i\"",
            "Rebuild/apply your config, then reload or restart Ghostty.",
        ]
    );
    assert_eq!(
        shortcut_lines(
            "cmd+g",
            &result(GhosttyShortcutApplyStatus::AlreadyConfigured, None)
        ),
        vec![
            "Set ghostty_shortcut = cmd+g",
            "Managed Ghostty keybind file: /i",
            "This shortcut types `gtab` into the focused Ghostty shell.",
            "Reload Ghostty config or restart Ghostty to apply the shortcut.",
        ]
    );
    assert_eq!(
        shortcut_lines(
            "off",
            &result(GhosttyShortcutApplyStatus::UpdatedConfig, None)
        ),
        vec![
            "Set ghostty_shortcut = off",
            "Removed managed Ghostty shortcut reference from:",
            "  /c",
            "Ghostty-local shortcut is now disabled.",
            "Reload Ghostty config or restart Ghostty to stop Cmd+G from typing `gtab`.",
        ]
    );
    assert_eq!(
        shortcut_lines(
            "off",
            &result(
                GhosttyShortcutApplyStatus::ManualConfigRemovalRequired,
                None
            )
        )[1..],
        [
            "Removed the local managed Ghostty shortcut file: /i",
            "Remove this line from your Ghostty config source (for example Nix/Home Manager):",
            "  config-file = \"/i\"",
            "Rebuild/apply your config, then reload or restart Ghostty to disable Cmd+G.",
        ]
    );
}

#[test]
fn errors_say_what_is_wrong() {
    assert_eq!(
        Error::NoCurrentDirectory.message(),
        "failed to resolve current directory"
    );
    assert_eq!(
        Error::NotADirectory("/a".to_string()).message(),
        "'/a' is not a directory"
    );
    assert_eq!(
        Error::NewWindowTimeout.message(),
        "timed out waiting for the new Ghostty window"
    );
}
