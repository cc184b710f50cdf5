//! The command line: what each command asks for, and what is printed.

use vstd::prelude::*;

use crate::app::TuiExit;
use crate::applescript::render_shell_cd_command;
use crate::error::Error;
use crate::shortcut::{GhosttyShortcutApplyResult, GhosttyShortcutApplyStatus};
use crate::text::same_str;

verus! {

/// What was typed.
#[derive(Debug)]
pub struct Cli {
    pub version: bool,
    pub shell_cd: bool,
    pub command: Option<Commands>,
    pub workspace: Option<String>,
}

/// A command.
#[derive(Debug)]
pub enum Commands {
    /// Open the browser.
    Tui,
    /// Set up the default shortcut.
    Init,
    /// List the saved workspaces.
    List,
    /// Save the front window, or all windows, as a workspace.
    Save { name: String, all: bool },
    /// Edit a workspace.
    Edit { name: String },
    /// Rename a workspace.
    Rename { old_name: String, new_name: String },
    /// Remove a workspace.
    Remove { name: String },
    /// Show or change the settings.
    Settings { key: Option<String>, value: Option<String> },
}

/// What is to be done.
#[derive(Debug)]
pub enum Request {
    Version,
    Tui,
    Launch(String),
    Init,
    List,
    Save(String, bool),
    Edit(String),
    /// The new name is the old one.
    KeepName,
    Rename(String, String),
    Remove(String),
    Settings(Option<String>, Option<String>),
}

/// Decides what is to be done.
pub fn plan_command(cli: Cli) -> (r: Result<Request, Error>)
    ensures
        match (cli.version, cli.command, cli.workspace) {
            (true, _, _) => r == Ok::<Request, Error>(Request::Version),
            (false, None, None) => r == Ok::<Request, Error>(Request::Tui),
            (false, None, Some(name)) => r == Ok::<Request, Error>(Request::Launch(name)),
            (false, Some(_), Some(_)) => r == Err::<Request, Error>(Error::UnexpectedArguments),
            (false, Some(Commands::Tui), None) => r == Ok::<Request, Error>(Request::Tui),
            (false, Some(Commands::Init), None) => r == Ok::<Request, Error>(Request::Init),
            (false, Some(Commands::List), None) => r == Ok::<Request, Error>(Request::List),
            (false, Some(Commands::Save { name, all }), None) => r == Ok::<Request, Error>(
                Request::Save(name, all),
            ),
            (false, Some(Commands::Edit { name }), None) => r == Ok::<Request, Error>(
                Request::Edit(name),
            ),
            (false, Some(Commands::Rename { old_name, new_name }), None) => if old_name@
                == new_name@ {
                r == Ok::<Request, Error>(Request::KeepName)
            } else {
                r == Ok::<Request, Error>(Request::Rename(old_name, new_name))
            },
            (false, Some(Commands::Remove { name }), None) => r == Ok::<Request, Error>(
                Request::Remove(name),
            ),
            (false, Some(Commands::Settings { key, value }), None) => r == Ok::<Request, Error>(
                Request::Settings(key, value),
            ),
        },
{
    if cli.version {
        return Ok(Request::Version);
    }
    match (cli.command, cli.workspace) {
        (None, None) => Ok(Request::Tui),
        (None, Some(name)) => Ok(Request::Launch(name)),
        (Some(_), Some(_)) => Err(Error::UnexpectedArguments),
        (Some(command), None) => match command {
            Commands::Tui => Ok(Request::Tui),
            Commands::Init => Ok(Request::Init),
            Commands::List => Ok(Request::List),
            Commands::Save { name, all } => Ok(Request::Save(name, all)),
            Commands::Edit { name } => Ok(Request::Edit(name)),
            Commands::Rename { old_name, new_name } => {
                if same_str(old_name.as_str(), new_name.as_str()) {
                    Ok(Request::KeepName)
                } else {
                    Ok(Request::Rename(old_name, new_name))
                }
            },
            Commands::Remove { name } => Ok(Request::Remove(name)),
            Commands::Settings { key, value } => Ok(Request::Settings(key, value)),
        },
    }
}

/// What is to be done with the settings.
#[derive(Debug)]
pub enum SetRequest {
    Show,
    CloseTab(bool),
    Shortcut(String),
}

/// What such a request holds.
pub enum SetRequestView {
    Show,
    CloseTab(bool),
    Shortcut(Seq<char>),
}

impl View for SetRequest {
    type V = SetRequestView;

    open spec fn view(&self) -> SetRequestView {
        match self {
            SetRequest::Show => SetRequestView::Show,
            SetRequest::CloseTab(enabled) => SetRequestView::CloseTab(*enabled),
            SetRequest::Shortcut(shortcut) => SetRequestView::Shortcut(shortcut@),
        }
    }
}

/// What a setting's name and value ask for.
pub open spec fn set_request(key: Option<Seq<char>>, value: Option<Seq<char>>) -> Result<
    SetRequestView,
    Error,
> {
    match (key, value) {
        (None, None) => Ok(SetRequestView::Show),
        (None, Some(_)) => Err(Error::SetUsage),
        (Some(_), None) => Err(Error::UnknownSetting),
        (Some(key), Some(value)) => if key == "close_tab"@ {
            if value == "on"@ || value == "true"@ {
                Ok(SetRequestView::CloseTab(true))
            } else if value == "off"@ || value == "false"@ {
                Ok(SetRequestView::CloseTab(false))
            } else {
                Err(Error::CloseTabValue)
            }
        } else if key == "launch_mode"@ {
            Err(Error::LaunchModeRemoved)
        } else if key == "global_shortcut"@ {
            Err(Error::GlobalShortcutRemoved)
        } else if key == "ghostty_shortcut"@ {
            Ok(SetRequestView::Shortcut(value))
        } else {
            Err(Error::UnknownSetting)
        },
    }
}

/// Decides what is to be done with the settings.
pub fn handle_set(key: Option<&str>, value: Option<&str>) -> (r: Result<SetRequest, Error>)
    ensures
        match (
            r,
            set_request(
                match key {
                    Some(key) => Some(key@),
                    None => None,
                },
                match value {
                    Some(value) => Some(value@),
                    None => None,
                },
            ),
        ) {
            (Ok(request), Ok(wanted)) => request@ == wanted,
            (Err(e), Err(wanted)) => e == wanted,
            _ => false,
        },
{
    let (key, value) = match (key, value) {
        (None, None) => {
            return Ok(SetRequest::Show);
        },
        (None, Some(_)) => {
            return Err(Error::SetUsage);
        },
        (Some(_), None) => {
            return Err(Error::UnknownSetting);
        },
        (Some(key), Some(value)) => (key, value),
    };
    if same_str(key, "close_tab") {
        if same_str(value, "on") || same_str(value, "true") {
            return Ok(SetRequest::CloseTab(true));
        }
        if same_str(value, "off") || same_str(value, "false") {
            return Ok(SetRequest::CloseTab(false));
        }
        return Err(Error::CloseTabValue);
    }
    proof {
        reveal_strlit("close_tab");
        reveal_strlit("launch_mode");
        reveal_strlit("global_shortcut");
        reveal_strlit("ghostty_shortcut");
    }
    if same_str(key, "launch_mode") {
        return Err(Error::LaunchModeRemoved);
    }
    if same_str(key, "global_shortcut") {
        return Err(Error::GlobalShortcutRemoved);
    }
    if same_str(key, "ghostty_shortcut") {
        return Ok(SetRequest::Shortcut(value.to_string()));
    }
    Err(Error::UnknownSetting)
}

/// What is said where a directory could not be opened.
pub const DIRECTORY_OPEN_FAILED: &'static str =
    "directory open failed. You can also run `gtab --shell-cd` through a shell wrapper fallback.";

/// What is said where a directory could not be put into the focused split.
pub const DIRECTORY_REPLACE_FAILED: &'static str =
    "directory replace failed. This action swaps the current split with a fresh shell in the target directory.";

/// What is left to do once the browser is closed.
#[derive(Debug)]
pub enum ExitPlan {
    Nothing,
    /// Print a command for the shell.
    Print(String),
    /// Change to a directory in the focused terminal.
    Open(String),
    /// Put a shell in a directory where the focused split was.
    Replace(String),
}

/// Decides what is left to do once the browser is closed.
pub fn handle_tui_exit(exit: TuiExit, shell_cd: bool) -> (r: ExitPlan)
    ensures
        match exit {
            TuiExit::Nothing => r is Nothing,
            TuiExit::Cd(path) => if shell_cd {
                r matches ExitPlan::Print(text) && text@ == crate::applescript::cd_command(path@)
            } else {
                r == ExitPlan::Open(path)
            },
            TuiExit::ReplaceSplit(path) => if shell_cd {
                r matches ExitPlan::Print(text) && text@ == crate::applescript::cd_command(path@)
            } else {
                r == ExitPlan::Replace(path)
            },
        },
{
    match exit {
        TuiExit::Nothing => ExitPlan::Nothing,
        TuiExit::Cd(path) => {
            if shell_cd {
                ExitPlan::Print(render_shell_cd_command(path.as_str()))
            } else {
                ExitPlan::Open(path)
            }
        },
        TuiExit::ReplaceSplit(path) => {
            if shell_cd {
                ExitPlan::Print(render_shell_cd_command(path.as_str()))
            } else {
                ExitPlan::Replace(path)
            }
        },
    }
}

// What is printed.
/// Two texts, one behind the other.
fn concat(before: &str, after: &str) -> (r: String)
    ensures
        r@ == before@ + after@,
{
    let mut out = before.to_string();
    out.append(after);
    out
}

/// Appends a line.
fn say(out: &mut Vec<String>, line: String)
    ensures
        crate::text::string_views(final(out)@) == crate::text::string_views(old(out)@).push(
            line@,
        ),
{
    out.push(line);
    assert(crate::text::string_views(out@) =~= crate::text::string_views(old(out)@).push(
        line@,
    ));
}

/// The lines before the reason are followed by it, where there is one.
pub open spec fn reason_lines(reason: Option<Seq<char>>) -> Seq<Seq<char>> {
    match reason {
        Some(text) => seq![text],
        None => seq![],
    }
}

/// What is printed where the user has to change a configuration.
pub open spec fn manual_addition(result: GhosttyShortcutApplyResult) -> Seq<Seq<char>> {
    reason_lines(crate::text::opt_view(result.reason)) + seq![
        "Add this line to your Ghostty config source (for example Nix/Home Manager):"@,
        "  "@ + crate::config::reference_line(result.sync.include_path@),
        "Rebuild/apply your config, then reload or restart Ghostty."@,
    ]
}

/// What is printed where the user has to change a configuration back.
pub open spec fn manual_removal(result: GhosttyShortcutApplyResult) -> Seq<Seq<char>> {
    reason_lines(crate::text::opt_view(result.reason)) + seq![
        "Remove this line from your Ghostty config source (for example Nix/Home Manager):"@,
        "  "@ + crate::config::reference_line(result.sync.include_path@),
        "Rebuild/apply your config, then reload or restart Ghostty to disable Cmd+G."@,
    ]
}

/// What is printed once the default shortcut is set up.
pub open spec fn init_lines_of(result: GhosttyShortcutApplyResult) -> Seq<Seq<char>> {
    seq![
        "Initialized Ghostty-local shortcut."@,
        "  ghostty_shortcut = "@ + result.sync.shortcut@,
        "  ghostty_config = "@ + result.sync.config_path@,
        "  ghostty_include = "@ + result.sync.include_path@,
    ] + if result.status == GhosttyShortcutApplyStatus::ManualConfigRequired {
        manual_addition(result)
    } else {
        seq!["Reload Ghostty config or restart Ghostty, then press Cmd+G inside Ghostty."@]
    }
}

/// What is printed once a shortcut is set up.
pub open spec fn enabled_lines(result: GhosttyShortcutApplyResult) -> Seq<Seq<char>> {
    seq![
        "Managed Ghostty keybind file: "@ + result.sync.include_path@,
        "This shortcut types `gtab` into the focused Ghostty shell."@,
    ] + if result.status == GhosttyShortcutApplyStatus::ManualConfigRequired {
        manual_addition(result)
    } else {
        seq!["Reload Ghostty config or restart Ghostty to apply the shortcut."@]
    }
}

/// What is printed once the shortcut is switched off.
pub open spec fn disabled_lines(result: GhosttyShortcutApplyResult) -> Seq<Seq<char>> {
    if result.status == GhosttyShortcutApplyStatus::ManualConfigRemovalRequired {
        seq![
            "Removed the local managed Ghostty shortcut file: "@ + result.sync.include_path@,
        ] + manual_removal(result)
    } else {
        seq![
            "Removed managed Ghostty shortcut reference from:"@,
            "  "@ + result.sync.config_path@,
            "Ghostty-local shortcut is now disabled."@,
            "Reload Ghostty config or restart Ghostty to stop Cmd+G from typing `gtab`."@,
        ]
    }
}

/// What is printed once a setting of the shortcut is saved.
pub open spec fn shortcut_lines_of(shortcut: Seq<char>, result: GhosttyShortcutApplyResult) -> Seq<
    Seq<char>,
> {
    seq!["Set ghostty_shortcut = "@ + shortcut] + if shortcut == "off"@ {
        disabled_lines(result)
    } else {
        enabled_lines(result)
    }
}

/// Prints the reason.
fn say_reason(out: &mut Vec<String>, result: &GhosttyShortcutApplyResult)
    ensures
        crate::text::string_views(final(out)@) == crate::text::string_views(old(out)@)
            + reason_lines(crate::text::opt_view(result.reason)),
{
    let ghost before = crate::text::string_views(out@);
    match &result.reason {
        Some(reason) => {
            say(out, reason.clone());
        },
        None => {},
    }
    assert(crate::text::string_views(out@) =~= before + reason_lines(
        crate::text::opt_view(result.reason),
    ));
}

/// Prints that the user has to change a configuration.
fn print_manual_config_addition(out: &mut Vec<String>, result: &GhosttyShortcutApplyResult)
    ensures
        crate::text::string_views(final(out)@) == crate::text::string_views(old(out)@)
            + manual_addition(*result),
{
    let ghost before = crate::text::string_views(out@);
    say_reason(out, result);
    say(
        out,
        "Add this line to your Ghostty config source (for example Nix/Home Manager):".to_string(),
    );
    say(out, concat("  ", result.include_config_line().as_str()));
    say(out, "Rebuild/apply your config, then reload or restart Ghostty.".to_string());
    assert(crate::text::string_views(out@) =~= before + manual_addition(*result));
}

/// Prints that the user has to change a configuration back.
fn print_manual_config_removal(out: &mut Vec<String>, result: &GhosttyShortcutApplyResult)
    ensures
        crate::text::string_views(final(out)@) == crate::text::string_views(old(out)@)
            + manual_removal(*result),
{
    let ghost before = crate::text::string_views(out@);
    say_reason(out, result);
    say(
        out,
        "Remove this line from your Ghostty config source (for example Nix/Home Manager):".to_string(),
    );
    say(out, concat("  ", result.include_config_line().as_str()));
    say(
        out,
        "Rebuild/apply your config, then reload or restart Ghostty to disable Cmd+G.".to_string(),
    );
    assert(crate::text::string_views(out@) =~= before + manual_removal(*result));
}

/// What is printed once the default shortcut is set up.
pub fn init_lines(result: &GhosttyShortcutApplyResult) -> (r: Vec<String>)
    ensures
        crate::text::string_views(r@) == init_lines_of(*result),
{
    let mut out: Vec<String> = Vec::new();
    say(&mut out, "Initialized Ghostty-local shortcut.".to_string());
    say(&mut out, concat("  ghostty_shortcut = ", result.sync.shortcut.as_str()));
    say(&mut out, concat("  ghostty_config = ", result.sync.config_path.as_str()));
    say(&mut out, concat("  ghostty_include = ", result.sync.include_path.as_str()));
    if result.status == GhosttyShortcutApplyStatus::ManualConfigRequired {
        print_manual_config_addition(&mut out, result);
    } else {
        say(
            &mut out,
            "Reload Ghostty config or restart Ghostty, then press Cmd+G inside Ghostty.".to_string(),
        );
    }
    assert(crate::text::string_views(out@) =~= init_lines_of(*result));
    out
}

/// Prints that a shortcut is set up.
fn print_enabled_shortcut_result(out: &mut Vec<String>, result: &GhosttyShortcutApplyResult)
    ensures
        crate::text::string_views(final(out)@) == crate::text::string_views(old(out)@)
            + enabled_lines(*result),
{
    let ghost before = crate::text::string_views(out@);
    say(out, concat("Managed Ghostty keybind file: ", result.sync.include_path.as_str()));
    say(out, "This shortcut types `gtab` into the focused Ghostty shell.".to_string());
    if result.status == GhosttyShortcutApplyStatus::ManualConfigRequired {
        print_manual_config_addition(out, result);
    } else {
        say(
            out,
            "Reload Ghostty config or restart Ghostty to apply the shortcut.".to_string(),
        );
    }
    assert(crate::text::string_views(out@) =~= before + enabled_lines(*result));
}

/// Prints that the shortcut is switched off.
fn print_disabled_shortcut_result(out: &mut Vec<String>, result: &GhosttyShortcutApplyResult)
    ensures
        crate::text::string_views(final(out)@) == crate::text::string_views(old(out)@)
            + disabled_lines(*result),
{
    let ghost before = crate::text::string_views(out@);
    if result.status == GhosttyShortcutApplyStatus::ManualConfigRemovalRequired {
        say(
            out,
            concat(
                "Removed the local managed Ghostty shortcut file: ",
                result.sync.include_path.as_str(),
            ),
        );
        print_manual_config_removal(out, result);
    } else {
        say(out, "Removed managed Ghostty shortcut reference from:".to_string());
        say(out, concat("  ", result.sync.config_path.as_str()));
        say(out, "Ghostty-local shortcut is now disabled.".to_string());
        say(
            out,
            "Reload Ghostty config or restart Ghostty to stop Cmd+G from typing `gtab`.".to_string(),
        );
    }
    assert(crate::text::string_views(out@) =~= before + disabled_lines(*result));
}

/// What is printed once a setting of the shortcut is saved.
pub fn shortcut_lines(shortcut: &str, result: &GhosttyShortcutApplyResult) -> (r: Vec<String>)
    ensures
        crate::text::string_views(r@) == shortcut_lines_of(shortcut@, *result),
{
    let mut out: Vec<String> = Vec::new();
    say(&mut out, concat("Set ghostty_shortcut = ", shortcut));
    if same_str(shortcut, "off") {
        print_disabled_shortcut_result(&mut out, result);
    } else {
        print_enabled_shortcut_result(&mut out, result);
    }
    assert(crate::text::string_views(out@) =~= shortcut_lines_of(shortcut@, *result));
    out
}

/// A name in quotes, between two texts.
pub open spec fn quoting(before: Seq<char>, name: Seq<char>, after: Seq<char>) -> Seq<char> {
    before + "\""@ + name + "\""@ + after
}

fn quote(before: &str, name: &str, after: &str) -> (r: String)
    ensures
        r@ == quoting(before@, name@, after@),
{
    let mut out = before.to_string();
    out.append("\"");
    out.append(name);
    out.append("\"");
    out.append(after);
    out
}

/// What is printed before a workspace is launched.
pub fn launching_line(name: &str) -> (r: String)
    ensures
        r@ == quoting("Launching "@, name@, "..."@),
{
    quote("Launching ", name, "...")
}

/// What is printed once a workspace is saved.
pub fn saved_lines(name: &str, path: &str) -> (r: Vec<String>)
    ensures
        crate::text::string_views(r@) == seq![
            quoting("Saved workspace "@, name@, ""@),
            "  "@ + path@,
        ],
{
    let mut out: Vec<String> = Vec::new();
    say(&mut out, quote("Saved workspace ", name, ""));
    say(&mut out, concat("  ", path));
    assert(crate::text::string_views(out@) =~= seq![
        quoting("Saved workspace "@, name@, ""@),
        "  "@ + path@,
    ]);
    out
}

/// What is printed once a workspace is renamed.
pub fn renamed_line(old_name: &str, new_name: &str) -> (r: String)
    ensures
        r@ == quoting(quoting("Renamed workspace "@, old_name@, " to "@), new_name@, ""@),
{
    let before = quote("Renamed workspace ", old_name, " to ");
    quote(before.as_str(), new_name, "")
}

/// What is printed once a workspace is removed.
pub fn removed_line(name: &str) -> (r: String)
    ensures
        r@ == quoting("Removed workspace "@, name@, ""@),
{
    quote("Removed workspace ", name, "")
}

/// What is printed once it is set whether tabs are closed.
pub fn close_tab_line(enabled: bool) -> (r: &'static str)
    ensures
        r@ == if enabled {
            "Set close_tab = on"@
        } else {
            "Set close_tab = off"@
        },
{
    if enabled {
        "Set close_tab = on"
    } else {
        "Set close_tab = off"
    }
}

/// Asking for a setting is asking for what the line `key=value` of the settings' file says:
/// the same switch, and the same shortcut. A name that is no setting is refused, and so is
/// a switch that is neither on nor off.
pub proof fn requests_say_what_the_file_says(key: Seq<char>, value: Seq<char>)
    ensures
        ({
            let r = set_request(Some(key), Some(value));
            let line = key + seq!['='] + value;
            let read = crate::config::with_setting(crate::config::default_settings(), line);
            &&& r is Ok ==> key == "close_tab"@ || key == "ghostty_shortcut"@
            &&& key == "close_tab"@ ==> (r is Ok <==> value == "on"@ || value == "true"@ || value
                == "off"@ || value == "false"@)
            &&& key == "close_tab"@ && r is Ok ==> read is Ok && r->Ok_0
                == SetRequestView::CloseTab(read->Ok_0.close_tab)
            &&& key == "ghostty_shortcut"@ ==> r == Ok::<SetRequestView, Error>(
                SetRequestView::Shortcut(value),
            )
            &&& r is Err && key == "close_tab"@ ==> r->Err_0 == Error::CloseTabValue
            &&& key == "launch_mode"@ ==> r == Err::<SetRequestView, Error>(
                Error::LaunchModeRemoved,
            )
            &&& key == "global_shortcut"@ ==> r == Err::<SetRequestView, Error>(
                Error::GlobalShortcutRemoved,
            )
            &&& r is Err && key != "close_tab"@ && key != "launch_mode"@ && key
                != "global_shortcut"@ ==> r->Err_0 == Error::UnknownSetting
        }),
        set_request(None, None) == Ok::<SetRequestView, Error>(SetRequestView::Show),
        set_request(None, Some(value)) == Err::<SetRequestView, Error>(Error::SetUsage),
        set_request(Some(key), None) == Err::<SetRequestView, Error>(Error::UnknownSetting),
{
    reveal_strlit("close_tab");
    reveal_strlit("launch_mode");
    reveal_strlit("global_shortcut");
    reveal_strlit("ghostty_shortcut");
    reveal_strlit("on");
    reveal_strlit("true");
    reveal_strlit("off");
    reveal_strlit("false");
    reveal_strlit("=");
    assert("close_tab"@.len() == 9 && "launch_mode"@.len() == 11 && "global_shortcut"@.len() == 15
        && "ghostty_shortcut"@.len() == 16);
    assert("on"@.len() == 2 && "true"@.len() == 4 && "off"@.len() == 3 && "false"@.len() == 5);
    assert("="@ =~= seq!['=']);
    if key == "close_tab"@ {
        assert(!crate::text::has_char(key, '='));
        let none = Seq::<Seq<char>>::empty();
        assert(crate::config::settings_of(none) is Ok);
        crate::config::last_setting_counts(none, key, value);
        assert(none.push(key + seq!['='] + value).drop_last() =~= none);
        crate::text::lemma_trimmed("close_tab"@);
        crate::text::lemma_trimmed("on"@);
        crate::text::lemma_trimmed("true"@);
        crate::text::lemma_trimmed("off"@);
        crate::text::lemma_trimmed("false"@);
    }
}

/// What is printed of a shortcut that was set up names the shortcut and the files; where
/// the user has to do it, it says why and shows the line that refers to the file.
pub proof fn printed_lines_name_the_files(
    shortcut: Seq<char>,
    result: GhosttyShortcutApplyResult,
)
    ensures
        ({
            let init = init_lines_of(result);
            let set = shortcut_lines_of(shortcut, result);
            let line = "  config-file = \""@ + result.sync.include_path@ + "\""@;
            let reason = crate::text::opt_view(result.reason);
            &&& init.contains("  ghostty_shortcut = "@ + result.sync.shortcut@)
            &&& init.contains("  ghostty_config = "@ + result.sync.config_path@)
            &&& init.contains("  ghostty_include = "@ + result.sync.include_path@)
            &&& set[0] == "Set ghostty_shortcut = "@ + shortcut
            &&& result.status == GhosttyShortcutApplyStatus::ManualConfigRequired ==> init.contains(
                line,
            ) && (reason is Some ==> init.contains(reason->0))
            &&& shortcut != "off"@ ==> set.contains(
                "Managed Ghostty keybind file: "@ + result.sync.include_path@,
            )
            &&& shortcut != "off"@ && result.status
                == GhosttyShortcutApplyStatus::ManualConfigRequired ==> set.contains(line) && (
            reason is Some ==> set.contains(reason->0))
            &&& shortcut == "off"@ && result.status
                == GhosttyShortcutApplyStatus::ManualConfigRemovalRequired ==> set.contains(line)
                && (reason is Some ==> set.contains(reason->0))
            &&& shortcut == "off"@ && result.status
                != GhosttyShortcutApplyStatus::ManualConfigRemovalRequired ==> set.contains(
                "  "@ + result.sync.config_path@,
            )
        }),
{
    reveal_strlit("  config-file = \"");
    reveal_strlit("config-file = \"");
    reveal_strlit("  ");
    let line = "  config-file = \""@ + result.sync.include_path@ + "\""@;
    assert(line =~= "  "@ + crate::config::reference_line(result.sync.include_path@));
    let reason = crate::text::opt_view(result.reason);
    let init = init_lines_of(result);
    let set = shortcut_lines_of(shortcut, result);
    let k: int = if reason is Some {
        1
    } else {
        0
    };
    assert(init[1] == "  ghostty_shortcut = "@ + result.sync.shortcut@);
    assert(init[2] == "  ghostty_config = "@ + result.sync.config_path@);
    assert(init[3] == "  ghostty_include = "@ + result.sync.include_path@);
    if result.status == GhosttyShortcutApplyStatus::ManualConfigRequired {
        assert(init[4 + k + 1] == line);
        if reason is Some {
            assert(init[4] == reason->0);
        }
    }
    if shortcut == "off"@ {
        if result.status == GhosttyShortcutApplyStatus::ManualConfigRemovalRequired {
            assert(set[2 + k + 1] == line);
            if reason is Some {
                assert(set[2] == reason->0);
            }
        } else {
            assert(set[2] == "  "@ + result.sync.config_path@);
        }
    } else {
        assert(set[1] == "Managed Ghostty keybind file: "@ + result.sync.include_path@);
        if result.status == GhosttyShortcutApplyStatus::ManualConfigRequired {
            assert(set[3 + k + 1] == line);
            if reason is Some {
                assert(set[3] == reason->0);
            }
        }
    }
}

} // verus!
