//! A session in the browser: events come in, actions are asked for, and what came of them
//! is shown.

use vstd::prelude::*;

use crate::app::{App, AppState, StatusKind, TuiExit};
use crate::env::AppEnv;
use crate::error::Error;
use crate::input::{Action, ActionView};
use crate::key::{KeyEvent, MouseEvent};
use crate::shortcut::{GhosttyShortcutApplyResult, GhosttyShortcutApplyStatus};
use crate::text::{chars_of, has_prefix, same_str, string_of};
use crate::workspace::{SavedDirectory, Workspace};

verus! {

/// A path as it is shown: the home directory is `~`.
pub open spec fn shown_path(path: Seq<char>, home: Option<Seq<char>>) -> Seq<char> {
    match home {
        Some(home) => if path == home {
            "~"@
        } else if crate::text::starts_with(path, home + "/"@) {
            "~"@ + path.skip(home.len() as int)
        } else {
            path
        },
        None => path,
    }
}

/// A path as it is shown.
pub fn display_path(path: &str, home: Option<&str>) -> (r: String)
    ensures
        r@ == shown_path(path@, crate::dialogs::place_view(home)),
{
    let home = match home {
        Some(home) => home,
        None => {
            return path.to_string();
        },
    };
    if same_str(path, home) {
        return "~".to_string();
    }
    let mut below = home.to_string();
    below.append("/");
    let chars = chars_of(path);
    if has_prefix(chars.as_slice(), below.as_str()) {
        let skipped: usize = chars_of(home).len();
        let mut out = "~".to_string();
        let tail: &[char] = &chars[skipped..chars.len()];
        assert(tail@ == path@.skip(home@.len() as int));
        let rest = string_of(tail);
        out.append(rest.as_str());
        return out;
    }
    path.to_string()
}

/// A name in quotes behind a text.
fn quoted(before: &str, name: &str) -> (r: String)
    ensures
        r@ == named(before@, name@),
{
    let mut out = before.to_string();
    out.append("\"");
    out.append(name);
    out.append("\"");
    out
}

/// What is said once something is saved.
fn saved_text(before: &str, name: &str, path: &str, home: Option<&str>) -> (r: String)
    ensures
        r@ == named(before@, name@) + " to "@ + shown_path(
            path@,
            crate::dialogs::place_view(home),
        ),
{
    let mut out = quoted(before, name);
    out.append(" to ");
    out.append(display_path(path, home).as_str());
    out
}

/// What is said once something is renamed.
fn renamed_text(before: &str, old_name: &str, new_name: &str) -> (r: String)
    ensures
        r@ == named(named(before@, old_name@) + " to "@, new_name@),
{
    let mut out = quoted(before, old_name);
    out.append(" to ");
    quoted(out.as_str(), new_name)
}

/// What is said once a shortcut is set up.
fn shortcut_set_text(result: &GhosttyShortcutApplyResult) -> (r: String)
    ensures
        r@ == shortcut_message(result.sync.shortcut@, result.status),
{
    if same_str(result.sync.shortcut.as_str(), "off") {
        if result.status == GhosttyShortcutApplyStatus::ManualConfigRemovalRequired {
            return "Shortcut file removed. Also remove the include from your Ghostty config source.".to_string();
        }
        return "Ghostty-local shortcut disabled. Run `gtab init` to restore Cmd+G.".to_string();
    }
    if result.status == GhosttyShortcutApplyStatus::ManualConfigRequired {
        return "Shortcut file updated. Add the include to your Ghostty config source, then rebuild.".to_string();
    }
    let mut out = "Ghostty-local shortcut saved as ".to_string();
    out.append(result.sync.shortcut.as_str());
    out.append(". Reload Ghostty config to apply it.");
    out
}

impl AppState {
    /// Other workspaces are listed.
    pub open spec fn with_workspaces(self, workspaces: Seq<Workspace>) -> AppState {
        (AppState { workspaces, last_click: None, ..self }).clamped()
    }

    /// Other directories are listed.
    pub open spec fn with_directories(self, directories: Seq<SavedDirectory>) -> AppState {
        (AppState { directories, last_click: None, ..self }).clamped()
    }
}

/// What is said once a shortcut is set up.
pub open spec fn shortcut_message(
    shortcut: Seq<char>,
    status: GhosttyShortcutApplyStatus,
) -> Seq<char> {
    if shortcut == "off"@ {
        if status == GhosttyShortcutApplyStatus::ManualConfigRemovalRequired {
            "Shortcut file removed. Also remove the include from your Ghostty config source."@
        } else {
            "Ghostty-local shortcut disabled. Run `gtab init` to restore Cmd+G."@
        }
    } else if status == GhosttyShortcutApplyStatus::ManualConfigRequired {
        "Shortcut file updated. Add the include to your Ghostty config source, then rebuild."@
    } else {
        "Ghostty-local shortcut saved as "@ + shortcut
            + ". Reload Ghostty config to apply it."@
    }
}

/// What is said after a launch without the caller's frame: why the frame could not be read.
pub open spec fn frame_warning(error: Seq<char>) -> Seq<char> {
    "workspace launched without frame sync; gtab could not read the current Ghostty window frame: "@
        + error
}

/// What is said after a launch: what the launch itself says, or why the caller's frame
/// could not be read.
pub fn launch_warning_from_tui(warning: Option<String>, frame_error: Option<&str>) -> (r: Option<
    String,
>)
    ensures
        crate::text::opt_view(r) == (match (warning, frame_error) {
            (Some(text), _) => Some(text@),
            (None, Some(error)) => Some(frame_warning(error@)),
            (None, None) => None,
        }),
{
    match warning {
        Some(text) => Some(text),
        None => match frame_error {
            Some(error) => {
                let mut out =
                    "workspace launched without frame sync; gtab could not read the current Ghostty window frame: ".to_string();
                out.append(error);
                Some(out)
            },
            None => None,
        },
    }
}

/// What is said where the input source could not be switched.
pub fn input_source_warning(error: &str) -> (r: String)
    ensures
        r@ == "ASCII input source switch failed; letter shortcuts may not work: "@ + error@,
{
    let mut out =
        "ASCII input source switch failed; letter shortcuts may not work: ".to_string();
    out.append(error);
    out
}

/// Something that happened at the terminal.
#[derive(Clone, Copy, Debug)]
pub enum Event {
    /// A key was pressed.
    Press(KeyEvent),
    /// The mouse did something.
    Mouse(MouseEvent),
    /// Anything else.
    Other,
}

/// What comes after an event.
#[derive(Debug)]
pub enum Next {
    /// The next event.
    Wait,
    /// The browser is closed.
    Exit,
    /// Something is to be done.
    Perform(Action),
}

/// What an action leads to.
pub open spec fn leads_to(action: ActionView, next: Next) -> bool {
    match next {
        Next::Wait => action is Nothing,
        Next::Exit => action is Quit,
        Next::Perform(asked) => asked@ == action && !(action is Nothing) && !(action is Quit),
    }
}

/// What came of an action.
#[derive(Debug)]
pub enum Outcome {
    Failed(String),
    Refreshed(Vec<Workspace>, Vec<SavedDirectory>),
    WorkspaceLaunched,
    WorkspaceSaved { name: String, path: String, workspaces: Vec<Workspace> },
    WorkspaceRenamed { old_name: String, new_name: String, workspaces: Vec<Workspace> },
    WorkspaceEdited { name: String, workspaces: Vec<Workspace> },
    WorkspaceRemoved { name: String, workspaces: Vec<Workspace> },
    /// The directory can be opened.
    DirectoryFound(String),
    DirectorySaved { name: String, path: String, directories: Vec<SavedDirectory> },
    DirectoryRenamed { old_name: String, new_name: String, directories: Vec<SavedDirectory> },
    DirectoryRemoved { name: String, directories: Vec<SavedDirectory> },
    CloseTabSet,
    ShortcutSet(GhosttyShortcutApplyResult),
}

/// What is said of something with a name.
pub open spec fn named(before: Seq<char>, name: Seq<char>) -> Seq<char> {
    before + "\""@ + name + "\""@
}

/// The state once it is known what came of an action.
pub open spec fn after_outcome(
    s: AppState,
    outcome: Outcome,
    close_tab: bool,
    home: Option<Seq<char>>,
    now: u64,
) -> AppState {
    match outcome {
        Outcome::Failed(message) => s.saying(StatusKind::Error, message@, now),
        Outcome::Refreshed(workspaces, directories) => s.with_workspaces(
            workspaces@,
        ).with_directories(directories@).saying(StatusKind::Success, "Reloaded list"@, now),
        Outcome::WorkspaceLaunched => s,
        Outcome::WorkspaceSaved { name, path, workspaces } => s.without_dialog().with_workspaces(
            workspaces@,
        ).at_name(name@).saying(
            StatusKind::Success,
            named("Saved workspace "@, name@) + " to "@ + shown_path(path@, home),
            now,
        ),
        Outcome::WorkspaceRenamed { old_name, new_name, workspaces } =>
            s.without_dialog().with_workspaces(workspaces@).at_name(new_name@).saying(
            StatusKind::Success,
            named(named("Renamed workspace "@, old_name@) + " to "@, new_name@),
            now,
        ),
        Outcome::WorkspaceEdited { name, workspaces } => s.with_workspaces(workspaces@).at_name(
            name@,
        ).saying(StatusKind::Success, named("Closed editor for "@, name@), now),
        Outcome::WorkspaceRemoved { name, workspaces } => s.without_dialog().with_workspaces(
            workspaces@,
        ).saying(StatusKind::Success, named("Removed workspace "@, name@), now),
        Outcome::DirectoryFound(_) => s,
        Outcome::DirectorySaved { name, path, directories } =>
            s.without_dialog().with_directories(directories@).at_name(name@).saying(
            StatusKind::Success,
            named("Saved directory "@, name@) + " to "@ + shown_path(path@, home),
            now,
        ),
        Outcome::DirectoryRenamed { old_name, new_name, directories } =>
            s.without_dialog().with_directories(directories@).at_name(new_name@).saying(
            StatusKind::Success,
            named(named("Renamed directory "@, old_name@) + " to "@, new_name@),
            now,
        ),
        Outcome::DirectoryRemoved { name, directories } => s.without_dialog().with_directories(
            directories@,
        ).saying(StatusKind::Success, named("Removed directory "@, name@), now),
        Outcome::CloseTabSet => s.saying(
            StatusKind::Success,
            if close_tab {
                "close_tab = on"@
            } else {
                "close_tab = off"@
            },
            now,
        ),
        Outcome::ShortcutSet(result) => (AppState {
            dialog: s.shortcut_return_dialog,
            shortcut_input: seq![],
            ..s
        }).saying(
            StatusKind::Success,
            shortcut_message(result.sync.shortcut@, result.status),
            now,
        ),
    }
}

impl App {
    /// Takes an event.
    pub fn take_event(
        &mut self,
        event: Event,
        env: &AppEnv,
        current_dir: Option<&str>,
        now: u64,
    ) -> (r: Result<Next, Error>)
        ensures
            match event {
                Event::Other => r == Ok::<Next, Error>(Next::Wait) && final(self)@ == old(self)@,
                Event::Press(key) => match (
                    r,
                    crate::input::any_key(
                        old(self)@,
                        key,
                        env.config.ghostty_shortcut@,
                        crate::dialogs::place_view(current_dir),
                        now,
                    ),
                ) {
                    (Ok(next), Some((state, action))) => leads_to(action, next) && final(self)@
                        == state,
                    (Err(e), None) => e is NoCurrentDirectory && final(self)@ == old(self)@,
                    _ => false,
                },
                Event::Mouse(mouse) => {
                    let (state, action) = crate::input::mouse_step(
                        old(self)@,
                        mouse,
                        env.config.ghostty_shortcut@,
                        now,
                    );
                    r matches Ok(next) && leads_to(action, next) && final(self)@ == state
                },
            },
    {
        let action = match event {
            Event::Other => Action::Nothing,
            Event::Press(key) => match self.handle_key(key, env, current_dir, now) {
                Ok(action) => action,
                Err(e) => {
                    return Err(e);
                },
            },
            Event::Mouse(mouse) => self.handle_mouse(mouse, env, now),
        };
        match action {
            Action::Nothing => Ok(Next::Wait),
            Action::Quit => Ok(Next::Exit),
            _ => Ok(Next::Perform(action)),
        }
    }

    /// Shows what came of an action, and says how the browser is closed if it is.
    pub fn complete(
        &mut self,
        outcome: Outcome,
        env: &AppEnv,
        home: Option<&str>,
        now: u64,
    ) -> (r: Option<TuiExit>)
        ensures
            final(self)@ == after_outcome(
                old(self)@,
                outcome,
                env.config.close_tab,
                crate::dialogs::place_view(home),
                now,
            ),
            match outcome {
                Outcome::WorkspaceLaunched => r == Some(TuiExit::Nothing),
                Outcome::DirectoryFound(path) => r == Some(TuiExit::ReplaceSplit(path)),
                _ => r is None,
            },
    {
        match outcome {
            Outcome::Failed(message) => {
                self.set_error(message.as_str(), now);
            },
            Outcome::Refreshed(workspaces, directories) => {
                self.reload_workspaces(workspaces);
                self.reload_directories(directories);
                self.set_success("Reloaded list", now);
            },
            Outcome::WorkspaceLaunched => {
                return Some(TuiExit::Nothing);
            },
            Outcome::WorkspaceSaved { name, path, workspaces } => {
                self.reset_dialogs();
                self.reload_workspaces(workspaces);
                self.select_name(name.as_str());
                let text = saved_text("Saved workspace ", name.as_str(), path.as_str(), home);
                self.set_success(text.as_str(), now);
            },
            Outcome::WorkspaceRenamed { old_name, new_name, workspaces } => {
                self.reset_dialogs();
                self.reload_workspaces(workspaces);
                self.select_name(new_name.as_str());
                let text = renamed_text(
                    "Renamed workspace ",
                    old_name.as_str(),
                    new_name.as_str(),
                );
                self.set_success(text.as_str(), now);
            },
            Outcome::WorkspaceEdited { name, workspaces } => {
                self.reload_workspaces(workspaces);
                self.select_name(name.as_str());
                self.set_success(quoted("Closed editor for ", name.as_str()).as_str(), now);
            },
            Outcome::WorkspaceRemoved { name, workspaces } => {
                self.reset_dialogs();
                self.reload_workspaces(workspaces);
                self.set_success(quoted("Removed workspace ", name.as_str()).as_str(), now);
            },
            Outcome::DirectoryFound(path) => {
                return Some(TuiExit::ReplaceSplit(path));
            },
            Outcome::DirectorySaved { name, path, directories } => {
                self.reset_dialogs();
                self.reload_directories(directories);
                self.select_name(name.as_str());
                let text = saved_text("Saved directory ", name.as_str(), path.as_str(), home);
                self.set_success(text.as_str(), now);
            },
            Outcome::DirectoryRenamed { old_name, new_name, directories } => {
                self.reset_dialogs();
                self.reload_directories(directories);
                self.select_name(new_name.as_str());
                let text = renamed_text(
                    "Renamed directory ",
                    old_name.as_str(),
                    new_name.as_str(),
                );
                self.set_success(text.as_str(), now);
            },
            Outcome::DirectoryRemoved { name, directories } => {
                self.reset_dialogs();
                self.reload_directories(directories);
                self.set_success(quoted("Removed directory ", name.as_str()).as_str(), now);
            },
            Outcome::CloseTabSet => {
                if env.config.close_tab {
                    self.set_success("close_tab = on", now);
                } else {
                    self.set_success("close_tab = off", now);
                }
            },
            Outcome::ShortcutSet(result) => {
                self.dialog = self.shortcut_return_dialog;
                self.shortcut_input = String::new();
                let text = shortcut_set_text(&result);
                self.set_success(text.as_str(), now);
            },
        }
        None
    }
}

/// Whatever comes of an action, the selection stays on a listed item, or on the first
/// place where nothing is listed.
pub proof fn outcomes_keep_selection_valid(
    s: AppState,
    outcome: Outcome,
    close_tab: bool,
    home: Option<Seq<char>>,
    now: u64,
)
    requires
        s.selection_valid(),
    ensures
        after_outcome(s, outcome, close_tab, home, now).selection_valid(),
{
    let t = after_outcome(s, outcome, close_tab, home, now);
    match outcome {
        Outcome::Refreshed(workspaces, directories) => {
            let a = AppState { workspaces: workspaces@, last_click: None, ..s };
            let b = AppState { directories: directories@, last_click: None, ..a.clamped() };
            lemma_then_valid(b, b.clamped(), t, seq![]);
        },
        Outcome::WorkspaceSaved { name, path, workspaces } => {
            let a = AppState { workspaces: workspaces@, last_click: None, ..s.without_dialog() };
            lemma_then_valid(a.clamped(), a.clamped().at_name(name@), t, name@);
        },
        Outcome::WorkspaceRenamed { old_name, new_name, workspaces } => {
            let a = AppState { workspaces: workspaces@, last_click: None, ..s.without_dialog() };
            lemma_then_valid(a.clamped(), a.clamped().at_name(new_name@), t, new_name@);
        },
        Outcome::WorkspaceEdited { name, workspaces } => {
            let a = AppState { workspaces: workspaces@, last_click: None, ..s };
            lemma_then_valid(a.clamped(), a.clamped().at_name(name@), t, name@);
        },
        Outcome::WorkspaceRemoved { name, workspaces } => {
            let a = AppState { workspaces: workspaces@, last_click: None, ..s.without_dialog() };
            lemma_then_valid(a, a.clamped(), t, seq![]);
        },
        Outcome::DirectorySaved { name, path, directories } => {
            let a = AppState {
                directories: directories@,
                last_click: None,
                ..s.without_dialog()
            };
            lemma_then_valid(a.clamped(), a.clamped().at_name(name@), t, name@);
        },
        Outcome::DirectoryRenamed { old_name, new_name, directories } => {
            let a = AppState {
                directories: directories@,
                last_click: None,
                ..s.without_dialog()
            };
            lemma_then_valid(a.clamped(), a.clamped().at_name(new_name@), t, new_name@);
        },
        Outcome::DirectoryRemoved { name, directories } => {
            let a = AppState {
                directories: directories@,
                last_click: None,
                ..s.without_dialog()
            };
            lemma_then_valid(a, a.clamped(), t, seq![]);
        },
        _ => {
            crate::input::lemma_same_items(s, t);
        },
    }
}

/// A state that was clamped, or moved to a name, is valid, and so is one that differs from
/// it in other things.
proof fn lemma_then_valid(a: AppState, b: AppState, t: AppState, name: Seq<char>)
    requires
        a.selected >= 0,
        b == a.clamped() || b == a.at_name(name),
        b.workspaces == t.workspaces,
        b.directories == t.directories,
        b.mode == t.mode,
        b.filter == t.filter,
        b.selected == t.selected,
    ensures
        t.selection_valid(),
{
    crate::input::reloading_keeps_selection_valid(a, name);
    crate::input::lemma_same_items(b, t);
}

// What is shown and selected afterwards.
/// A path below the home directory is shown with `~` in its place, and any other path as it
/// is.
pub proof fn shown_paths_stand_for_paths(path: Seq<char>, home: Seq<char>, rest: Seq<char>)
    ensures
        shown_path(home + seq!['/'] + rest, Some(home)) == seq!['~', '/'] + rest,
        shown_path(home, Some(home)) == seq!['~'],
        shown_path(path, None) == path,
        path != home && !(exists|tail: Seq<char>| path == #[trigger] (home + seq!['/'] + tail))
            ==> shown_path(path, Some(home)) == path,
{
    reveal_strlit("~");
    reveal_strlit("/");
    assert("~"@ =~= seq!['~']);
    assert("/"@ =~= seq!['/']);
    let below = home + seq!['/'] + rest;
    assert(below != home) by {
        assert(below.len() > home.len());
    }
    assert(below.take((home + "/"@).len() as int) =~= home + "/"@);
    assert("~"@ + below.skip(home.len() as int) =~= seq!['~', '/'] + rest);
    if crate::text::starts_with(path, home + "/"@) {
        let tail = path.skip((home + "/"@).len() as int);
        assert(path =~= home + seq!['/'] + tail);
    }
}

/// After an action the lists are those that were read, and only those: saving, renaming or
/// removing one kind of item leaves the other kind alone. What failed changes nothing but
/// the status line, so that the dialog stays open.
pub proof fn outcomes_change_what_they_are_about(
    s: AppState,
    outcome: Outcome,
    close_tab: bool,
    home: Option<Seq<char>>,
    now: u64,
)
    ensures
        ({
            let t = after_outcome(s, outcome, close_tab, home, now);
            &&& t.mode == s.mode && t.filter == s.filter
            &&& match outcome {
                Outcome::Failed(message) => {
                    &&& (AppState { status: s.status, status_expiry: s.status_expiry, ..t }) == s
                    &&& t.status == Some((StatusKind::Error, message@))
                },
                Outcome::Refreshed(workspaces, directories) => t.workspaces == workspaces@
                    && t.directories == directories@ && t.dialog == s.dialog,
                Outcome::WorkspaceLaunched => t == s,
                Outcome::DirectoryFound(_) => t == s,
                Outcome::WorkspaceSaved { workspaces, .. } => t.workspaces == workspaces@
                    && t.directories == s.directories && t.dialog == crate::app::Dialog::Closed,
                Outcome::WorkspaceRenamed { workspaces, .. } => t.workspaces == workspaces@
                    && t.directories == s.directories && t.dialog == crate::app::Dialog::Closed,
                Outcome::WorkspaceEdited { workspaces, .. } => t.workspaces == workspaces@
                    && t.directories == s.directories && t.dialog == s.dialog,
                Outcome::WorkspaceRemoved { workspaces, .. } => t.workspaces == workspaces@
                    && t.directories == s.directories && t.dialog == crate::app::Dialog::Closed,
                Outcome::DirectorySaved { directories, .. } => t.directories == directories@
                    && t.workspaces == s.workspaces && t.dialog == crate::app::Dialog::Closed,
                Outcome::DirectoryRenamed { directories, .. } => t.directories == directories@
                    && t.workspaces == s.workspaces && t.dialog == crate::app::Dialog::Closed,
                Outcome::DirectoryRemoved { directories, .. } => t.directories == directories@
                    && t.workspaces == s.workspaces && t.dialog == crate::app::Dialog::Closed,
                Outcome::CloseTabSet => t.workspaces == s.workspaces && t.directories
                    == s.directories && t.dialog == s.dialog && t.selected == s.selected,
                Outcome::ShortcutSet(_) => t.workspaces == s.workspaces && t.directories
                    == s.directories && t.dialog == s.shortcut_return_dialog && t.selected
                    == s.selected && t.shortcut_input.len() == 0,
            }
        }),
{
}

/// The name that an outcome is about: the one under which an item is now found.
pub open spec fn name_afterwards(outcome: Outcome) -> Option<Seq<char>> {
    match outcome {
        Outcome::WorkspaceSaved { name, .. } => Some(name@),
        Outcome::WorkspaceRenamed { new_name, .. } => Some(new_name@),
        Outcome::WorkspaceEdited { name, .. } => Some(name@),
        Outcome::DirectorySaved { name, .. } => Some(name@),
        Outcome::DirectoryRenamed { new_name, .. } => Some(new_name@),
        _ => None,
    }
}

/// What was saved, renamed or edited is selected afterwards, wherever it is listed now.
pub proof fn saved_items_are_selected(
    s: AppState,
    outcome: Outcome,
    close_tab: bool,
    home: Option<Seq<char>>,
    now: u64,
    place: int,
)
    requires
        name_afterwards(outcome) is Some,
        ({
            let t = after_outcome(s, outcome, close_tab, home, now);
            0 <= place < t.visible().len() && crate::app::item_name(t, t.visible()[place])
                == name_afterwards(outcome)->0
        }),
    ensures
        ({
            let t = after_outcome(s, outcome, close_tab, home, now);
            &&& 0 <= t.selected < t.visible().len()
            &&& crate::app::item_name(t, t.visible()[t.selected]) == name_afterwards(outcome)->0
        }),
{
    let t = after_outcome(s, outcome, close_tab, home, now);
    let name = name_afterwards(outcome)->0;
    let a = match outcome {
        Outcome::WorkspaceSaved { workspaces, .. } => s.without_dialog().with_workspaces(
            workspaces@,
        ),
        Outcome::WorkspaceRenamed { workspaces, .. } => s.without_dialog().with_workspaces(
            workspaces@,
        ),
        Outcome::WorkspaceEdited { workspaces, .. } => s.with_workspaces(workspaces@),
        Outcome::DirectorySaved { directories, .. } => s.without_dialog().with_directories(
            directories@,
        ),
        Outcome::DirectoryRenamed { directories, .. } => s.without_dialog().with_directories(
            directories@,
        ),
        _ => s,
    };
    let b = a.at_name(name);
    crate::app::lemma_visible_same(a, t, a.item_count());
    crate::app::lemma_visible_same(a, b, a.item_count());
    assert(a.visible() == t.visible());
    assert(a.name_at(a.visible()[place]) == name);
    crate::input::listed_names_are_found(a, place);
    assert(b.selected_name() == Some(name));
    assert(t.selected == b.selected);
}

/// The status line afterwards names what was done: the name stands in it, between quotes,
/// and a path as it is shown.
pub proof fn outcomes_are_told(
    s: AppState,
    outcome: Outcome,
    close_tab: bool,
    home: Option<Seq<char>>,
    now: u64,
)
    ensures
        ({
            let t = after_outcome(s, outcome, close_tab, home, now);
            let said = (t.status->0).1;
            let q = "\""@;
            match outcome {
                Outcome::WorkspaceSaved { name, path, .. } => t.status is Some && said
                    == "Saved workspace "@ + q + name@ + q + " to "@ + shown_path(path@, home),
                Outcome::WorkspaceRenamed { old_name, new_name, .. } => t.status is Some && said
                    == "Renamed workspace "@ + q + old_name@ + q + " to "@ + q + new_name@ + q,
                Outcome::WorkspaceEdited { name, .. } => t.status is Some && said
                    == "Closed editor for "@ + q + name@ + q,
                Outcome::WorkspaceRemoved { name, .. } => t.status is Some && said
                    == "Removed workspace "@ + q + name@ + q,
                Outcome::DirectorySaved { name, path, .. } => t.status is Some && said
                    == "Saved directory "@ + q + name@ + q + " to "@ + shown_path(path@, home),
                Outcome::DirectoryRenamed { old_name, new_name, .. } => t.status is Some && said
                    == "Renamed directory "@ + q + old_name@ + q + " to "@ + q + new_name@ + q,
                Outcome::DirectoryRemoved { name, .. } => t.status is Some && said
                    == "Removed directory "@ + q + name@ + q,
                Outcome::CloseTabSet => t.status is Some && said == (if close_tab {
                    "close_tab = on"@
                } else {
                    "close_tab = off"@
                }),
                Outcome::ShortcutSet(result) => t.status is Some && (result.sync.shortcut@
                    != "off"@ && result.status != GhosttyShortcutApplyStatus::ManualConfigRequired
                    ==> said == "Ghostty-local shortcut saved as "@ + result.sync.shortcut@
                    + ". Reload Ghostty config to apply it."@),
                _ => true,
            }
        }),
{
}

/// Once a shortcut is set the user is asked to change the configuration by hand exactly if
/// that is left to them: to take the reference out where the shortcut was switched off, to
/// put it in where it was not. Otherwise a shortcut that was set is named.
pub proof fn work_by_hand_is_asked_for(shortcut: Seq<char>, status: GhosttyShortcutApplyStatus)
    ensures
        ({
            let message = shortcut_message(shortcut, status);
            let removal =
                "Shortcut file removed. Also remove the include from your Ghostty config source."@;
            let addition =
                "Shortcut file updated. Add the include to your Ghostty config source, then rebuild."@;
            let saved = "Ghostty-local shortcut saved as "@;
            &&& message == removal <==> shortcut == "off"@ && status
                == GhosttyShortcutApplyStatus::ManualConfigRemovalRequired
            &&& message == addition <==> shortcut != "off"@ && status
                == GhosttyShortcutApplyStatus::ManualConfigRequired
            &&& (shortcut != "off"@ && status
                != GhosttyShortcutApplyStatus::ManualConfigRequired) ==> message.take(
                (saved.len() + shortcut.len()) as int,
            ) == saved + shortcut
        }),
{
    reveal_strlit("Shortcut file removed. Also remove the include from your Ghostty config source.");
    reveal_strlit(
        "Shortcut file updated. Add the include to your Ghostty config source, then rebuild.",
    );
    reveal_strlit("Ghostty-local shortcut disabled. Run `gtab init` to restore Cmd+G.");
    reveal_strlit("Ghostty-local shortcut saved as ");
    let removal =
        "Shortcut file removed. Also remove the include from your Ghostty config source."@;
    let addition =
        "Shortcut file updated. Add the include to your Ghostty config source, then rebuild."@;
    let disabled = "Ghostty-local shortcut disabled. Run `gtab init` to restore Cmd+G."@;
    let saved = "Ghostty-local shortcut saved as "@;
    let message = shortcut_message(shortcut, status);
    assert(removal[0] == 'S' && addition[0] == 'S' && disabled[0] == 'G' && saved[0] == 'G');
    assert(removal[14] == 'r' && addition[14] == 'u');
    if shortcut != "off"@ && status != GhosttyShortcutApplyStatus::ManualConfigRequired {
        assert(message[0] == 'G');
        assert(message.take((saved.len() + shortcut.len()) as int) =~= saved + shortcut);
    }
}

} // verus!
