//! Keys and clicks: what each does to the browser, and what it asks for.

use vstd::prelude::*;

use crate::app::{App, AppState, BrowserMode, ClickState, Dialog, StatusKind};
use crate::env::AppEnv;
use crate::error::Error;
use crate::key::{
    is_text_input, shortcut_string_for_key_event, KeyCode, KeyEvent, MouseEvent, MouseEventKind,
};
use crate::number::usize_string;
use crate::text::{chars_of, is_empty_str, same_str, string_of, trim_slice};

verus! {

/// What a key or a click asks for.
#[derive(Debug, PartialEq, Eq)]
pub enum Action {
    Nothing,
    Quit,
    Refresh,
    LaunchWorkspace(String),
    SaveWorkspace(String),
    RenameWorkspace(String, String),
    EditWorkspace(String),
    DeleteWorkspace(String),
    ReplaceDirectory(String),
    SaveDirectory(String, String),
    RenameDirectory(String, String),
    DeleteDirectory(String),
    ToggleCloseTab,
    SetGhosttyShortcut(String),
}

/// What an action holds.
pub enum ActionView {
    Nothing,
    Quit,
    Refresh,
    LaunchWorkspace(Seq<char>),
    SaveWorkspace(Seq<char>),
    RenameWorkspace(Seq<char>, Seq<char>),
    EditWorkspace(Seq<char>),
    DeleteWorkspace(Seq<char>),
    ReplaceDirectory(Seq<char>),
    SaveDirectory(Seq<char>, Seq<char>),
    RenameDirectory(Seq<char>, Seq<char>),
    DeleteDirectory(Seq<char>),
    ToggleCloseTab,
    SetGhosttyShortcut(Seq<char>),
}

impl View for Action {
    type V = ActionView;

    open spec fn view(&self) -> ActionView {
        match self {
            Action::Nothing => ActionView::Nothing,
            Action::Quit => ActionView::Quit,
            Action::Refresh => ActionView::Refresh,
            Action::LaunchWorkspace(name) => ActionView::LaunchWorkspace(name@),
            Action::SaveWorkspace(name) => ActionView::SaveWorkspace(name@),
            Action::RenameWorkspace(old_name, name) => ActionView::RenameWorkspace(
                old_name@,
                name@,
            ),
            Action::EditWorkspace(name) => ActionView::EditWorkspace(name@),
            Action::DeleteWorkspace(name) => ActionView::DeleteWorkspace(name@),
            Action::ReplaceDirectory(path) => ActionView::ReplaceDirectory(path@),
            Action::SaveDirectory(name, path) => ActionView::SaveDirectory(name@, path@),
            Action::RenameDirectory(old_name, name) => ActionView::RenameDirectory(
                old_name@,
                name@,
            ),
            Action::DeleteDirectory(name) => ActionView::DeleteDirectory(name@),
            Action::ToggleCloseTab => ActionView::ToggleCloseTab,
            Action::SetGhosttyShortcut(shortcut) => ActionView::SetGhosttyShortcut(shortcut@),
        }
    }
}

/// A state, and what is asked for.
pub type Step = (AppState, ActionView);

// Typing.
/// A text after a key: backspace removes the last character, a character is appended.
pub open spec fn edited(text: Seq<char>, key: KeyEvent) -> Seq<char> {
    match key.code {
        KeyCode::Backspace => if text.len() == 0 {
            text
        } else {
            text.drop_last()
        },
        KeyCode::Char(c) => if crate::key::commanding(key.modifiers) {
            text
        } else {
            text.push(c)
        },
        _ => text,
    }
}

/// Whether a key edits a text.
pub open spec fn edits(key: KeyEvent) -> bool {
    key.code == KeyCode::Backspace || (key.code is Char && !crate::key::commanding(
        key.modifiers,
    ))
}

// Dialogs.
/// A key in the dialog that saves a workspace.
pub open spec fn save_workspace_key(s: AppState, key: KeyEvent, now: u64) -> Step {
    let name = crate::text::trim(s.save_input);
    match key.code {
        KeyCode::Esc => (s.without_dialog(), ActionView::Nothing),
        KeyCode::Enter => if name.len() == 0 {
            (
                s.saying(StatusKind::Error, "Workspace name cannot be empty"@, now),
                ActionView::Nothing,
            )
        } else {
            (s, ActionView::SaveWorkspace(name))
        },
        _ => (
            AppState { save_input: edited(s.save_input, key), ..s },
            ActionView::Nothing,
        ),
    }
}

/// A key in the dialog that saves a directory, unless the current directory is needed and
/// not known.
pub open spec fn save_directory_key(
    s: AppState,
    key: KeyEvent,
    current_dir: Option<Seq<char>>,
    now: u64,
) -> Option<Step> {
    let name = crate::text::trim(s.save_input);
    match key.code {
        KeyCode::Esc => Some((s.without_dialog(), ActionView::Nothing)),
        KeyCode::Enter => if name.len() == 0 {
            Some(
                (
                    s.saying(StatusKind::Error, "Directory name cannot be empty"@, now),
                    ActionView::Nothing,
                ),
            )
        } else {
            match current_dir {
                Some(path) => Some((s, ActionView::SaveDirectory(name, path))),
                None => None,
            }
        },
        _ => Some(
            (AppState { save_input: edited(s.save_input, key), ..s }, ActionView::Nothing),
        ),
    }
}

/// A key in a dialog that renames something.
pub open spec fn rename_key(
    s: AppState,
    key: KeyEvent,
    empty: Seq<char>,
    unchanged: Seq<char>,
    directory: bool,
    now: u64,
) -> Step {
    let name = crate::text::trim(s.rename_input);
    match key.code {
        KeyCode::Esc => (s.without_dialog(), ActionView::Nothing),
        KeyCode::Enter => match s.rename_original {
            None => (s.without_dialog(), ActionView::Nothing),
            Some(original) => if name.len() == 0 {
                (s.saying(StatusKind::Error, empty, now), ActionView::Nothing)
            } else if name == original {
                (
                    s.without_dialog().saying(StatusKind::Info, unchanged, now),
                    ActionView::Nothing,
                )
            } else if directory {
                (s, ActionView::RenameDirectory(original, name))
            } else {
                (s, ActionView::RenameWorkspace(original, name))
            },
        },
        _ => (
            AppState { rename_input: edited(s.rename_input, key), ..s },
            ActionView::Nothing,
        ),
    }
}

/// A key in the dialog that renames a workspace.
pub open spec fn rename_workspace_key(s: AppState, key: KeyEvent, now: u64) -> Step {
    rename_key(
        s,
        key,
        "Workspace name cannot be empty"@,
        "Workspace name unchanged"@,
        false,
        now,
    )
}

/// A key in the dialog that renames a directory.
pub open spec fn rename_directory_key(s: AppState, key: KeyEvent, now: u64) -> Step {
    rename_key(
        s,
        key,
        "Directory name cannot be empty"@,
        "Directory name unchanged"@,
        true,
        now,
    )
}

/// A key that confirms.
pub open spec fn confirms(code: KeyCode) -> bool {
    code == KeyCode::Enter || code == KeyCode::Char('y')
}

/// A key that declines.
pub open spec fn declines(code: KeyCode) -> bool {
    code == KeyCode::Esc || code == KeyCode::Char('n')
}

/// A key in the dialog that deletes a workspace.
pub open spec fn delete_workspace_key(s: AppState, key: KeyEvent) -> Step {
    if declines(key.code) {
        (s.without_dialog(), ActionView::Nothing)
    } else if confirms(key.code) {
        match s.selected_workspace() {
            Some(w) => (s, ActionView::DeleteWorkspace(w.name@)),
            None => (s.without_dialog(), ActionView::Nothing),
        }
    } else {
        (s, ActionView::Nothing)
    }
}

/// A key in the dialog that deletes a directory.
pub open spec fn delete_directory_key(s: AppState, key: KeyEvent) -> Step {
    if declines(key.code) {
        (s.without_dialog(), ActionView::Nothing)
    } else if confirms(key.code) {
        match s.selected_directory() {
            Some(d) => (s, ActionView::DeleteDirectory(d.name@)),
            None => (s.without_dialog(), ActionView::Nothing),
        }
    } else {
        (s, ActionView::Nothing)
    }
}

/// A key in the settings.
pub open spec fn settings_key(s: AppState, key: KeyEvent, shortcut: Seq<char>) -> Step {
    match key.code {
        KeyCode::Esc => (s.without_dialog(), ActionView::Nothing),
        KeyCode::Enter => (s.without_dialog(), ActionView::Nothing),
        KeyCode::Char(c) => if c == 'c' || c == ' ' {
            (s, ActionView::ToggleCloseTab)
        } else if c == 'g' {
            (s.editing_shortcut(shortcut, Dialog::Settings), ActionView::Nothing)
        } else {
            (s, ActionView::Nothing)
        },
        _ => (s, ActionView::Nothing),
    }
}

/// A key in the shortcut's editor: a key that is a shortcut by itself is written down,
/// another one is typed.
pub open spec fn shortcut_key(s: AppState, key: KeyEvent, now: u64) -> Step {
    let shortcut = crate::text::trim(s.shortcut_input);
    match key.code {
        KeyCode::Esc => (
            AppState { dialog: s.shortcut_return_dialog, shortcut_input: seq![], ..s },
            ActionView::Nothing,
        ),
        KeyCode::Enter => if shortcut.len() == 0 {
            (
                s.saying(StatusKind::Error, "Ghostty shortcut cannot be empty"@, now),
                ActionView::Nothing,
            )
        } else {
            (s, ActionView::SetGhosttyShortcut(shortcut))
        },
        _ => (
            AppState {
                shortcut_input: match crate::key::shortcut_of_key(key) {
                    Some(pressed) if key.code != KeyCode::Backspace => pressed,
                    _ => edited(s.shortcut_input, key),
                },
                ..s
            },
            ActionView::Nothing,
        ),
    }
}

/// A key in the help.
pub open spec fn help_key(s: AppState, key: KeyEvent) -> Step {
    if key.code == KeyCode::Esc || key.code == KeyCode::Char('?') || key.code == KeyCode::Char(
        'q',
    ) {
        (AppState { dialog: Dialog::Closed, ..s }, ActionView::Nothing)
    } else {
        (s, ActionView::Nothing)
    }
}

// The filter.
/// The way a key moves the selection while a filter is typed: forward, back, or not.
pub open spec fn search_move(key: KeyEvent) -> int {
    match key.code {
        KeyCode::Tab => 1,
        KeyCode::BackTab => -1,
        KeyCode::Char(c) => if !key.modifiers.control {
            0
        } else if c == 'n' || c == 'N' || c == 'j' || c == 'J' {
            1
        } else if c == 'p' || c == 'P' || c == 'k' || c == 'K' {
            -1
        } else {
            0
        },
        _ => 0,
    }
}

/// How many items are listed.
pub open spec fn listed_text(s: AppState) -> Seq<char> {
    "Showing "@ + crate::number::decimal(s.visible().len()) + " of "@ + crate::number::decimal(
        s.item_count(),
    ) + " "@ + s.item_label_plural()
}

/// A key while a filter is typed.
pub open spec fn search_key(s: AppState, key: KeyEvent, now: u64) -> Step {
    if search_move(key) != 0 {
        (s.moved_round(search_move(key)), ActionView::Nothing)
    } else {
        match key.code {
            KeyCode::Esc => (s.search_cancelled(), ActionView::Nothing),
            KeyCode::Enter => (
                s.search_committed().saying(StatusKind::Info, listed_text(s), now),
                ActionView::Nothing,
            ),
            KeyCode::Up => (s.moved_rows(-1), ActionView::Nothing),
            KeyCode::Down => (s.moved_rows(1), ActionView::Nothing),
            KeyCode::PageUp => (s.moved(-s.page_step()), ActionView::Nothing),
            KeyCode::PageDown => (s.moved(s.page_step()), ActionView::Nothing),
            _ => if edits(key) {
                (s.filtered(edited(s.filter, key)), ActionView::Nothing)
            } else {
                (s, ActionView::Nothing)
            },
        }
    }
}

// The list.
/// What opening the selected item asks for.
pub open spec fn opening(s: AppState) -> Option<ActionView> {
    match s.mode {
        BrowserMode::Workspace => match s.selected_workspace() {
            Some(w) => Some(ActionView::LaunchWorkspace(w.name@)),
            None => None,
        },
        BrowserMode::Directory => match s.selected_directory() {
            Some(d) => Some(ActionView::ReplaceDirectory(d.path@)),
            None => None,
        },
    }
}

/// What is done where something is asked of a selection that is not there.
pub open spec fn nothing_selected(s: AppState, now: u64) -> Step {
    (s.saying(StatusKind::Error, s.no_selection_message(), now), ActionView::Nothing)
}

/// A character in the list.
pub open spec fn main_char(s: AppState, c: char, shortcut: Seq<char>, now: u64) -> Step {
    let workspaces = s.mode == BrowserMode::Workspace;
    if c == 'q' {
        (s, ActionView::Quit)
    } else if c == '?' {
        (AppState { dialog: Dialog::Help, ..s }, ActionView::Nothing)
    } else if c == '/' {
        (s.searching(None), ActionView::Nothing)
    } else if c == 'j' || c == 's' {
        (s.moved_rows(1), ActionView::Nothing)
    } else if c == 'k' || c == 'w' {
        (s.moved_rows(-1), ActionView::Nothing)
    } else if c == 'G' {
        (s.at_end(), ActionView::Nothing)
    } else if c == 'r' {
        (s, ActionView::Refresh)
    } else if c == 'f' {
        (
            s.listing(
                if workspaces {
                    BrowserMode::Directory
                } else {
                    BrowserMode::Workspace
                },
                now,
            ),
            ActionView::Nothing,
        )
    } else if c == 'a' {
        (
            AppState {
                dialog: if workspaces {
                    Dialog::SaveWorkspace
                } else {
                    Dialog::SaveDirectory
                },
                save_input: seq![],
                ..s
            },
            ActionView::Nothing,
        )
    } else if c == 'e' && workspaces {
        match s.selected_workspace() {
            Some(w) => (s, ActionView::EditWorkspace(w.name@)),
            None => nothing_selected(s, now),
        }
    } else if c == 'n' {
        match s.selected_name() {
            Some(name) => (
                s.renaming(
                    if workspaces {
                        Dialog::RenameWorkspace
                    } else {
                        Dialog::RenameDirectory
                    },
                    name,
                ),
                ActionView::Nothing,
            ),
            None => nothing_selected(s, now),
        }
    } else if c == 'd' {
        if s.selected_index() is Some {
            (
                AppState {
                    dialog: if workspaces {
                        Dialog::ConfirmDeleteWorkspace
                    } else {
                        Dialog::ConfirmDeleteDirectory
                    },
                    ..s
                },
                ActionView::Nothing,
            )
        } else {
            nothing_selected(s, now)
        }
    } else if c == 'g' && workspaces {
        (s.editing_shortcut(shortcut, Dialog::Closed), ActionView::Nothing)
    } else if c == 't' && workspaces {
        (AppState { dialog: Dialog::Settings, ..s }, ActionView::Nothing)
    } else {
        (s, ActionView::Nothing)
    }
}

/// A key in the list.
pub open spec fn main_key(s: AppState, key: KeyEvent, shortcut: Seq<char>, now: u64) -> Step {
    match key.code {
        KeyCode::Char(c) => main_char(s, c, shortcut, now),
        KeyCode::Esc => if s.filter.len() > 0 {
            (
                s.filtered(seq![]).saying(
                    StatusKind::Info,
                    "Cleared "@ + s.item_label_plural() + " filter"@,
                    now,
                ),
                ActionView::Nothing,
            )
        } else {
            (s, ActionView::Quit)
        },
        KeyCode::Enter => match opening(s) {
            Some(action) => (s, action),
            None => nothing_selected(s, now),
        },
        KeyCode::Down => (s.moved_rows(1), ActionView::Nothing),
        KeyCode::Up => (s.moved_rows(-1), ActionView::Nothing),
        KeyCode::Right => if s.mode == BrowserMode::Directory {
            (s.moved(1), ActionView::Nothing)
        } else {
            (s, ActionView::Nothing)
        },
        KeyCode::Left => if s.mode == BrowserMode::Directory {
            (s.moved(-1), ActionView::Nothing)
        } else {
            (s, ActionView::Nothing)
        },
        KeyCode::Home => (s.at(0), ActionView::Nothing),
        KeyCode::End => (s.at_end(), ActionView::Nothing),
        KeyCode::PageUp => (s.moved(-s.page_step()), ActionView::Nothing),
        KeyCode::PageDown => (s.moved(s.page_step()), ActionView::Nothing),
        _ => (s, ActionView::Nothing),
    }
}

/// A key that closes the browser wherever it is pressed.
pub open spec fn interrupts(key: KeyEvent) -> bool {
    key.modifiers.control && key.code == KeyCode::Char('c')
}

/// A key, unless the current directory is needed and not known.
pub open spec fn any_key(
    s: AppState,
    key: KeyEvent,
    shortcut: Seq<char>,
    current_dir: Option<Seq<char>>,
    now: u64,
) -> Option<Step> {
    if interrupts(key) {
        Some((s, ActionView::Quit))
    } else {
        match s.dialog {
            Dialog::SaveWorkspace => Some(save_workspace_key(s, key, now)),
            Dialog::SaveDirectory => save_directory_key(s, key, current_dir, now),
            Dialog::RenameWorkspace => Some(rename_workspace_key(s, key, now)),
            Dialog::RenameDirectory => Some(rename_directory_key(s, key, now)),
            Dialog::ConfirmDeleteWorkspace => Some(delete_workspace_key(s, key)),
            Dialog::ConfirmDeleteDirectory => Some(delete_directory_key(s, key)),
            Dialog::Settings => Some(settings_key(s, key, shortcut)),
            Dialog::EditGhosttyShortcut => Some(shortcut_key(s, key, now)),
            Dialog::Help => Some(help_key(s, key)),
            Dialog::Closed => if s.search_before_edit is Some {
                Some(search_key(s, key, now))
            } else {
                Some(main_key(s, key, shortcut, now))
            },
        }
    }
}

// The mouse.
/// A left click on a listed item.
pub open spec fn item_clicked(s: AppState, index: int, now: u64) -> Step {
    let here = AppState { selected: index, ..s };
    if s.clicked_before(index, now) {
        (
            here.without_click(),
            match opening(here) {
                Some(action) => action,
                None => ActionView::Nothing,
            },
        )
    } else {
        let clicked = AppState { last_click: Some((index, now as int)), ..here };
        (
            match here.selected_name() {
                Some(name) => clicked.saying(
                    StatusKind::Info,
                    "Selected \""@ + name + "\""@,
                    now,
                ),
                None => clicked,
            },
            ActionView::Nothing,
        )
    }
}

/// What the mouse does.
pub open spec fn mouse_step(s: AppState, mouse: MouseEvent, shortcut: Seq<char>, now: u64) -> Step {
    if s.dialog != Dialog::Closed {
        (s, ActionView::Nothing)
    } else {
        match mouse.kind {
            MouseEventKind::LeftDown => if s.mode == BrowserMode::Workspace
                && crate::geometry::contains_cell(s.shortcut_area, mouse.column, mouse.row) {
                (
                    s.without_click().editing_shortcut(shortcut, Dialog::Closed),
                    ActionView::Nothing,
                )
            } else {
                match s.item_at(mouse.column, mouse.row) {
                    Some(index) => item_clicked(s, index, now),
                    None => (s.without_click(), ActionView::Nothing),
                }
            },
            MouseEventKind::ScrollDown => if crate::geometry::contains_cell(
                s.list_area,
                mouse.column,
                mouse.row,
            ) {
                (s.moved_rows(1), ActionView::Nothing)
            } else {
                (s, ActionView::Nothing)
            },
            MouseEventKind::ScrollUp => if crate::geometry::contains_cell(
                s.list_area,
                mouse.column,
                mouse.row,
            ) {
                (s.moved_rows(-1), ActionView::Nothing)
            } else {
                (s, ActionView::Nothing)
            },
            MouseEventKind::Other => (s, ActionView::Nothing),
        }
    }
}

/// The text without white space around it.
fn trimmed(text: &str) -> (r: String)
    ensures
        r@ == crate::text::trim(text@),
{
    let chars = chars_of(text);
    string_of(trim_slice(chars.as_slice()))
}

/// Edits a text by a key, and says whether it was one that edits.
fn edit_text(text: &mut String, key: KeyEvent) -> (r: bool)
    ensures
        final(text)@ == edited(old(text)@, key),
        r == edits(key),
{
    match key.code {
        KeyCode::Backspace => {
            let _ = text.pop();
            true
        },
        KeyCode::Char(c) => {
            if is_text_input(key.modifiers) {
                text.push(c);
                true
            } else {
                false
            }
        },
        _ => false,
    }
}

impl App {
    /// A key.
    pub fn handle_key(
        &mut self,
        key: KeyEvent,
        env: &AppEnv,
        current_dir: Option<&str>,
        now: u64,
    ) -> (r: Result<Action, Error>)
        ensures
            match (
                r,
                any_key(
                    old(self)@,
                    key,
                    env.config.ghostty_shortcut@,
                    match current_dir {
                        Some(path) => Some(path@),
                        None => None,
                    },
                    now,
                ),
            ) {
                (Ok(action), Some((state, wanted))) => action@ == wanted && final(self)@ == state,
                (Err(e), None) => e is NoCurrentDirectory && final(self)@ == old(self)@,
                _ => false,
            },
    {
        match key.code {
            KeyCode::Char(c) => {
                if key.modifiers.control && c == 'c' {
                    return Ok(Action::Quit);
                }
            },
            _ => {},
        }
        match self.dialog {
            Dialog::SaveWorkspace => Ok(self.handle_save_workspace_key(key, now)),
            Dialog::SaveDirectory => self.handle_save_directory_key(key, current_dir, now),
            Dialog::RenameWorkspace => Ok(self.handle_rename_workspace_key(key, now)),
            Dialog::RenameDirectory => Ok(self.handle_rename_directory_key(key, now)),
            Dialog::ConfirmDeleteWorkspace => Ok(self.handle_delete_workspace_key(key)),
            Dialog::ConfirmDeleteDirectory => Ok(self.handle_delete_directory_key(key)),
            Dialog::Settings => Ok(self.handle_settings_key(key, env)),
            Dialog::EditGhosttyShortcut => Ok(self.handle_shortcut_key(key, now)),
            Dialog::Help => Ok(self.handle_help_key(key)),
            Dialog::Closed => {
                if self.search_active() {
                    Ok(self.handle_search_key(key, now))
                } else {
                    Ok(self.handle_main_key(key, env, now))
                }
            },
        }
    }

    /// A key in the dialog that saves a workspace.
    pub fn handle_save_workspace_key(&mut self, key: KeyEvent, now: u64) -> (r: Action)
        ensures
            final(self)@ == save_workspace_key(old(self)@, key, now).0,
            r@ == save_workspace_key(old(self)@, key, now).1,
    {
        match key.code {
            KeyCode::Esc => {
                self.reset_dialogs();
                Action::Nothing
            },
            KeyCode::Enter => {
                let name = trimmed(&self.save_input);
                if is_empty_str(&name) {
                    self.set_error("Workspace name cannot be empty", now);
                    return Action::Nothing;
                }
                Action::SaveWorkspace(name)
            },
            _ => {
                let _ = edit_text(&mut self.save_input, key);
                Action::Nothing
            },
        }
    }

    /// A key in the dialog that saves a directory.
    pub fn handle_save_directory_key(
        &mut self,
        key: KeyEvent,
        current_dir: Option<&str>,
        now: u64,
    ) -> (r: Result<Action, Error>)
        ensures
            match (
                r,
                save_directory_key(
                    old(self)@,
                    key,
                    match current_dir {
                        Some(path) => Some(path@),
                        None => None,
                    },
                    now,
                ),
            ) {
                (Ok(action), Some((state, wanted))) => action@ == wanted && final(self)@ == state,
                (Err(e), None) => e is NoCurrentDirectory && final(self)@ == old(self)@,
                _ => false,
            },
    {
        match key.code {
            KeyCode::Esc => {
                self.reset_dialogs();
                Ok(Action::Nothing)
            },
            KeyCode::Enter => {
                let name = trimmed(&self.save_input);
                if is_empty_str(&name) {
                    self.set_error("Directory name cannot be empty", now);
                    return Ok(Action::Nothing);
                }
                match current_dir {
                    Some(path) => Ok(Action::SaveDirectory(name, path.to_string())),
                    None => Err(Error::NoCurrentDirectory),
                }
            },
            _ => {
                let _ = edit_text(&mut self.save_input, key);
                Ok(Action::Nothing)
            },
        }
    }

    /// A key in the dialog that renames a workspace.
    pub fn handle_rename_workspace_key(&mut self, key: KeyEvent, now: u64) -> (r: Action)
        ensures
            final(self)@ == rename_workspace_key(old(self)@, key, now).0,
            r@ == rename_workspace_key(old(self)@, key, now).1,
    {
        match key.code {
            KeyCode::Esc => {
                self.reset_dialogs();
                Action::Nothing
            },
            KeyCode::Enter => {
                let original = match &self.rename_original {
                    Some(original) => original.clone(),
                    None => {
                        self.reset_dialogs();
                        return Action::Nothing;
                    },
                };
                let name = trimmed(&self.rename_input);
                if is_empty_str(&name) {
                    self.set_error("Workspace name cannot be empty", now);
                    return Action::Nothing;
                }
                if same_str(&name, &original) {
                    self.reset_dialogs();
                    self.set_info("Workspace name unchanged", now);
                    return Action::Nothing;
                }
                Action::RenameWorkspace(original, name)
            },
            _ => {
                let _ = edit_text(&mut self.rename_input, key);
                Action::Nothing
            },
        }
    }

    /// A key in the dialog that renames a directory.
    pub fn handle_rename_directory_key(&mut self, key: KeyEvent, now: u64) -> (r: Action)
        ensures
            final(self)@ == rename_directory_key(old(self)@, key, now).0,
            r@ == rename_directory_key(old(self)@, key, now).1,
    {
        match key.code {
            KeyCode::Esc => {
                self.reset_dialogs();
                Action::Nothing
            },
            KeyCode::Enter => {
                let original = match &self.rename_original {
                    Some(original) => original.clone(),
                    None => {
                        self.reset_dialogs();
                        return Action::Nothing;
                    },
                };
                let name = trimmed(&self.rename_input);
                if is_empty_str(&name) {
                    self.set_error("Directory name cannot be empty", now);
                    return Action::Nothing;
                }
                if same_str(&name, &original) {
                    self.reset_dialogs();
                    self.set_info("Directory name unchanged", now);
                    return Action::Nothing;
                }
                Action::RenameDirectory(original, name)
            },
            _ => {
                let _ = edit_text(&mut self.rename_input, key);
                Action::Nothing
            },
        }
    }

    /// A key in the dialog that deletes a workspace.
    pub fn handle_delete_workspace_key(&mut self, key: KeyEvent) -> (r: Action)
        ensures
            final(self)@ == delete_workspace_key(old(self)@, key).0,
            r@ == delete_workspace_key(old(self)@, key).1,
    {
        if key.code == KeyCode::Esc || key.code == KeyCode::Char('n') {
            self.reset_dialogs();
            return Action::Nothing;
        }
        if key.code == KeyCode::Enter || key.code == KeyCode::Char('y') {
            let name = match self.selected_workspace() {
                Some(workspace) => Some(workspace.name.clone()),
                None => None,
            };
            return match name {
                Some(name) => Action::DeleteWorkspace(name),
                None => {
                    self.reset_dialogs();
                    Action::Nothing
                },
            };
        }
        Action::Nothing
    }

    /// A key in the dialog that deletes a directory.
    pub fn handle_delete_directory_key(&mut self, key: KeyEvent) -> (r: Action)
        ensures
            final(self)@ == delete_directory_key(old(self)@, key).0,
            r@ == delete_directory_key(old(self)@, key).1,
    {
        if key.code == KeyCode::Esc || key.code == KeyCode::Char('n') {
            self.reset_dialogs();
            return Action::Nothing;
        }
        if key.code == KeyCode::Enter || key.code == KeyCode::Char('y') {
            let name = match self.selected_directory() {
                Some(directory) => Some(directory.name.clone()),
                None => None,
            };
            return match name {
                Some(name) => Action::DeleteDirectory(name),
                None => {
                    self.reset_dialogs();
                    Action::Nothing
                },
            };
        }
        Action::Nothing
    }

    /// A key in the settings.
    pub fn handle_settings_key(&mut self, key: KeyEvent, env: &AppEnv) -> (r: Action)
        ensures
            final(self)@ == settings_key(old(self)@, key, env.config.ghostty_shortcut@).0,
            r@ == settings_key(old(self)@, key, env.config.ghostty_shortcut@).1,
    {
        match key.code {
            KeyCode::Esc => {
                self.reset_dialogs();
                Action::Nothing
            },
            KeyCode::Enter => {
                self.reset_dialogs();
                Action::Nothing
            },
            KeyCode::Char(c) => {
                if c == 'c' || c == ' ' {
                    return Action::ToggleCloseTab;
                }
                if c == 'g' {
                    self.open_shortcut_editor(env, Dialog::Settings);
                }
                Action::Nothing
            },
            _ => Action::Nothing,
        }
    }

    /// A key in the shortcut's editor.
    pub fn handle_shortcut_key(&mut self, key: KeyEvent, now: u64) -> (r: Action)
        ensures
            final(self)@ == shortcut_key(old(self)@, key, now).0,
            r@ == shortcut_key(old(self)@, key, now).1,
    {
        match key.code {
            KeyCode::Esc => {
                self.dialog = self.shortcut_return_dialog;
                self.shortcut_input = String::new();
                return Action::Nothing;
            },
            KeyCode::Enter => {
                let shortcut = trimmed(&self.shortcut_input);
                if is_empty_str(&shortcut) {
                    self.set_error("Ghostty shortcut cannot be empty", now);
                    return Action::Nothing;
                }
                return Action::SetGhosttyShortcut(shortcut);
            },
            KeyCode::Backspace => {
                let _ = edit_text(&mut self.shortcut_input, key);
                return Action::Nothing;
            },
            _ => {},
        }
        match shortcut_string_for_key_event(key) {
            Some(shortcut) => {
                self.shortcut_input = shortcut;
            },
            None => {
                let _ = edit_text(&mut self.shortcut_input, key);
            },
        }
        Action::Nothing
    }

    /// A key in the help.
    pub fn handle_help_key(&mut self, key: KeyEvent) -> (r: Action)
        ensures
            final(self)@ == help_key(old(self)@, key).0,
            r@ == help_key(old(self)@, key).1,
    {
        if key.code == KeyCode::Esc || key.code == KeyCode::Char('?') || key.code
            == KeyCode::Char('q') {
            self.dialog = Dialog::Closed;
        }
        Action::Nothing
    }

    /// A key while a filter is typed.
    pub fn handle_search_key(&mut self, key: KeyEvent, now: u64) -> (r: Action)
        ensures
            final(self)@ == search_key(old(self)@, key, now).0,
            r@ == search_key(old(self)@, key, now).1,
    {
        match key.code {
            KeyCode::Tab => {
                self.move_selection_wrapping(1);
            },
            KeyCode::BackTab => {
                self.move_selection_wrapping(-1);
            },
            KeyCode::Esc => {
                self.cancel_search();
            },
            KeyCode::Enter => {
                let listed: usize = self.visible_indices().len();
                let total: usize = match self.mode {
                    BrowserMode::Workspace => self.workspaces.len(),
                    BrowserMode::Directory => self.directories.len(),
                };
                let mut text = String::new();
                text.append("Showing ");
                text.append(usize_string(listed).as_str());
                text.append(" of ");
                text.append(usize_string(total).as_str());
                text.append(" ");
                text.append(self.item_label_plural());
                assert(text@ == listed_text(self@));
                self.commit_search();
                self.set_info(text.as_str(), now);
            },
            KeyCode::Up => {
                self.move_vertical_selection(-1);
            },
            KeyCode::Down => {
                self.move_vertical_selection(1);
            },
            KeyCode::PageUp => {
                let step = self.page_step();
                self.move_selection(-step);
            },
            KeyCode::PageDown => {
                let step = self.page_step();
                self.move_selection(step);
            },
            KeyCode::Char(c) => {
                if key.modifiers.control && (c == 'n' || c == 'N' || c == 'j' || c == 'J') {
                    self.move_selection_wrapping(1);
                    return Action::Nothing;
                }
                if key.modifiers.control && (c == 'p' || c == 'P' || c == 'k' || c == 'K') {
                    self.move_selection_wrapping(-1);
                    return Action::Nothing;
                }
                if edit_text(&mut self.filter, key) {
                    self.update_filter_after_edit();
                }
            },
            _ => {
                if edit_text(&mut self.filter, key) {
                    self.update_filter_after_edit();
                }
            },
        }
        Action::Nothing
    }

    /// What opening the selected item asks for.
    fn open_selected(&self) -> (r: Option<Action>)
        ensures
            match (r, opening(self@)) {
                (Some(action), Some(wanted)) => action@ == wanted,
                (None, None) => true,
                _ => false,
            },
    {
        match self.mode {
            BrowserMode::Workspace => match self.selected_workspace() {
                Some(workspace) => Some(Action::LaunchWorkspace(workspace.name.clone())),
                None => None,
            },
            BrowserMode::Directory => match self.selected_directory() {
                Some(directory) => Some(Action::ReplaceDirectory(directory.path.clone())),
                None => None,
            },
        }
    }

    /// Says that nothing is selected.
    fn say_nothing_selected(&mut self, now: u64)
        ensures
            final(self)@ == nothing_selected(old(self)@, now).0,
    {
        let message = self.no_selection_message();
        self.set_error(message, now);
    }

    /// A character in the list.
    fn handle_main_char(&mut self, c: char, env: &AppEnv, now: u64) -> (r: Action)
        ensures
            final(self)@ == main_char(old(self)@, c, env.config.ghostty_shortcut@, now).0,
            r@ == main_char(old(self)@, c, env.config.ghostty_shortcut@, now).1,
    {
        let workspaces = self.mode == BrowserMode::Workspace;
        if c == 'q' {
            return Action::Quit;
        }
        if c == 'r' {
            return Action::Refresh;
        }
        if c == '?' {
            self.dialog = Dialog::Help;
        } else if c == '/' {
            self.begin_search(None);
        } else if c == 'j' || c == 's' {
            self.move_vertical_selection(1);
        } else if c == 'k' || c == 'w' {
            self.move_vertical_selection(-1);
        } else if c == 'G' {
            self.move_to_end();
        } else if c == 'f' {
            if workspaces {
                self.switch_mode(BrowserMode::Directory, now);
            } else {
                self.switch_mode(BrowserMode::Workspace, now);
            }
        } else if c == 'a' {
            self.dialog = if workspaces {
                Dialog::SaveWorkspace
            } else {
                Dialog::SaveDirectory
            };
            self.save_input = String::new();
        } else if c == 'e' && workspaces {
            match self.selected_name() {
                Some(name) => {
                    return Action::EditWorkspace(name);
                },
                None => {
                    self.say_nothing_selected(now);
                },
            }
        } else if c == 'n' {
            match self.selected_name() {
                Some(name) => {
                    if workspaces {
                        self.open_rename_workspace(name);
                    } else {
                        self.open_rename_directory(name);
                    }
                },
                None => {
                    self.say_nothing_selected(now);
                },
            }
        } else if c == 'd' {
            match self.selected_name() {
                Some(_) => {
                    self.dialog = if workspaces {
                        Dialog::ConfirmDeleteWorkspace
                    } else {
                        Dialog::ConfirmDeleteDirectory
                    };
                },
                None => {
                    self.say_nothing_selected(now);
                },
            }
        } else if c == 'g' && workspaces {
            self.open_shortcut_editor(env, Dialog::Closed);
        } else if c == 't' && workspaces {
            self.open_settings();
        }
        Action::Nothing
    }

    /// A key in the list.
    pub fn handle_main_key(&mut self, key: KeyEvent, env: &AppEnv, now: u64) -> (r: Action)
        ensures
            final(self)@ == main_key(old(self)@, key, env.config.ghostty_shortcut@, now).0,
            r@ == main_key(old(self)@, key, env.config.ghostty_shortcut@, now).1,
    {
        match key.code {
            KeyCode::Char(c) => {
                return self.handle_main_char(c, env, now);
            },
            KeyCode::Esc => {
                if is_empty_str(&self.filter) {
                    return Action::Quit;
                }
                let mut text = String::new();
                text.append("Cleared ");
                text.append(self.item_label_plural());
                text.append(" filter");
                assert(text@ == "Cleared "@ + self@.item_label_plural() + " filter"@);
                self.filter = String::new();
                self.reset_visible_selection();
                self.set_info(text.as_str(), now);
            },
            KeyCode::Enter => match self.open_selected() {
                Some(action) => {
                    return action;
                },
                None => {
                    self.say_nothing_selected(now);
                },
            },
            KeyCode::Down => {
                self.move_vertical_selection(1);
            },
            KeyCode::Up => {
                self.move_vertical_selection(-1);
            },
            KeyCode::Right => {
                if self.mode == BrowserMode::Directory {
                    self.move_selection(1);
                }
            },
            KeyCode::Left => {
                if self.mode == BrowserMode::Directory {
                    self.move_selection(-1);
                }
            },
            KeyCode::Home => {
                self.move_to_start();
            },
            KeyCode::End => {
                self.move_to_end();
            },
            KeyCode::PageUp => {
                let step = self.page_step();
                self.move_selection(-step);
            },
            KeyCode::PageDown => {
                let step = self.page_step();
                self.move_selection(step);
            },
            _ => {},
        }
        Action::Nothing
    }

    /// What the mouse does.
    pub fn handle_mouse(&mut self, mouse: MouseEvent, env: &AppEnv, now: u64) -> (r: Action)
        ensures
            final(self)@ == mouse_step(old(self)@, mouse, env.config.ghostty_shortcut@, now).0,
            r@ == mouse_step(old(self)@, mouse, env.config.ghostty_shortcut@, now).1,
    {
        if self.dialog != Dialog::Closed {
            return Action::Nothing;
        }
        match mouse.kind {
            MouseEventKind::LeftDown => {
                if self.mode == BrowserMode::Workspace && self.shortcut_contains(
                    mouse.column,
                    mouse.row,
                ) {
                    self.clear_pending_click();
                    self.open_shortcut_editor(env, Dialog::Closed);
                    return Action::Nothing;
                }
                match self.list_index_at(mouse.column, mouse.row) {
                    Some(index) => self.click_item(index, now),
                    None => {
                        self.clear_pending_click();
                        Action::Nothing
                    },
                }
            },
            MouseEventKind::ScrollDown => {
                if self.list_contains(mouse.column, mouse.row) {
                    self.move_vertical_selection(1);
                }
                Action::Nothing
            },
            MouseEventKind::ScrollUp => {
                if self.list_contains(mouse.column, mouse.row) {
                    self.move_vertical_selection(-1);
                }
                Action::Nothing
            },
            MouseEventKind::Other => Action::Nothing,
        }
    }

    /// A left click on a listed item.
    fn click_item(&mut self, index: usize, now: u64) -> (r: Action)
        ensures
            final(self)@ == item_clicked(old(self)@, index as int, now).0,
            r@ == item_clicked(old(self)@, index as int, now).1,
    {
        let again = self.is_double_click(index, now);
        self.selected = index;
        if again {
            proof {
                lemma_same_items(self@, self@.without_click());
            }
            self.clear_pending_click();
            return match self.open_selected() {
                Some(action) => action,
                None => Action::Nothing,
            };
        }
        match self.selected_name() {
            Some(name) => {
                self.last_click = Some(ClickState { index, at: now });
                let mut text = String::new();
                text.append("Selected \"");
                text.append(name.as_str());
                text.append("\"");
                assert(text@ == "Selected \""@ + name@ + "\""@);
                self.set_info(text.as_str(), now);
            },
            None => {
                self.last_click = Some(ClickState { index, at: now });
            },
        }
        Action::Nothing
    }
}

/// What is selected depends on the items, the mode, the filter and the selection alone.
pub proof fn lemma_same_items(s: AppState, t: AppState)
    requires
        s.workspaces == t.workspaces,
        s.directories == t.directories,
        s.mode == t.mode,
        s.filter == t.filter,
        s.selected == t.selected,
    ensures
        s.visible() == t.visible(),
        s.selected_index() == t.selected_index(),
        s.selected_workspace() == t.selected_workspace(),
        s.selected_directory() == t.selected_directory(),
        s.selected_name() == t.selected_name(),
        opening(s) == opening(t),
        s.selection_valid() == t.selection_valid(),
{
    crate::app::lemma_visible_same(s, t, s.item_count());
}

// What always holds.
/// A state whose selection is one of its listed items, or the first place.
proof fn lemma_moves_valid(s: AppState)
    requires
        s.selected >= 0,
    ensures
        s.at(0).selection_valid(),
        s.clamped().selection_valid(),
        s.selection_valid() ==> s.at_end().selection_valid(),
        forall|delta: int| (#[trigger] s.moved(delta)).selection_valid(),
        forall|delta: int| (#[trigger] s.moved_round(delta)).selection_valid(),
        forall|rows: int| (#[trigger] s.moved_rows(rows)).selection_valid(),
{
    lemma_listed_same(s, s.at(0));
    lemma_listed_same(s, s.clamped());
    lemma_listed_same(s, s.at_end());
    let n = s.visible().len() as int;
    assert forall|delta: int| (#[trigger] s.moved(delta)).selection_valid() by {
        lemma_listed_same(s, s.moved(delta));
    }
    assert forall|delta: int| (#[trigger] s.moved_round(delta)).selection_valid() by {
        lemma_listed_same(s, s.moved_round(delta));
        if n > 0 {
            vstd::arithmetic::div_mod::lemma_mod_bound(s.selected + delta, n);
        }
    }
    assert forall|rows: int| (#[trigger] s.moved_rows(rows)).selection_valid() by {
        assert(s.moved(rows).selection_valid());
        assert(s.moved(rows * s.columns()).selection_valid());
    }
}

proof fn lemma_listed_same(s: AppState, t: AppState)
    requires
        s.workspaces == t.workspaces,
        s.directories == t.directories,
        s.mode == t.mode,
        s.filter == t.filter,
    ensures
        s.visible() == t.visible(),
{
    crate::app::lemma_visible_same(s, t, s.item_count());
}

/// Every key leaves the selection on a listed item, or on the first place where nothing is
/// listed.
pub proof fn keys_keep_selection_valid(
    s: AppState,
    key: KeyEvent,
    shortcut: Seq<char>,
    current_dir: Option<Seq<char>>,
    now: u64,
)
    requires
        s.selection_valid(),
    ensures
        any_key(s, key, shortcut, current_dir, now) matches Some((t, _))
            ==> t.selection_valid(),
{
    match any_key(s, key, shortcut, current_dir, now) {
        Some((t, _)) => {
            if t.workspaces == s.workspaces && t.directories == s.directories && t.mode == s.mode
                && t.filter == s.filter && t.selected == s.selected {
                lemma_same_items(s, t);
            } else if t.selected != 0 {
                lemma_moves_valid(s);
            }
        },
        None => {},
    }
}

/// So does the mouse.
pub proof fn mouse_keeps_selection_valid(
    s: AppState,
    mouse: MouseEvent,
    shortcut: Seq<char>,
    now: u64,
)
    requires
        s.selection_valid(),
        s.list_offset >= 0,
    ensures
        mouse_step(s, mouse, shortcut, now).0.selection_valid(),
{
    let t = mouse_step(s, mouse, shortcut, now).0;
    lemma_moves_valid(s);
    if t.workspaces == s.workspaces && t.directories == s.directories && t.mode == s.mode
        && t.filter == s.filter {
        lemma_listed_same(s, t);
        crate::app::grid_fits_the_list(s);
        match s.item_at(mouse.column, mouse.row) {
            Some(index) => {
                lemma_item_at_is_listed(s, mouse.column, mouse.row);
            },
            None => {},
        }
    }
}

proof fn lemma_item_at_is_listed(s: AppState, column: u16, row: u16)
    requires
        s.list_offset >= 0,
    ensures
        s.item_at(column, row) matches Some(index) ==> 0 <= index < s.visible().len(),
{
    crate::app::grid_fits_the_list(s);
    let down = s.list_offset + row - s.list_area.y;
    let columns = s.columns();
    if crate::geometry::contains_cell(s.list_area, column, row) {
        assert(down * columns >= 0) by (nonlinear_arith)
            requires
                down >= 0,
                columns >= 1,
        ;
        let dx = column - s.list_area.x;
        let span = s.cell_width() + 2;
        assert(dx / span >= 0) by (nonlinear_arith)
            requires
                dx >= 0,
                span >= 1,
        ;
    }
}

/// Other items, or another place for the selection, leave it valid too.
pub proof fn reloading_keeps_selection_valid(s: AppState, name: Seq<char>)
    requires
        s.selected >= 0,
    ensures
        s.clamped().selection_valid(),
        s.at_name(name).selection_valid(),
{
    lemma_moves_valid(s);
    lemma_listed_same(s, s.at_name(name));
    lemma_place_of(s, name, 0);
}

proof fn lemma_place_of(s: AppState, name: Seq<char>, k: int)
    requires
        0 <= k,
    ensures
        match s.place_of(name, k) {
            Some(found) => k <= found < s.visible().len() && s.name_at(s.visible()[found])
                == name,
            None => forall|j: int|
                k <= j < s.visible().len() ==> s.name_at(#[trigger] s.visible()[j]) != name,
        },
    decreases s.visible().len() - k,
{
    if k < s.visible().len() && s.name_at(s.visible()[k]) != name {
        lemma_place_of(s, name, k + 1);
    }
}

/// A listed item is found by its name.
pub proof fn listed_names_are_found(s: AppState, place: int)
    requires
        0 <= place < s.visible().len(),
    ensures
        s.at_name(s.name_at(s.visible()[place])).selected_name() == Some(
            s.name_at(s.visible()[place]),
        ),
{
    let name = s.name_at(s.visible()[place]);
    lemma_place_of(s, name, 0);
    lemma_listed_same(s, s.at_name(name));
}

/// Control and `c` quit from everywhere.
pub proof fn interrupt_always_quits(
    s: AppState,
    key: KeyEvent,
    shortcut: Seq<char>,
    current_dir: Option<Seq<char>>,
    now: u64,
)
    requires
        interrupts(key),
    ensures
        any_key(s, key, shortcut, current_dir, now) == Some((s, ActionView::Quit)),
{
}

/// The state after keys that are pressed while a filter is typed, each at its time.
pub open spec fn after_search_keys(s: AppState, keys: Seq<(KeyEvent, u64)>) -> AppState
    decreases keys.len(),
{
    if keys.len() == 0 {
        s
    } else {
        search_key(after_search_keys(s, keys.drop_last()), keys.last().0, keys.last().1).0
    }
}

proof fn lemma_search_keeps_previous(s: AppState, keys: Seq<(KeyEvent, u64)>)
    requires
        forall|i: int|
            0 <= i < keys.len() ==> (#[trigger] keys[i]).0.code != KeyCode::Esc && keys[i].0.code
                != KeyCode::Enter,
    ensures
        after_search_keys(s, keys).search_before_edit == s.search_before_edit,
        after_search_keys(s, keys).mode == s.mode,
        after_search_keys(s, keys).dialog == s.dialog,
    decreases keys.len(),
{
    if keys.len() > 0 {
        lemma_search_keeps_previous(s, keys.drop_last());
        assert(keys.last().0.code != KeyCode::Esc && keys.last().0.code != KeyCode::Enter);
    }
}

/// However a filter was begun and edited, and whenever, escape brings back the one before.
pub proof fn escape_restores_filter(
    s: AppState,
    initial: Option<char>,
    keys: Seq<(KeyEvent, u64)>,
    escape: KeyEvent,
    now: u64,
)
    requires
        forall|i: int|
            0 <= i < keys.len() ==> (#[trigger] keys[i]).0.code != KeyCode::Esc && keys[i].0.code
                != KeyCode::Enter,
        escape.code == KeyCode::Esc,
    ensures
        ({
            let typed = after_search_keys(s.searching(initial), keys);
            let back = search_key(typed, escape, now).0;
            &&& back.filter == match s.search_before_edit {
                Some(before) => before,
                None => s.filter,
            }
            &&& back.search_before_edit is None
            &&& back.selected == 0
        }),
{
    lemma_search_keeps_previous(s.searching(initial), keys);
}

/// Backspace undoes a typed character.
pub proof fn backspace_undoes_typing(text: Seq<char>, typed: KeyEvent, backspace: KeyEvent)
    requires
        typed.code is Char,
        !crate::key::commanding(typed.modifiers),
        backspace.code == KeyCode::Backspace,
    ensures
        edited(edited(text, typed), backspace) == text,
{
    match typed.code {
        KeyCode::Char(c) => {
            assert(text.push(c).drop_last() =~= text);
        },
        _ => {},
    }
}

/// Two clicks on one item, close enough, ask for what Enter asks for once it is selected.
pub proof fn double_click_opens(
    s: AppState,
    first: MouseEvent,
    second: MouseEvent,
    enter: KeyEvent,
    shortcut: Seq<char>,
    then: u64,
    now: u64,
)
    requires
        s.dialog == Dialog::Closed,
        s.mode == BrowserMode::Directory || !crate::geometry::contains_cell(
            s.shortcut_area,
            first.column,
            first.row,
        ),
        first.kind == MouseEventKind::LeftDown,
        second == first,
        s.list_offset >= 0,
        s.item_at(first.column, first.row) is Some,
        !s.clicked_before(s.item_at(first.column, first.row).unwrap(), then),
        now - then <= crate::app::DOUBLE_CLICK_MS,
        enter.code == KeyCode::Enter,
    ensures
        ({
            let selected = mouse_step(s, first, shortcut, then).0;
            let action = mouse_step(selected, second, shortcut, now).1;
            &&& selected.selected == s.item_at(first.column, first.row).unwrap()
            &&& action == main_key(selected, enter, shortcut, now).1
            &&& action is LaunchWorkspace || action is ReplaceDirectory
        }),
{
    let index = s.item_at(first.column, first.row).unwrap();
    let selected = mouse_step(s, first, shortcut, then).0;
    lemma_item_at_is_listed(s, first.column, first.row);
    lemma_listed_same(s, selected);
    crate::app::lemma_grid_same(s, selected);
    let here = AppState { selected: index, ..selected };
    lemma_same_items(selected, here);
}

/// What the mouse asks for is to open something, or nothing.
pub proof fn mouse_only_opens(s: AppState, mouse: MouseEvent, shortcut: Seq<char>, now: u64)
    ensures
        ({
            let action = mouse_step(s, mouse, shortcut, now).1;
            action is Nothing || action is LaunchWorkspace || action is ReplaceDirectory
        }),
{
}

/// Names and shortcuts that are asked for are not blank, and have no white space around
/// them; a new name differs from the old one.
pub proof fn asked_texts_are_trimmed(
    s: AppState,
    key: KeyEvent,
    shortcut: Seq<char>,
    current_dir: Option<Seq<char>>,
    now: u64,
)
    ensures
        match any_key(s, key, shortcut, current_dir, now) {
            Some((_, ActionView::SaveWorkspace(name))) => name.len() > 0 && crate::text::trim(
                name,
            ) == name,
            Some((_, ActionView::SaveDirectory(name, _))) => name.len() > 0
                && crate::text::trim(name) == name,
            Some((_, ActionView::RenameWorkspace(original, name))) => name.len() > 0
                && crate::text::trim(name) == name && name != original,
            Some((_, ActionView::RenameDirectory(original, name))) => name.len() > 0
                && crate::text::trim(name) == name && name != original,
            Some((_, ActionView::SetGhosttyShortcut(text))) => text.len() > 0
                && crate::text::trim(text) == text,
            _ => true,
        },
{
    crate::text::lemma_trim(s.save_input);
    crate::text::lemma_trim(s.rename_input);
    crate::text::lemma_trim(s.shortcut_input);
    crate::text::lemma_trimmed(crate::text::trim(s.save_input));
    crate::text::lemma_trimmed(crate::text::trim(s.rename_input));
    crate::text::lemma_trimmed(crate::text::trim(s.shortcut_input));
}

/// `f` goes to the other kind of item and back, and drops the filter.
pub proof fn toggling_returns(s: AppState, shortcut: Seq<char>, now: u64)
    ensures
        ({
            let there = main_char(s, 'f', shortcut, now).0;
            let back = main_char(there, 'f', shortcut, now).0;
            there.mode != s.mode && back.mode == s.mode && there.filter.len() == 0
                && back.filter.len() == 0
        }),
{
}

// What keys and clicks are about.
/// Something is selected: a place of the list.
pub open spec fn has_selection(s: AppState) -> bool {
    0 <= s.selected < s.visible().len()
}

/// What a key asks for is about what the user sees: the selected item, what was typed, the
/// item whose rename was begun, or the directory that the user is in.
pub proof fn keys_act_on_what_is_seen(
    s: AppState,
    key: KeyEvent,
    shortcut: Seq<char>,
    current_dir: Option<Seq<char>>,
    now: u64,
)
    ensures
        match any_key(s, key, shortcut, current_dir, now) {
            Some((t, ActionView::DeleteWorkspace(name))) => {
                &&& s.dialog == Dialog::ConfirmDeleteWorkspace
                &&& s.mode == BrowserMode::Workspace && has_selection(s)
                &&& name == s.workspaces[s.visible()[s.selected]].name@
            },
            Some((t, ActionView::DeleteDirectory(name))) => {
                &&& s.dialog == Dialog::ConfirmDeleteDirectory
                &&& s.mode == BrowserMode::Directory && has_selection(s)
                &&& name == s.directories[s.visible()[s.selected]].name@
            },
            Some((t, ActionView::EditWorkspace(name))) => {
                &&& s.dialog == Dialog::Closed && key.code == KeyCode::Char('e')
                &&& s.mode == BrowserMode::Workspace && has_selection(s)
                &&& name == s.workspaces[s.visible()[s.selected]].name@
            },
            Some((t, ActionView::LaunchWorkspace(name))) => {
                &&& s.dialog == Dialog::Closed && key.code == KeyCode::Enter
                &&& s.mode == BrowserMode::Workspace && has_selection(s)
                &&& name == s.workspaces[s.visible()[s.selected]].name@
            },
            Some((t, ActionView::ReplaceDirectory(path))) => {
                &&& s.dialog == Dialog::Closed && key.code == KeyCode::Enter
                &&& s.mode == BrowserMode::Directory && has_selection(s)
                &&& path == s.directories[s.visible()[s.selected]].path@
            },
            Some((t, ActionView::RenameWorkspace(from, to))) => {
                &&& s.dialog == Dialog::RenameWorkspace && key.code == KeyCode::Enter
                &&& s.rename_original == Some(from)
                &&& to == crate::text::trim(s.rename_input) && to.len() > 0 && to != from
            },
            Some((t, ActionView::RenameDirectory(from, to))) => {
                &&& s.dialog == Dialog::RenameDirectory && key.code == KeyCode::Enter
                &&& s.rename_original == Some(from)
                &&& to == crate::text::trim(s.rename_input) && to.len() > 0 && to != from
            },
            Some((t, ActionView::SaveWorkspace(name))) => {
                &&& s.dialog == Dialog::SaveWorkspace && key.code == KeyCode::Enter
                &&& name == crate::text::trim(s.save_input) && name.len() > 0
            },
            Some((t, ActionView::SaveDirectory(name, path))) => {
                &&& s.dialog == Dialog::SaveDirectory && key.code == KeyCode::Enter
                &&& name == crate::text::trim(s.save_input) && name.len() > 0
                &&& current_dir == Some(path)
            },
            Some((t, ActionView::SetGhosttyShortcut(text))) => {
                &&& s.dialog == Dialog::EditGhosttyShortcut && key.code == KeyCode::Enter
                &&& text == crate::text::trim(s.shortcut_input) && text.len() > 0
            },
            Some((t, ActionView::ToggleCloseTab)) => {
                &&& s.dialog == Dialog::Settings
                &&& key.code == KeyCode::Char('c') || key.code == KeyCode::Char(' ')
            },
            Some((t, ActionView::Refresh)) => s.dialog == Dialog::Closed && key.code
                == KeyCode::Char('r'),
            Some((t, ActionView::Quit)) => interrupts(key) || s.dialog == Dialog::Closed && (
            key.code == KeyCode::Char('q') || key.code == KeyCode::Esc && s.filter.len() == 0),
            _ => true,
        },
{
}

/// A key asks for this.
pub open spec fn asks(step: Option<Step>, action: ActionView) -> bool {
    step is Some && (step->0).1 == action
}

/// The keys that ask for something do so wherever there is something to ask it of.
pub proof fn keys_are_answered(
    s: AppState,
    key: KeyEvent,
    shortcut: Seq<char>,
    current_dir: Option<Seq<char>>,
    now: u64,
)
    requires
        !interrupts(key),
    ensures
        ({
            let step = any_key(s, key, shortcut, current_dir, now);
            let browsing = s.dialog == Dialog::Closed && s.search_before_edit is None;
            let here = s.visible()[s.selected];
            let enter = key.code == KeyCode::Enter;
            let yes = enter || key.code == KeyCode::Char('y');
            let workspaces = s.mode == BrowserMode::Workspace;
            let saved = crate::text::trim(s.save_input);
            let renamed = crate::text::trim(s.rename_input);
            let bound = crate::text::trim(s.shortcut_input);
            let renames = enter && s.rename_original is Some && renamed.len() > 0 && renamed
                != s.rename_original->0;
            &&& s.dialog == Dialog::ConfirmDeleteWorkspace && yes && workspaces && has_selection(s)
                ==> asks(step, ActionView::DeleteWorkspace(s.workspaces[here].name@))
            &&& s.dialog == Dialog::ConfirmDeleteDirectory && yes && !workspaces && has_selection(s)
                ==> asks(step, ActionView::DeleteDirectory(s.directories[here].name@))
            &&& browsing && enter && workspaces && has_selection(s) ==> asks(
                step,
                ActionView::LaunchWorkspace(s.workspaces[here].name@),
            )
            &&& browsing && enter && !workspaces && has_selection(s) ==> asks(
                step,
                ActionView::ReplaceDirectory(s.directories[here].path@),
            )
            &&& browsing && key.code == KeyCode::Char('e') && workspaces && has_selection(s)
                ==> asks(step, ActionView::EditWorkspace(s.workspaces[here].name@))
            &&& s.dialog == Dialog::SaveWorkspace && enter && saved.len() > 0 ==> asks(
                step,
                ActionView::SaveWorkspace(saved),
            )
            &&& s.dialog == Dialog::SaveDirectory && enter && saved.len() > 0 && current_dir is Some
                ==> asks(step, ActionView::SaveDirectory(saved, current_dir->0))
            &&& step is None <==> s.dialog == Dialog::SaveDirectory && enter && saved.len() > 0
                && current_dir is None
            &&& s.dialog == Dialog::EditGhosttyShortcut && enter && bound.len() > 0 ==> asks(
                step,
                ActionView::SetGhosttyShortcut(bound),
            )
            &&& s.dialog == Dialog::RenameWorkspace && renames ==> asks(
                step,
                ActionView::RenameWorkspace(s.rename_original->0, renamed),
            )
            &&& s.dialog == Dialog::RenameDirectory && renames ==> asks(
                step,
                ActionView::RenameDirectory(s.rename_original->0, renamed),
            )
            &&& s.dialog == Dialog::Settings && (key.code == KeyCode::Char('c') || key.code
                == KeyCode::Char(' ')) ==> asks(step, ActionView::ToggleCloseTab)
            &&& browsing && key.code == KeyCode::Char('r') ==> asks(step, ActionView::Refresh)
            &&& browsing && key.code == KeyCode::Char('q') ==> asks(step, ActionView::Quit)
        }),
{
}

/// Keys that open a dialog open it about the selected item, with its name where it is to
/// be edited, and leave the selection where it is. Nothing is asked for yet.
pub proof fn dialogs_open_on_the_selection(
    s: AppState,
    key: KeyEvent,
    shortcut: Seq<char>,
    current_dir: Option<Seq<char>>,
    now: u64,
)
    requires
        s.dialog == Dialog::Closed,
        s.search_before_edit is None,
        !key.modifiers.control,
    ensures
        ({
            let workspaces = s.mode == BrowserMode::Workspace;
            let here = s.visible()[s.selected];
            let name = if workspaces {
                s.workspaces[here].name@
            } else {
                s.directories[here].name@
            };
            match any_key(s, key, shortcut, current_dir, now) {
                Some((t, action)) => {
                    &&& key.code == KeyCode::Char('n') && has_selection(s) ==> {
                        &&& action is Nothing
                        &&& t.dialog == if workspaces {
                            Dialog::RenameWorkspace
                        } else {
                            Dialog::RenameDirectory
                        }
                        &&& t.rename_original == Some(name)
                        &&& t.rename_input == name
                        &&& t.selected == s.selected && t.filter == s.filter && t.mode == s.mode
                    }
                    &&& key.code == KeyCode::Char('d') && has_selection(s) ==> {
                        &&& action is Nothing
                        &&& t.dialog == if workspaces {
                            Dialog::ConfirmDeleteWorkspace
                        } else {
                            Dialog::ConfirmDeleteDirectory
                        }
                        &&& t.selected == s.selected && t.filter == s.filter && t.mode == s.mode
                    }
                    &&& key.code == KeyCode::Char('a') ==> {
                        &&& action is Nothing
                        &&& t.dialog == if workspaces {
                            Dialog::SaveWorkspace
                        } else {
                            Dialog::SaveDirectory
                        }
                        &&& t.save_input.len() == 0
                    }
                    &&& key.code == KeyCode::Char('g') && workspaces ==> {
                        &&& action is Nothing
                        &&& t.dialog == Dialog::EditGhosttyShortcut
                        &&& t.shortcut_input == shortcut
                    }
                    &&& key.code == KeyCode::Char('t') && workspaces ==> action is Nothing
                        && t.dialog == Dialog::Settings
                    &&& key.code == KeyCode::Char('?') ==> action is Nothing && t.dialog
                        == Dialog::Help
                    &&& (key.code == KeyCode::Char('n') || key.code == KeyCode::Char('d'))
                        && !has_selection(s) ==> {
                        &&& action is Nothing
                        &&& t.dialog == Dialog::Closed
                        &&& t.status is Some && (t.status->0).0 == StatusKind::Error
                    }
                },
                None => false,
            }
        }),
{
}

/// No key and no click changes what there is: the items are changed by what is asked for
/// alone. Nothing but a typed filter or another kind of item changes what is listed.
pub proof fn keys_and_clicks_change_no_item(
    s: AppState,
    key: KeyEvent,
    mouse: MouseEvent,
    shortcut: Seq<char>,
    current_dir: Option<Seq<char>>,
    now: u64,
)
    ensures
        match any_key(s, key, shortcut, current_dir, now) {
            Some((t, action)) => {
                &&& t.workspaces == s.workspaces && t.directories == s.directories
                &&& t.mode != s.mode ==> key.code == KeyCode::Char('f') && s.dialog
                    == Dialog::Closed && t.filter.len() == 0 && t.selected == 0
                &&& t.filter != s.filter && t.mode == s.mode ==> s.dialog == Dialog::Closed
                    && t.selected == 0
                &&& s.dialog != Dialog::Closed ==> t.selected == s.selected && t.filter == s.filter
                    && t.mode == s.mode
                &&& !(action is Nothing) ==> t.selected == s.selected && t.filter == s.filter
                    && t.mode == s.mode && t.dialog == s.dialog
            },
            None => true,
        },
        ({
            let t = mouse_step(s, mouse, shortcut, now).0;
            &&& t.workspaces == s.workspaces && t.directories == s.directories
            &&& t.mode == s.mode && t.filter == s.filter
            &&& s.dialog != Dialog::Closed ==> t == s
        }),
{
}

/// The arrows go one item or one row on, and stop at the ends; Home and End go to them.
pub proof fn arrows_move_by_one(
    s: AppState,
    key: KeyEvent,
    shortcut: Seq<char>,
    current_dir: Option<Seq<char>>,
    now: u64,
)
    requires
        s.dialog == Dialog::Closed,
        s.search_before_edit is None,
        !interrupts(key),
        has_selection(s),
    ensures
        match any_key(s, key, shortcut, current_dir, now) {
            Some((t, action)) => {
                let last = s.visible().len() - 1;
                let down = key.code == KeyCode::Down || key.code == KeyCode::Char('j') || key.code
                    == KeyCode::Char('s');
                let up = key.code == KeyCode::Up || key.code == KeyCode::Char('k') || key.code
                    == KeyCode::Char('w');
                let workspaces = s.mode == BrowserMode::Workspace;
                &&& down && workspaces ==> action is Nothing && t.selected == if s.selected < last {
                    s.selected + 1
                } else {
                    last
                }
                &&& up && workspaces ==> action is Nothing && t.selected == if s.selected > 0 {
                    s.selected - 1
                } else {
                    0
                }
                &&& down && !workspaces ==> t.selected == if s.selected + s.columns() <= last {
                    s.selected + s.columns()
                } else {
                    last
                }
                &&& up && !workspaces ==> t.selected == if s.selected - s.columns() >= 0 {
                    s.selected - s.columns()
                } else {
                    0
                }
                &&& key.code == KeyCode::Right && !workspaces ==> t.selected == if s.selected
                    < last {
                    s.selected + 1
                } else {
                    last
                }
                &&& key.code == KeyCode::Left && !workspaces ==> t.selected == if s.selected > 0 {
                    s.selected - 1
                } else {
                    0
                }
                &&& key.code == KeyCode::Home ==> t.selected == 0
                &&& key.code == KeyCode::End || key.code == KeyCode::Char('G') ==> t.selected
                    == last
                &&& key.code == KeyCode::PageDown ==> t.selected >= s.selected && (t.selected
                    > s.selected || s.selected == last)
                &&& key.code == KeyCode::PageUp ==> t.selected <= s.selected && (t.selected
                    < s.selected || s.selected == 0)
            },
            None => false,
        },
{
    crate::app::grid_fits_the_list(s);
    let c = s.columns();
    let r = s.rows_per_page();
    assert(c * r >= 1) by (nonlinear_arith)
        requires
            c >= 1,
            r >= 1,
    ;
    assert(1 * c == c && -1 * c == -c);
}

/// A filter is typed character by character; each edit selects the first item again. The
/// cursor keys move through what is listed, forward and back, and go round at the ends.
pub proof fn filters_are_typed(
    s: AppState,
    key: KeyEvent,
    shortcut: Seq<char>,
    current_dir: Option<Seq<char>>,
    now: u64,
)
    requires
        s.dialog == Dialog::Closed,
        s.search_before_edit is Some,
        !interrupts(key),
    ensures
        match any_key(s, key, shortcut, current_dir, now) {
            Some((t, action)) => {
                &&& action is Nothing
                &&& t.mode == s.mode && t.dialog == Dialog::Closed
                &&& key.code is Char && !crate::key::commanding(key.modifiers) ==> t.filter.len()
                    == s.filter.len() + 1 && key.code == KeyCode::Char(t.filter.last())
                    && t.filter.drop_last() == s.filter && t.selected == 0
                &&& key.code == KeyCode::Backspace && s.filter.len() > 0 ==> t.filter
                    == s.filter.drop_last() && t.selected == 0
                &&& key.code == KeyCode::Enter ==> t.filter == s.filter && t.search_before_edit
                    is None && t.selected == s.selected
                &&& key.code == KeyCode::Tab && has_selection(s) ==> t.selected
                    == if s.selected + 1 < s.visible().len() {
                    s.selected + 1
                } else {
                    0
                }
                &&& key.code == KeyCode::BackTab && has_selection(s) ==> t.selected
                    == if s.selected > 0 {
                    s.selected - 1
                } else {
                    s.visible().len() - 1
                }
            },
            None => false,
        },
{
    match key.code {
        KeyCode::Char(c) => {
            assert(s.filter.push(c).drop_last() =~= s.filter);
        },
        _ => {},
    }
    let n = s.visible().len() as int;
    if has_selection(s) {
        if s.selected + 1 < n {
            vstd::arithmetic::div_mod::lemma_small_mod((s.selected + 1) as nat, n as nat);
        } else {
            vstd::arithmetic::div_mod::lemma_mod_self_0(n);
        }
        if s.selected > 0 {
            vstd::arithmetic::div_mod::lemma_small_mod((s.selected - 1) as nat, n as nat);
        } else {
            vstd::arithmetic::div_mod::lemma_fundamental_div_mod_converse(-1, n, -1, n - 1);
        }
    }
}

/// Dialogs are typed into character by character, Esc and `n` leave without asking for
/// anything, and `/` begins a filter from the one that is set.
pub proof fn dialogs_are_typed_into(
    s: AppState,
    key: KeyEvent,
    shortcut: Seq<char>,
    current_dir: Option<Seq<char>>,
    now: u64,
)
    requires
        !interrupts(key),
    ensures
        match any_key(s, key, shortcut, current_dir, now) {
            Some((t, action)) => {
                let saving = s.dialog == Dialog::SaveWorkspace || s.dialog == Dialog::SaveDirectory;
                let renaming = s.dialog == Dialog::RenameWorkspace || s.dialog
                    == Dialog::RenameDirectory;
                let deleting = s.dialog == Dialog::ConfirmDeleteWorkspace || s.dialog
                    == Dialog::ConfirmDeleteDirectory;
                &&& saving && key.code is Char && !crate::key::commanding(key.modifiers) ==> action is Nothing && t.dialog == s.dialog && t.save_input.drop_last()
                    == s.save_input && key.code == KeyCode::Char(t.save_input.last())
                &&& saving && key.code == KeyCode::Backspace && s.save_input.len() > 0
                    ==> t.save_input == s.save_input.drop_last()
                &&& renaming && key.code is Char && !crate::key::commanding(key.modifiers) ==> action is Nothing && t.dialog == s.dialog && t.rename_input.drop_last()
                    == s.rename_input && key.code == KeyCode::Char(t.rename_input.last())
                    && t.rename_original == s.rename_original
                &&& renaming && key.code == KeyCode::Backspace && s.rename_input.len() > 0
                    ==> t.rename_input == s.rename_input.drop_last() && t.rename_original
                    == s.rename_original
                &&& (saving || renaming || deleting) && key.code == KeyCode::Esc ==> action is Nothing
                    && t.dialog == Dialog::Closed
                &&& deleting && key.code == KeyCode::Char('n') ==> action is Nothing && t.dialog
                    == Dialog::Closed
                &&& s.dialog == Dialog::EditGhosttyShortcut && key.code == KeyCode::Esc
                    ==> action is Nothing && t.dialog == s.shortcut_return_dialog
                &&& s.dialog == Dialog::Closed && s.search_before_edit is None && key.code
                    == KeyCode::Char('/') ==> action is Nothing && t.search_before_edit == Some(
                    s.filter,
                ) && t.filter == s.filter
            },
            None => true,
        },
{
    match key.code {
        KeyCode::Char(c) => {
            assert(s.save_input.push(c).drop_last() =~= s.save_input);
            assert(s.rename_input.push(c).drop_last() =~= s.rename_input);
        },
        _ => {},
    }
}

/// A click on a line of the list selects the workspace that is shown there.
pub proof fn clicks_select_the_line(
    s: AppState,
    mouse: MouseEvent,
    shortcut: Seq<char>,
    now: u64,
    line: int,
)
    requires
        s.dialog == Dialog::Closed,
        s.mode == BrowserMode::Workspace,
        mouse.kind == MouseEventKind::LeftDown,
        crate::geometry::contains_cell(s.list_area, mouse.column, mouse.row),
        !crate::geometry::contains_cell(s.shortcut_area, mouse.column, mouse.row),
        line == s.list_offset + mouse.row - s.list_area.y,
        0 <= line < s.visible().len(),
    ensures
        ({
            let (t, action) = mouse_step(s, mouse, shortcut, now);
            let again = s.last_click is Some && (s.last_click->0).0 == line && now
                - (s.last_click->0).1 <= crate::app::DOUBLE_CLICK_MS;
            &&& t.selected == line
            &&& again ==> action == ActionView::LaunchWorkspace(
                s.workspaces[s.visible()[line]].name@,
            )
            &&& !again ==> action is Nothing && t.last_click == Some((line, now as int))
        }),
{
    let here = AppState { selected: line, ..s };
    lemma_listed_same(s, here);
}

/// The wheel moves as the arrows do, over the list and nowhere else.
pub proof fn wheel_moves_like_arrows(
    s: AppState,
    mouse: MouseEvent,
    down: KeyEvent,
    up: KeyEvent,
    shortcut: Seq<char>,
    now: u64,
)
    requires
        s.dialog == Dialog::Closed,
        down.code == KeyCode::Down,
        up.code == KeyCode::Up,
    ensures
        ({
            let (t, action) = mouse_step(s, mouse, shortcut, now);
            let over = crate::geometry::contains_cell(s.list_area, mouse.column, mouse.row);
            &&& mouse.kind == MouseEventKind::ScrollDown ==> action is Nothing && t == (if over {
                main_key(s, down, shortcut, now).0
            } else {
                s
            })
            &&& mouse.kind == MouseEventKind::ScrollUp ==> action is Nothing && t == (if over {
                main_key(s, up, shortcut, now).0
            } else {
                s
            })
        }),
{
}

/// In the shortcut's editor a key with a modifier, or with a name, is written down as the
/// shortcut; another one is typed.
pub proof fn shortcuts_are_pressed_or_typed(s: AppState, key: KeyEvent, now: u64)
    requires
        key.code != KeyCode::Esc,
        key.code != KeyCode::Enter,
        key.code != KeyCode::Backspace,
    ensures
        ({
            let t = shortcut_key(s, key, now).0;
            let plain = key.code is Char && !crate::key::commanding(key.modifiers);
            &&& plain ==> t.shortcut_input.drop_last() == s.shortcut_input && key.code
                == KeyCode::Char(t.shortcut_input.last())
            &&& !plain && crate::key::key_name(key.code) is Some ==> Some(t.shortcut_input)
                == crate::key::shortcut_of_key(key)
            &&& t.dialog == s.dialog
        }),
{
    match key.code {
        KeyCode::Char(c) => {
            assert(s.shortcut_input.push(c).drop_last() =~= s.shortcut_input);
        },
        _ => {},
    }
}

/// The keys of the list that act on no item: quitting, help, settings, reloading, the
/// shortcut, and clearing the filter. Escape clears a filter first and quits only without
/// one.
pub proof fn keys_do_what_the_help_says(
    s: AppState,
    key: KeyEvent,
    shortcut: Seq<char>,
    current_dir: Option<Seq<char>>,
    now: u64,
)
    requires
        s.dialog == Dialog::Closed,
        s.search_before_edit is None,
        !interrupts(key),
    ensures
        match any_key(s, key, shortcut, current_dir, now) {
            Some((t, action)) => {
                let workspaces = s.mode == BrowserMode::Workspace;
                let idle = key.code == KeyCode::Char('e') || key.code == KeyCode::Char('n')
                    || key.code == KeyCode::Char('d') || key.code == KeyCode::Enter;
                &&& key.code == KeyCode::Char('q') ==> action is Quit && t == s
                &&& key.code == KeyCode::Char('r') ==> action is Refresh && t == s
                &&& key.code == KeyCode::Char('?') ==> action is Nothing && t == (AppState {
                    dialog: Dialog::Help,
                    ..s
                })
                &&& key.code == KeyCode::Char('t') && workspaces ==> action is Nothing && t
                    == (AppState { dialog: Dialog::Settings, ..s })
                &&& key.code == KeyCode::Char('g') && workspaces ==> action is Nothing && t
                    == (AppState {
                    dialog: Dialog::EditGhosttyShortcut,
                    shortcut_return_dialog: Dialog::Closed,
                    shortcut_input: shortcut,
                    ..s
                })
                &&& (key.code == KeyCode::Char('t') || key.code == KeyCode::Char('g')
                    || key.code == KeyCode::Char('e')) && !workspaces ==> action is Nothing && t
                    == s
                &&& key.code == KeyCode::Esc && s.filter.len() == 0 ==> action is Quit && t == s
                &&& key.code == KeyCode::Esc && s.filter.len() > 0 ==> action is Nothing
                    && t.filter.len() == 0 && t.selected == 0 && t.mode == s.mode
                &&& key.code == KeyCode::Char('f') ==> t.mode != s.mode && t.filter.len() == 0
                    && t.selected == 0 && t.list_offset == 0 && t.search_before_edit is None
                &&& key.code == KeyCode::Char('a') ==> action is Nothing && t == (AppState {
                    dialog: if workspaces {
                        Dialog::SaveWorkspace
                    } else {
                        Dialog::SaveDirectory
                    },
                    save_input: seq![],
                    ..s
                })
                &&& idle && !has_selection(s) && (key.code == KeyCode::Char('e') ==> workspaces)
                    ==> action is Nothing && t.status is Some && (t.status->0).0
                    == StatusKind::Error && (AppState {
                    status: s.status,
                    status_expiry: s.status_expiry,
                    ..t
                }) == s
            },
            None => false,
        },
{
}

/// A page moves as far as the list is high, and stops at the ends, in the list and while a
/// filter is typed.
pub proof fn pages_move_by_the_height(
    s: AppState,
    key: KeyEvent,
    shortcut: Seq<char>,
    current_dir: Option<Seq<char>>,
    now: u64,
)
    requires
        s.dialog == Dialog::Closed,
        has_selection(s),
        s.list_area.height > 0,
        key.code == KeyCode::PageDown || key.code == KeyCode::PageUp,
    ensures
        match any_key(s, key, shortcut, current_dir, now) {
            Some((t, action)) => {
                let last = s.visible().len() - 1;
                let page = if s.mode == BrowserMode::Directory {
                    s.columns() * s.list_area.height
                } else if s.list_area.height > 6 {
                    s.list_area.height - 1
                } else {
                    5
                };
                &&& action is Nothing
                &&& key.code == KeyCode::PageDown ==> t.selected == if s.selected + page <= last {
                    s.selected + page
                } else {
                    last
                }
                &&& key.code == KeyCode::PageUp ==> t.selected == if s.selected - page >= 0 {
                    s.selected - page
                } else {
                    0
                }
            },
            None => false,
        },
{
    crate::app::grid_fits_the_list(s);
    crate::app::pages_are_as_high_as_the_list(s);
    let c = s.columns();
    let h = s.list_area.height as int;
    assert(c * h >= 1) by (nonlinear_arith)
        requires
            c >= 1,
            h >= 1,
    ;
}

/// A name that is missing or unchanged asks for nothing: where it is missing the dialog
/// stays open and says so, and where it is unchanged the dialog is closed.
pub proof fn missing_names_are_not_taken(
    s: AppState,
    key: KeyEvent,
    shortcut: Seq<char>,
    current_dir: Option<Seq<char>>,
    now: u64,
)
    requires
        key.code == KeyCode::Enter,
    ensures
        match any_key(s, key, shortcut, current_dir, now) {
            Some((t, action)) => {
                let renaming = s.dialog == Dialog::RenameWorkspace || s.dialog
                    == Dialog::RenameDirectory;
                let saving = s.dialog == Dialog::SaveWorkspace || s.dialog
                    == Dialog::SaveDirectory;
                let editing = s.dialog == Dialog::EditGhosttyShortcut;
                let missing = renaming && s.rename_original is Some && crate::text::trim(
                    s.rename_input,
                ).len() == 0 || saving && crate::text::trim(s.save_input).len() == 0 || editing
                    && crate::text::trim(s.shortcut_input).len() == 0;
                let same = renaming && s.rename_original is Some && crate::text::trim(
                    s.rename_input,
                ) == s.rename_original->0;
                &&& missing ==> action is Nothing && t.dialog == s.dialog && t.status is Some && (
                t.status->0).0 == StatusKind::Error
                &&& same && !missing ==> action is Nothing && t.dialog == Dialog::Closed
                    && t.status is Some && (t.status->0).0 == StatusKind::Info
                &&& renaming && s.rename_original is None ==> action is Nothing && t.dialog
                    == Dialog::Closed
            },
            None => s.dialog == Dialog::SaveDirectory && current_dir is None,
        },
{
}

/// In the settings `c` and space toggle, `g` edits the shortcut from there, and escape and
/// return close them; escape, `?` and `q` close the help. No other key does anything there.
pub proof fn settings_and_help_are_closed(
    s: AppState,
    key: KeyEvent,
    shortcut: Seq<char>,
    current_dir: Option<Seq<char>>,
    now: u64,
)
    requires
        !interrupts(key),
        s.dialog == Dialog::Settings || s.dialog == Dialog::Help,
    ensures
        match any_key(s, key, shortcut, current_dir, now) {
            Some((t, action)) => if s.dialog == Dialog::Settings {
                if key.code == KeyCode::Esc || key.code == KeyCode::Enter {
                    action is Nothing && t.dialog == Dialog::Closed
                } else if key.code == KeyCode::Char('c') || key.code == KeyCode::Char(' ') {
                    action is ToggleCloseTab && t == s
                } else if key.code == KeyCode::Char('g') {
                    action is Nothing && t.dialog == Dialog::EditGhosttyShortcut
                        && t.shortcut_return_dialog == Dialog::Settings && t.shortcut_input
                        == shortcut
                } else {
                    action is Nothing && t == s
                }
            } else {
                action is Nothing && if key.code == KeyCode::Esc || key.code == KeyCode::Char('?')
                    || key.code == KeyCode::Char('q') {
                    t == (AppState { dialog: Dialog::Closed, ..s })
                } else {
                    t == s
                }
            },
            None => false,
        },
{
}

/// While a filter is typed the selection goes round at the ends, with tab, and with control
/// and the letters for next and previous; the arrows stop there.
pub proof fn selection_goes_round_in_search(s: AppState, key: KeyEvent, now: u64)
    requires
        has_selection(s),
    ensures
        ({
            let t = search_key(s, key, now).0;
            let n = s.visible().len();
            let ctrl = key.modifiers.control;
            let next = key.code == KeyCode::Tab || ctrl && (key.code == KeyCode::Char('n')
                || key.code == KeyCode::Char('j') || key.code == KeyCode::Char('N') || key.code
                == KeyCode::Char('J'));
            let previous = key.code == KeyCode::BackTab || ctrl && (key.code == KeyCode::Char('p')
                || key.code == KeyCode::Char('k') || key.code == KeyCode::Char('P') || key.code
                == KeyCode::Char('K'));
            &&& next ==> t.selected == if s.selected + 1 < n {
                s.selected + 1
            } else {
                0
            }
            &&& previous ==> t.selected == if s.selected > 0 {
                s.selected - 1
            } else {
                n - 1
            }
            &&& next || previous ==> t.filter == s.filter && t.search_before_edit
                == s.search_before_edit
            &&& key.code == KeyCode::Down && s.mode == BrowserMode::Workspace ==> t.selected
                == if s.selected + 1 < n {
                s.selected + 1
            } else {
                s.selected
            }
            &&& key.code == KeyCode::Up && s.mode == BrowserMode::Workspace ==> t.selected
                == if s.selected > 0 {
                s.selected - 1
            } else {
                0
            }
        }),
{
    let n = s.visible().len() as int;
    let i = s.selected;
    assert((i + 1) % n == if i + 1 < n {
        i + 1
    } else {
        0
    }) by {
        if i + 1 == n {
            assert(n % n == 0) by (nonlinear_arith)
                requires
                    n > 0,
            ;
        } else {
            vstd::arithmetic::div_mod::lemma_small_mod((i + 1) as nat, n as nat);
        }
    }
    assert((i - 1) % n == if i > 0 {
        i - 1
    } else {
        n - 1
    }) by {
        if i > 0 {
            vstd::arithmetic::div_mod::lemma_small_mod((i - 1) as nat, n as nat);
        } else {
            assert((-1int) % n == n - 1) by (nonlinear_arith)
                requires
                    n > 0,
            ;
        }
    }
}

/// Once a filter is kept, it is said how many of the items it lists.
pub proof fn kept_filters_are_counted(s: AppState, key: KeyEvent, now: u64)
    requires
        key.code == KeyCode::Enter,
    ensures
        ({
            let t = search_key(s, key, now).0;
            &&& t.status is Some
            &&& (t.status->0).1 == "Showing "@ + crate::number::decimal(s.visible().len())
                + " of "@ + crate::number::decimal(
                if s.mode == BrowserMode::Workspace {
                    s.workspaces.len()
                } else {
                    s.directories.len()
                },
            ) + " "@ + (if s.mode == BrowserMode::Workspace {
                "workspaces"@
            } else {
                "directories"@
            })
        }),
{
}

/// A click on the shortcut edits it; one beside the list forgets the last one; and the first
/// click on a directory selects it, the second puts it in the place of the split.
pub proof fn clicks_land_where_they_are(
    s: AppState,
    mouse: MouseEvent,
    shortcut: Seq<char>,
    now: u64,
    place: int,
)
    requires
        s.dialog == Dialog::Closed,
        mouse.kind == MouseEventKind::LeftDown,
    ensures
        ({
            let (t, action) = mouse_step(s, mouse, shortcut, now);
            let on_shortcut = s.mode == BrowserMode::Workspace && crate::geometry::contains_cell(
                s.shortcut_area,
                mouse.column,
                mouse.row,
            );
            let again = s.last_click is Some && (s.last_click->0).0 == place && now
                - (s.last_click->0).1 <= 350;
            &&& on_shortcut ==> action is Nothing && t.dialog == Dialog::EditGhosttyShortcut
                && t.shortcut_input == shortcut && t.shortcut_return_dialog == Dialog::Closed
            &&& !on_shortcut && !crate::geometry::contains_cell(
                s.list_area,
                mouse.column,
                mouse.row,
            ) ==> action is Nothing && t == (AppState { last_click: None, ..s })
            &&& s.mode == BrowserMode::Directory && s.item_at(mouse.column, mouse.row) == Some(
                place,
            ) && 0 <= place < s.visible().len() ==> {
                &&& t.selected == place
                &&& again ==> action == ActionView::ReplaceDirectory(
                    s.directories[s.visible()[place]].path@,
                )
                &&& !again ==> action is Nothing && t.last_click == Some((place, now as int))
            }
        }),
{
    if s.item_at(mouse.column, mouse.row) is Some {
        let index = s.item_at(mouse.column, mouse.row)->0;
        let here = AppState { selected: index, ..s };
        crate::app::lemma_visible_same(s, here, s.item_count());
    }
}

} // verus!
