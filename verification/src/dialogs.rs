//! The dialogs: their titles, sizes and texts.

use vstd::prelude::*;

use crate::app::{App, AppState, Dialog};
use crate::env::AppEnv;
use crate::lines::{section_line, Line, Span, SpanView, Text, Theme};
use crate::session::display_path;
use crate::text::is_empty_str;

verus! {

/// The title of a dialog.
pub open spec fn title_of(dialog: Dialog) -> Seq<char> {
    match dialog {
        Dialog::Closed => ""@,
        Dialog::SaveWorkspace => "Save Workspace"@,
        Dialog::SaveDirectory => "Save Directory"@,
        Dialog::RenameWorkspace => "Rename Workspace"@,
        Dialog::RenameDirectory => "Rename Directory"@,
        Dialog::ConfirmDeleteWorkspace => "Delete Workspace"@,
        Dialog::ConfirmDeleteDirectory => "Delete Directory"@,
        Dialog::Settings => "Settings"@,
        Dialog::EditGhosttyShortcut => "Edit Ghostty Shortcut"@,
        Dialog::Help => "Help"@,
    }
}

/// The keys of a dialog.
pub open spec fn keys_of(dialog: Dialog) -> Seq<char> {
    match dialog {
        Dialog::Closed => ""@,
        Dialog::SaveWorkspace => "Enter save | Esc cancel"@,
        Dialog::SaveDirectory => "Enter save | Esc cancel"@,
        Dialog::RenameWorkspace => "Enter rename | Esc cancel"@,
        Dialog::RenameDirectory => "Enter rename | Esc cancel"@,
        Dialog::ConfirmDeleteWorkspace => "y confirm | n cancel"@,
        Dialog::ConfirmDeleteDirectory => "y confirm | n cancel"@,
        Dialog::Settings => "c toggle | g ghostty shortcut | Esc close"@,
        Dialog::EditGhosttyShortcut => "Enter save | Esc back"@,
        Dialog::Help => "Esc close | q close"@,
    }
}

/// The size of a dialog, in percent of the screen.
pub open spec fn size_of_dialog(dialog: Dialog) -> (u16, u16) {
    match dialog {
        Dialog::Closed => (0u16, 0u16),
        Dialog::SaveWorkspace => (58u16, 34u16),
        Dialog::SaveDirectory => (58u16, 34u16),
        Dialog::RenameWorkspace => (58u16, 36u16),
        Dialog::RenameDirectory => (58u16, 36u16),
        Dialog::ConfirmDeleteWorkspace => (56u16, 34u16),
        Dialog::ConfirmDeleteDirectory => (56u16, 34u16),
        Dialog::Settings => (68u16, 52u16),
        Dialog::EditGhosttyShortcut => (62u16, 38u16),
        Dialog::Help => (68u16, 58u16),
    }
}

/// The title of a dialog.
pub fn dialog_title(dialog: Dialog) -> (r: &'static str)
    ensures
        r@ == title_of(dialog),
{
    match dialog {
        Dialog::Closed => "",
        Dialog::SaveWorkspace => "Save Workspace",
        Dialog::SaveDirectory => "Save Directory",
        Dialog::RenameWorkspace => "Rename Workspace",
        Dialog::RenameDirectory => "Rename Directory",
        Dialog::ConfirmDeleteWorkspace => "Delete Workspace",
        Dialog::ConfirmDeleteDirectory => "Delete Directory",
        Dialog::Settings => "Settings",
        Dialog::EditGhosttyShortcut => "Edit Ghostty Shortcut",
        Dialog::Help => "Help",
    }
}

/// The keys of a dialog.
pub fn dialog_keys(dialog: Dialog) -> (r: &'static str)
    ensures
        r@ == keys_of(dialog),
{
    match dialog {
        Dialog::Closed => "",
        Dialog::SaveWorkspace => "Enter save | Esc cancel",
        Dialog::SaveDirectory => "Enter save | Esc cancel",
        Dialog::RenameWorkspace => "Enter rename | Esc cancel",
        Dialog::RenameDirectory => "Enter rename | Esc cancel",
        Dialog::ConfirmDeleteWorkspace => "y confirm | n cancel",
        Dialog::ConfirmDeleteDirectory => "y confirm | n cancel",
        Dialog::Settings => "c toggle | g ghostty shortcut | Esc close",
        Dialog::EditGhosttyShortcut => "Enter save | Esc back",
        Dialog::Help => "Esc close | q close",
    }
}

/// The size of a dialog, in percent of the screen.
pub fn dialog_size(dialog: Dialog) -> (r: (u16, u16))
    ensures
        r == size_of_dialog(dialog),
        r.0 <= 100,
        r.1 <= 100,
{
    match dialog {
        Dialog::Closed => (0, 0),
        Dialog::SaveWorkspace => (58, 34),
        Dialog::SaveDirectory => (58, 34),
        Dialog::RenameWorkspace => (58, 36),
        Dialog::RenameDirectory => (58, 36),
        Dialog::ConfirmDeleteWorkspace => (56, 34),
        Dialog::ConfirmDeleteDirectory => (56, 34),
        Dialog::Settings => (68, 52),
        Dialog::EditGhosttyShortcut => (62, 38),
        Dialog::Help => (68, 58),
    }
}

/// What was typed, or dots.
pub open spec fn input_line(input: Seq<char>, theme: Theme) -> Seq<SpanView> {
    seq![
        crate::lines::span(
            if input.len() == 0 {
                "..."@
            } else {
                input
            },
            theme.accent,
        ),
    ]
}

fn typed_line(input: &str, theme: &Theme) -> (r: Line)
    ensures
        r@ == input_line(input@, *theme),
{
    if is_empty_str(input) {
        Line::styled("...", theme.accent)
    } else {
        Line::styled(input, theme.accent)
    }
}

/// A dialog with something above, and an input below.
pub open spec fn input_dialog(
    width: int,
    heading: Seq<char>,
    above: Seq<SpanView>,
    label: Seq<char>,
    input: Seq<char>,
    theme: Theme,
) -> Seq<Seq<SpanView>> {
    seq![
        crate::lines::section(width, heading, theme),
        above,
        Seq::<SpanView>::empty(),
        crate::lines::section(width, label, theme),
        input_line(input, theme),
    ]
}

fn input_dialog_text(
    width: u16,
    heading: &str,
    above: Line,
    label: &str,
    input: &str,
    theme: &Theme,
) -> (r: Text)
    ensures
        r@ == input_dialog(width as int, heading@, above@, label@, input@, *theme),
{
    let mut text = Text::empty();
    text.push(section_line(width, heading, theme));
    let ghost middle = above@;
    text.push(above);
    text.push(Line::empty());
    text.push(section_line(width, label, theme));
    text.push(typed_line(input, theme));
    assert(text@ =~= input_dialog(width as int, heading@, middle, label@, input@, *theme));
    text
}

/// A dialog that asks whether something is to be deleted.
pub open spec fn delete_dialog(
    width: int,
    name: Seq<char>,
    effect: Seq<char>,
    theme: Theme,
) -> Seq<Seq<SpanView>> {
    seq![
        crate::lines::section(width, "Selection"@, theme),
        seq![
            crate::lines::span("Delete "@, theme.error),
            crate::lines::span("\""@ + name + "\""@, theme.emphasis),
            crate::lines::span("?"@, crate::lines::plain()),
        ],
        Seq::<SpanView>::empty(),
        crate::lines::section(width, "Effect"@, theme),
        crate::lines::plain_line(effect),
        crate::lines::plain_line("The action cannot be undone from gtab."@),
    ]
}

fn delete_dialog_text(width: u16, name: &str, effect: &str, theme: &Theme) -> (r: Text)
    ensures
        r@ == delete_dialog(width as int, name@, effect@, *theme),
{
    let mut quoted = "\"".to_string();
    quoted.append(name);
    quoted.append("\"");
    let mut question = Line::styled("Delete ", theme.error);
    question.push(Span::styled(quoted.as_str(), theme.emphasis));
    question.push(Span::raw("?"));
    assert(question@ =~= seq![
        crate::lines::span("Delete "@, theme.error),
        crate::lines::span("\""@ + name@ + "\""@, theme.emphasis),
        crate::lines::span("?"@, crate::lines::plain()),
    ]);
    let mut text = Text::empty();
    text.push(section_line(width, "Selection", theme));
    text.push(question);
    text.push(Line::empty());
    text.push(section_line(width, "Effect", theme));
    text.push(Line::raw(effect));
    text.push(Line::raw("The action cannot be undone from gtab."));
    assert(text@ =~= delete_dialog(width as int, name@, effect@, *theme));
    text
}

/// A setting and its value.
pub open spec fn setting_line(name: Seq<char>, value: Seq<char>, theme: Theme) -> Seq<SpanView> {
    seq![crate::lines::span(name, theme.dim), crate::lines::span(value, theme.warning)]
}

fn setting_text(name: &str, value: &str, theme: &Theme) -> (r: Line)
    ensures
        r@ == setting_line(name@, value@, *theme),
{
    let mut line = Line::styled(name, theme.dim);
    line.push(Span::styled(value, theme.warning));
    assert(line@ =~= setting_line(name@, value@, *theme));
    line
}

/// The settings.
pub open spec fn settings_dialog(
    width: int,
    close_tab: Seq<char>,
    shortcut: Seq<char>,
    theme: Theme,
) -> Seq<Seq<SpanView>> {
    seq![
        crate::lines::section(width, "Workspace"@, theme),
        setting_line("close_tab "@, close_tab, theme),
        Seq::<SpanView>::empty(),
        crate::lines::section(width, "Shortcut"@, theme),
        setting_line("ghostty   "@, shortcut, theme),
        setting_line("mode      "@, "same-shell launch"@, theme),
        setting_line("scope     "@, "Ghostty current shell only"@, theme),
    ]
}

fn settings_dialog_text(width: u16, close_tab: &str, shortcut: &str, theme: &Theme) -> (r: Text)
    ensures
        r@ == settings_dialog(width as int, close_tab@, shortcut@, *theme),
{
    let mut text = Text::empty();
    text.push(section_line(width, "Workspace", theme));
    text.push(setting_text("close_tab ", close_tab, theme));
    text.push(Line::empty());
    text.push(section_line(width, "Shortcut", theme));
    text.push(setting_text("ghostty   ", shortcut, theme));
    text.push(setting_text("mode      ", "same-shell launch", theme));
    text.push(setting_text("scope     ", "Ghostty current shell only", theme));
    assert(text@ =~= settings_dialog(width as int, close_tab@, shortcut@, *theme));
    text
}

/// The shortcut's editor.
pub open spec fn shortcut_dialog(width: int, shown: Seq<char>, theme: Theme) -> Seq<
    Seq<SpanView>,
> {
    seq![
        crate::lines::section(width, "Shortcut"@, theme),
        seq![crate::lines::span(shown, theme.accent)],
        Seq::<SpanView>::empty(),
        crate::lines::section(width, "Input"@, theme),
        crate::lines::plain_line("Press the shortcut directly, or type it manually."@),
        crate::lines::plain_line("This types `gtab` into the focused Ghostty shell."@),
        Seq::<SpanView>::empty(),
        crate::lines::section(width, "Examples"@, theme),
        crate::lines::plain_line("cmd+g"@),
        crate::lines::plain_line("cmd+shift+g"@),
        crate::lines::plain_line("off"@),
    ]
}

fn shortcut_dialog_text(width: u16, shown: &str, theme: &Theme) -> (r: Text)
    ensures
        r@ == shortcut_dialog(width as int, shown@, *theme),
{
    let mut text = Text::empty();
    text.push(section_line(width, "Shortcut", theme));
    text.push(Line::styled(shown, theme.accent));
    text.push(Line::empty());
    text.push(section_line(width, "Input", theme));
    text.push(Line::raw("Press the shortcut directly, or type it manually."));
    text.push(Line::raw("This types `gtab` into the focused Ghostty shell."));
    text.push(Line::empty());
    text.push(section_line(width, "Examples", theme));
    text.push(Line::raw("cmd+g"));
    text.push(Line::raw("cmd+shift+g"));
    text.push(Line::raw("off"));
    assert(text@ =~= shortcut_dialog(width as int, shown@, *theme));
    text
}

/// The help.
pub open spec fn help_dialog(width: int, theme: Theme) -> Seq<Seq<SpanView>> {
    seq![
        crate::lines::section(width, "Move"@, theme),
        crate::lines::plain_line("j / k / arrows  PgUp / PgDn  Home / End / G"@),
        Seq::<SpanView>::empty(),
        crate::lines::section(width, "Search"@, theme),
        crate::lines::plain_line("/ starts filter"@),
        crate::lines::plain_line("Tab / Shift-Tab  Ctrl-n/p  Ctrl-j/k move selection"@),
        crate::lines::plain_line("Enter keep  Esc revert"@),
        Seq::<SpanView>::empty(),
        crate::lines::section(width, "Actions"@, theme),
        crate::lines::plain_line("f toggle workspace/directory spaces"@),
        crate::lines::plain_line(
            "Workspace: Enter launch  a save  n rename  e edit  d remove"@,
        ),
        crate::lines::plain_line(
            "Directory: Enter replace split  a save  n rename  d remove"@,
        ),
        crate::lines::plain_line("Workspace-only: g edit shortcut  t settings"@),
        crate::lines::plain_line("r reload"@),
        crate::lines::plain_line("q quit"@),
        Seq::<SpanView>::empty(),
        crate::lines::section(width, "Layout"@, theme),
        crate::lines::plain_line("Workspace space: left list + tabs + quick settings."@),
        crate::lines::plain_line("Directory space: adaptive multi-column directory grid."@),
        Seq::<SpanView>::empty(),
        crate::lines::section(width, "Mouse"@, theme),
        crate::lines::plain_line("click select  double-click launch/replace"@),
        crate::lines::plain_line("workspace: click shortcut to edit  wheel move"@),
    ]
}

fn help_dialog_text(width: u16, theme: &Theme) -> (r: Text)
    ensures
        r@ == help_dialog(width as int, *theme),
{
    let mut text = Text::empty();
    text.push(section_line(width, "Move", theme));
    text.push(Line::raw("j / k / arrows  PgUp / PgDn  Home / End / G"));
    text.push(Line::empty());
    text.push(section_line(width, "Search", theme));
    text.push(Line::raw("/ starts filter"));
    text.push(Line::raw("Tab / Shift-Tab  Ctrl-n/p  Ctrl-j/k move selection"));
    text.push(Line::raw("Enter keep  Esc revert"));
    text.push(Line::empty());
    text.push(section_line(width, "Actions", theme));
    text.push(Line::raw("f toggle workspace/directory spaces"));
    text.push(Line::raw("Workspace: Enter launch  a save  n rename  e edit  d remove"));
    text.push(Line::raw("Directory: Enter replace split  a save  n rename  d remove"));
    text.push(Line::raw("Workspace-only: g edit shortcut  t settings"));
    text.push(Line::raw("r reload"));
    text.push(Line::raw("q quit"));
    text.push(Line::empty());
    text.push(section_line(width, "Layout", theme));
    text.push(Line::raw("Workspace space: left list + tabs + quick settings."));
    text.push(Line::raw("Directory space: adaptive multi-column directory grid."));
    text.push(Line::empty());
    text.push(section_line(width, "Mouse", theme));
    text.push(Line::raw("click select  double-click launch/replace"));
    text.push(Line::raw("workspace: click shortcut to edit  wheel move"));
    assert(text@ =~= help_dialog(width as int, *theme));
    text
}

/// What the machine says that a dialog shows: the current directory, and the home
/// directory.
#[derive(Clone, Copy, Debug)]
pub struct Places<'a> {
    pub current_dir: Option<&'a str>,
    pub home: Option<&'a str>,
}

/// What a place is.
pub open spec fn place_view(place: Option<&str>) -> Option<Seq<char>> {
    match place {
        Some(path) => Some(path@),
        None => None,
    }
}

/// The text of a dialog.
pub open spec fn dialog_view(
    s: AppState,
    settings: crate::config::Settings,
    current_dir: Option<Seq<char>>,
    home: Option<Seq<char>>,
    width: int,
    theme: Theme,
) -> Seq<Seq<SpanView>> {
    match s.dialog {
        Dialog::Closed => seq![],
        Dialog::SaveWorkspace => input_dialog(
            width,
            "Current Window"@,
            crate::lines::plain_line("Save the frontmost Ghostty window as a workspace."@),
            "Name"@,
            s.save_input,
            theme,
        ),
        Dialog::SaveDirectory => input_dialog(
            width,
            "Current Directory"@,
            crate::lines::plain_line(
                match current_dir {
                    Some(path) => crate::session::shown_path(path, home),
                    None => "(unavailable)"@,
                },
            ),
            "Name"@,
            s.save_input,
            theme,
        ),
        Dialog::RenameWorkspace => input_dialog(
            width,
            "Selection"@,
            seq![
                crate::lines::span(
                    match s.rename_original {
                        Some(name) => name,
                        None => "this workspace"@,
                    },
                    theme.emphasis,
                ),
            ],
            "New Name"@,
            s.rename_input,
            theme,
        ),
        Dialog::RenameDirectory => input_dialog(
            width,
            "Selection"@,
            seq![
                crate::lines::span(
                    match s.rename_original {
                        Some(name) => name,
                        None => "this directory"@,
                    },
                    theme.emphasis,
                ),
            ],
            "New Name"@,
            s.rename_input,
            theme,
        ),
        Dialog::ConfirmDeleteWorkspace => delete_dialog(
            width,
            match s.selected_workspace() {
                Some(w) => w.name@,
                None => "this workspace"@,
            },
            "This removes the saved AppleScript file."@,
            theme,
        ),
        Dialog::ConfirmDeleteDirectory => delete_dialog(
            width,
            match s.selected_directory() {
                Some(d) => d.name@,
                None => "this directory"@,
            },
            "This removes the saved directory entry."@,
            theme,
        ),
        Dialog::Settings => settings_dialog(
            width,
            if settings.close_tab {
                "on"@
            } else {
                "off"@
            },
            settings.shortcut,
            theme,
        ),
        Dialog::EditGhosttyShortcut => shortcut_dialog(
            width,
            if s.shortcut_input.len() == 0 {
                settings.shortcut
            } else {
                s.shortcut_input
            },
            theme,
        ),
        Dialog::Help => help_dialog(width, theme),
    }
}

/// The text of the open dialog.
pub fn dialog_text(app: &App, env: &AppEnv, places: Places, width: u16, theme: &Theme) -> (r: Text)
    ensures
        r@ == dialog_view(
            app@,
            env.config@,
            place_view(places.current_dir),
            place_view(places.home),
            width as int,
            *theme,
        ),
{
    match app.dialog {
        Dialog::Closed => Text::empty(),
        Dialog::SaveWorkspace => input_dialog_text(
            width,
            "Current Window",
            Line::raw("Save the frontmost Ghostty window as a workspace."),
            "Name",
            app.save_input.as_str(),
            theme,
        ),
        Dialog::SaveDirectory => {
            let shown = match places.current_dir {
                Some(path) => display_path(path, places.home),
                None => "(unavailable)".to_string(),
            };
            input_dialog_text(
                width,
                "Current Directory",
                Line::raw(shown.as_str()),
                "Name",
                app.save_input.as_str(),
                theme,
            )
        },
        Dialog::RenameWorkspace => {
            let above = match &app.rename_original {
                Some(name) => Line::styled(name.as_str(), theme.emphasis),
                None => Line::styled("this workspace", theme.emphasis),
            };
            input_dialog_text(
                width,
                "Selection",
                above,
                "New Name",
                app.rename_input.as_str(),
                theme,
            )
        },
        Dialog::RenameDirectory => {
            let above = match &app.rename_original {
                Some(name) => Line::styled(name.as_str(), theme.emphasis),
                None => Line::styled("this directory", theme.emphasis),
            };
            input_dialog_text(
                width,
                "Selection",
                above,
                "New Name",
                app.rename_input.as_str(),
                theme,
            )
        },
        Dialog::ConfirmDeleteWorkspace => match app.selected_workspace() {
            Some(workspace) => delete_dialog_text(
                width,
                workspace.name.as_str(),
                "This removes the saved AppleScript file.",
                theme,
            ),
            None => delete_dialog_text(
                width,
                "this workspace",
                "This removes the saved AppleScript file.",
                theme,
            ),
        },
        Dialog::ConfirmDeleteDirectory => match app.selected_directory() {
            Some(directory) => delete_dialog_text(
                width,
                directory.name.as_str(),
                "This removes the saved directory entry.",
                theme,
            ),
            None => delete_dialog_text(
                width,
                "this directory",
                "This removes the saved directory entry.",
                theme,
            ),
        },
        Dialog::Settings => settings_dialog_text(
            width,
            env.close_tab_display(),
            env.ghostty_shortcut_display(),
            theme,
        ),
        Dialog::EditGhosttyShortcut => {
            if is_empty_str(app.shortcut_input.as_str()) {
                shortcut_dialog_text(width, env.ghostty_shortcut_display(), theme)
            } else {
                shortcut_dialog_text(width, app.shortcut_input.as_str(), theme)
            }
        },
        Dialog::Help => help_dialog_text(width, theme),
    }
}

/// What an open dialog shows is what confirming it asks for: the name that is deleted
/// stands between the quotes, the name that is renamed above the new one, and the text that
/// is saved is the one that was typed.
pub proof fn dialogs_show_what_is_asked_for(
    s: AppState,
    key: crate::key::KeyEvent,
    settings: crate::config::Settings,
    current_dir: Option<Seq<char>>,
    home: Option<Seq<char>>,
    now: u64,
    width: int,
    theme: Theme,
)
    ensures
        ({
            let shown = dialog_view(s, settings, current_dir, home, width, theme);
            match crate::input::any_key(s, key, settings.shortcut, current_dir, now) {
                Some((_, crate::input::ActionView::DeleteWorkspace(name))) => shown[1][1].content
                    == "\""@ + name + "\""@,
                Some((_, crate::input::ActionView::DeleteDirectory(name))) => shown[1][1].content
                    == "\""@ + name + "\""@,
                Some((_, crate::input::ActionView::RenameWorkspace(from, to))) => shown[1][0].content
                    == from && crate::text::trim(shown[4][0].content) == to,
                Some((_, crate::input::ActionView::RenameDirectory(from, to))) => shown[1][0].content
                    == from && crate::text::trim(shown[4][0].content) == to,
                Some((_, crate::input::ActionView::SaveWorkspace(name))) => crate::text::trim(
                    shown[4][0].content,
                ) == name,
                Some((_, crate::input::ActionView::SaveDirectory(name, path))) => crate::text::trim(
                    shown[4][0].content,
                ) == name && shown[1][0].content == crate::session::shown_path(path, home),
                Some((_, crate::input::ActionView::SetGhosttyShortcut(text))) => crate::text::trim(
                    shown[1][0].content,
                ) == text,
                _ => true,
            }
        }),
{
    crate::input::keys_act_on_what_is_seen(s, key, settings.shortcut, current_dir, now);
    assert(crate::text::trim(Seq::<char>::empty()).len() == 0);
    if s.save_input.len() == 0 {
        assert(s.save_input =~= Seq::<char>::empty());
    }
    if s.rename_input.len() == 0 {
        assert(s.rename_input =~= Seq::<char>::empty());
    }
    if s.shortcut_input.len() == 0 {
        assert(s.shortcut_input =~= Seq::<char>::empty());
    }
}

/// The dialog that asks whether something is to be deleted names the selected item.
pub proof fn delete_dialogs_name_the_selection(
    s: AppState,
    settings: crate::config::Settings,
    current_dir: Option<Seq<char>>,
    home: Option<Seq<char>>,
    width: int,
    theme: Theme,
)
    requires
        crate::input::has_selection(s),
    ensures
        ({
            let shown = dialog_view(s, settings, current_dir, home, width, theme);
            let here = s.visible()[s.selected];
            &&& s.dialog == Dialog::ConfirmDeleteWorkspace && s.mode
                == crate::app::BrowserMode::Workspace ==> shown[1][1].content == "\""@
                + s.workspaces[here].name@ + "\""@
            &&& s.dialog == Dialog::ConfirmDeleteDirectory && s.mode
                == crate::app::BrowserMode::Directory ==> shown[1][1].content == "\""@
                + s.directories[here].name@ + "\""@
        }),
{
}

/// The settings' dialog shows the settings.
pub proof fn settings_are_shown(
    s: AppState,
    settings: crate::config::Settings,
    current_dir: Option<Seq<char>>,
    home: Option<Seq<char>>,
    width: int,
    theme: Theme,
)
    ensures
        ({
            let shown = dialog_view(s, settings, current_dir, home, width, theme);
            &&& s.dialog == Dialog::Settings ==> shown[4][1].content == settings.shortcut
                && shown[1][1].content == (if settings.close_tab {
                seq!['o', 'n']
            } else {
                seq!['o', 'f', 'f']
            })
            &&& s.dialog == Dialog::EditGhosttyShortcut && s.shortcut_input.len() > 0
                ==> shown[1][0].content == s.shortcut_input
            &&& s.dialog == Dialog::EditGhosttyShortcut && s.shortcut_input.len() == 0
                ==> shown[1][0].content == settings.shortcut
            &&& s.dialog == Dialog::Closed ==> shown.len() == 0
        }),
{
    reveal_strlit("on");
    reveal_strlit("off");
    assert("on"@ =~= seq!['o', 'n']);
    assert("off"@ =~= seq!['o', 'f', 'f']);
}

/// Each dialog has a title of its own, and fits on the screen.
pub proof fn dialogs_are_told_apart(a: Dialog, b: Dialog)
    requires
        a != b,
    ensures
        title_of(a) != title_of(b),
        size_of_dialog(a).0 <= 100 && size_of_dialog(a).1 <= 100,
        a != Dialog::Closed ==> size_of_dialog(a).0 >= 50 && size_of_dialog(a).1 >= 30,
{
    reveal_strlit("");
    reveal_strlit("Save Workspace");
    reveal_strlit("Save Directory");
    reveal_strlit("Rename Workspace");
    reveal_strlit("Rename Directory");
    reveal_strlit("Delete Workspace");
    reveal_strlit("Delete Directory");
    reveal_strlit("Settings");
    reveal_strlit("Edit Ghostty Shortcut");
    reveal_strlit("Help");
    assert(""@.len() == 0 && "Help"@.len() == 4 && "Settings"@.len() == 8);
    assert("Save Workspace"@.len() == 14 && "Save Directory"@.len() == 14);
    assert("Rename Workspace"@.len() == 16 && "Rename Directory"@.len() == 16);
    assert("Delete Workspace"@.len() == 16 && "Delete Directory"@.len() == 16);
    assert("Edit Ghostty Shortcut"@.len() == 21);
    assert("Save Workspace"@[5] == 'W' && "Save Directory"@[5] == 'D');
    assert("Rename Workspace"@[0] == 'R' && "Delete Workspace"@[0] == 'D');
    assert("Rename Workspace"@[7] == 'W' && "Rename Directory"@[7] == 'D');
    assert("Delete Workspace"@[7] == 'W' && "Delete Directory"@[7] == 'D');
    assert("Rename Directory"@[0] == 'R' && "Delete Directory"@[0] == 'D');
}

} // verus!
