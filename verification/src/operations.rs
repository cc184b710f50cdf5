//! What the operations come to: laws of their calls.
//!
//! Each law speaks of any call that keeps the operation's contract, of what went into it
//! and of what came out of it.

use vstd::prelude::*;

use crate::app::{App, BrowserMode, Dialog, TuiExit};
use crate::applescript::{
    apple_escape, build_ghostty_cd_script, build_ghostty_replace_directory_script,
    render_ghostty_direct_cd_command, render_shell_cd_command,
};
use crate::capture::{
    build_restore_script, parse_captured_tab_surfaces, parse_captured_window_frames,
    read_front_window,
};
use crate::cli::{handle_tui_exit, plan_command, Cli, Commands, ExitPlan, Request};
use crate::config::{build_ghostty_shortcut_include, normalize_ghostty_shortcut, Config};
use crate::dialogs::{dialog_text, Places};
use crate::env::{
    capture_script, editor_command, resolve_base_dir, AppEnv, DirectoryFile, LaunchPlan,
    RenamePlan, WorkspaceFile, WritePlan,
};
use crate::error::Error;
use crate::input::Action;
use crate::key::{KeyCode, KeyEvent, MouseEvent};
use crate::layout::{parse_workspace_layout, WorkspaceTabLayout};
use crate::lines::{Text, Theme};
use crate::restore_script::{CapturedTabSurface, CapturedWindow, CapturedWorkspace};
use crate::session::{Event, Next, Outcome};
use crate::shortcut::{
    ghostty_config_candidates, is_externally_managed, plan_shortcut_sync,
    resolve_ghostty_config_path, shortcut_sync_result, ConfigCandidates,
    GhosttyShortcutApplyResult, GhosttyShortcutApplyStatus, GhosttyShortcutSync, ShortcutFiles,
    ShortcutPlan, WriteOutcome,
};
use crate::window::{
    build_reposition_script, discover_new_window, parse_window_frame, parse_window_ids, Discovery,
    WindowFrame,
};
use crate::workspace::{build_workspace_script, parse_workspace_rows, TabRow};

verus! {

// Captures.
/// Reading the capture of a window gives back every pane that was written into it, each once
/// and in order; also panes of one tab that start in the same directory.
pub proof fn captured_panes_are_read(
    rows: Seq<crate::restore_script::Surface>,
    raw: &str,
    window: usize,
    r: Vec<CapturedTabSurface>,
)
    requires
        call_ensures(parse_captured_tab_surfaces, (raw, window), r),
        forall|i: int|
            0 <= i < rows.len() ==> crate::capture::writable(#[trigger] rows[i])
                && rows[i].window_index == window,
        raw@ == crate::text::join(crate::capture::front_lines(rows), "\n"@) || rows.len() > 0
            && raw@ == crate::text::join(crate::capture::front_lines(rows), "\n"@) + "\n"@,
    ensures
        r@.len() == rows.len(),
        forall|i: int|
            0 <= i < rows.len() ==> {
                &&& (#[trigger] r@[i]).window_index == rows[i].window_index
                &&& r@[i].tab_index == rows[i].tab_index
                &&& r@[i].pane_index == rows[i].pane_index
                &&& r@[i].terminal_id@ == rows[i].terminal_id
                &&& r@[i].working_dir@ == rows[i].working_dir
                &&& r@[i].title@ == rows[i].title
                &&& r@[i].rect == rows[i].rect
            },
{
    crate::capture::front_rows_read_back(rows, window);
    let views = crate::restore_script::surface_views(r@);
    assert(views == rows);
    assert(views.len() == r@.len());
    assert forall|i: int| 0 <= i < rows.len() implies {
        &&& (#[trigger] r@[i]).window_index == rows[i].window_index
        &&& r@[i].tab_index == rows[i].tab_index
        &&& r@[i].pane_index == rows[i].pane_index
        &&& r@[i].terminal_id@ == rows[i].terminal_id
        &&& r@[i].working_dir@ == rows[i].working_dir
        &&& r@[i].title@ == rows[i].title
        &&& r@[i].rect == rows[i].rect
    } by {
        assert(views[i] == r@[i]@);
    }
}

/// Reading the frames of windows gives back each frame that was written.
pub proof fn captured_frames_are_read(
    windows: Seq<CapturedWindow>,
    raw: &str,
    r: Vec<CapturedWindow>,
)
    requires
        call_ensures(parse_captured_window_frames, (raw,), r),
        raw@ == crate::text::join(crate::capture::window_texts(windows), "\n"@),
    ensures
        r@ == windows,
{
    crate::capture::window_frames_read_back(windows);
}

/// What is captured of the front window and written as a script is read from the script
/// again: the same tabs in order, and in each the splits that its panes' positions call for,
/// with their directories.
pub proof fn saved_windows_are_shown_as_captured(
    raw: &str,
    captured: Result<CapturedWorkspace, Error>,
    workspace: &CapturedWorkspace,
    script: String,
    text: &str,
    home: &str,
    r: Vec<WorkspaceTabLayout>,
)
    requires
        call_ensures(read_front_window, (raw,), captured),
        captured == Ok::<CapturedWorkspace, Error>(*workspace),
        call_ensures(build_restore_script, (workspace,), script),
        text@ == script@,
        call_ensures(parse_workspace_layout, (text, home), r),
        ({
            let surfaces = crate::capture::captured_surfaces(crate::text::lines(raw@), 1);
            &&& surfaces.len() <= usize::MAX
            &&& forall|i: int|
                0 <= i < surfaces.len() ==> crate::readback::readable_dir(
                    (#[trigger] surfaces[i]).working_dir,
                ) && !crate::text::has_char(surfaces[i].title, '\n')
        }),
    ensures
        ({
            let surfaces = crate::capture::kept_surfaces(
                crate::capture::captured_surfaces(crate::text::lines(raw@), 1),
            );
            crate::layout::layout_views(r@) == crate::readback::captured_plans(surfaces).map(
                |i: int, plan: crate::restore_script::TabPlan|
                    crate::readback::shown_tab(plan, i, home@),
            )
        }),
{
    reveal_strlit("");
    let plain = crate::capture::captured_surfaces(crate::text::lines(raw@), 1);
    let surfaces = crate::capture::kept_surfaces(plain);
    assert forall|i: int| 0 <= i < plain.len() implies (#[trigger] plain[i]).window_index == 1 by {
        lemma_one_window(crate::text::lines(raw@), 1, i);
    }
    assert forall|i: int| 0 <= i < surfaces.len() implies !crate::text::has_char(
        (#[trigger] surfaces[i]).working_dir,
        '\n',
    ) && !crate::text::has_char(surfaces[i].title, '\n') && crate::readback::readable_dir(
        surfaces[i].working_dir,
    ) && surfaces[i].window_index == 1 by {
        assert(surfaces[i].working_dir == plain[i].working_dir);
        assert(crate::readback::readable_dir(plain[i].working_dir));
        assert(plain[i].window_index == 1);
    }
    crate::restore_script::windows_in_order(surfaces);
    let indexes = crate::restore_script::windows_of(surfaces);
    assert(indexes.len() <= 1) by {
        if indexes.len() > 1 {
            assert(indexes.contains(indexes[0]) && indexes.contains(indexes[1]));
            assert(indexes[0] < indexes[1]);
        }
    }
    crate::readback::layout_reads_back(workspace.windows@, surfaces, home@);
}

/// All panes of a window's capture belong to that window.
proof fn lemma_one_window(lines: Seq<Seq<char>>, window: usize, i: int)
    requires
        0 <= i < crate::capture::captured_surfaces(lines, window).len(),
    ensures
        crate::capture::captured_surfaces(lines, window)[i].window_index == window,
    decreases lines.len(),
{
    if lines.len() > 0 {
        let front = lines.drop_last();
        if i < crate::capture::captured_surfaces(front, window).len() {
            lemma_one_window(front, window, i);
        }
    }
}

// Scripts for a terminal.
/// The script that replaces a terminal opens one that was started in the directory, and
/// then closes the old one.
pub proof fn replacing_starts_in_the_directory(path: &str, r: String)
    requires
        call_ensures(build_ghostty_replace_directory_script, (path,), r),
        !crate::text::has_char(path@, '\n'),
    ensures
        ({
            let desk = crate::applescript::do_lines(
                crate::applescript::fresh_desk(),
                crate::text::lines(r@),
            );
            &&& desk.second == Some(Some(path@))
            &&& !desk.first_open
            &&& desk.second_focused
            &&& desk.entered.len() == 0
        }),
{
    crate::applescript::replacing_opens_the_directory(path@);
}

/// The script that moves a terminal to a directory types one command and runs it: a space,
/// `cd --`, and a word that the shell reads as the directory.
pub proof fn opening_changes_to_the_directory(
    path: &str,
    command: String,
    text: &str,
    r: String,
)
    requires
        call_ensures(render_ghostty_direct_cd_command, (path,), command),
        text@ == command@,
        call_ensures(build_ghostty_cd_script, (text,), r),
        !crate::text::has_char(path@, '\n'),
    ensures
        ({
            let desk = crate::applescript::do_lines(
                crate::applescript::fresh_desk(),
                crate::text::lines(r@),
            );
            &&& desk.entered.len() == 1
            &&& desk.entered[0].take(7) == seq![' ', 'c', 'd', ' ', '-', '-', ' ']
            &&& crate::applescript::shell_word(desk.entered[0].skip(7)) == Some(path@)
            &&& desk.first_open
            &&& desk.second is None
        }),
{
    reveal_strlit(" ");
    reveal_strlit("cd -- '");
    reveal_strlit("'");
    reveal_strlit("'\"'\"'");
    let cd = crate::applescript::cd_command(path@);
    crate::applescript::cd_gets_the_path(path@);
    assert(command@.take(7) =~= seq![' '] + cd.take(6));
    assert(command@.skip(7) =~= cd.skip(6));
    assert(seq![' '] + seq!['c', 'd', ' ', '-', '-', ' '] =~= seq![
        ' ',
        'c',
        'd',
        ' ',
        '-',
        '-',
        ' ',
    ]);
    lemma_quoted_keeps_lines(path@);
    assert(!crate::text::has_char(" "@, '\n'));
    assert(!crate::text::has_char("cd -- '"@, '\n'));
    assert(!crate::text::has_char("'"@, '\n'));
    let q = crate::applescript::shell_quoted(path@);
    crate::text::lemma_concat_absent("cd -- '"@, q, '\n');
    crate::text::lemma_concat_absent("cd -- '"@ + q, "'"@, '\n');
    crate::text::lemma_concat_absent(" "@, cd, '\n');
    crate::applescript::commands_are_typed_and_run(command@);
}

/// Quoting for a shell keeps a text on one line.
proof fn lemma_quoted_keeps_lines(s: Seq<char>)
    requires
        !crate::text::has_char(s, '\n'),
    ensures
        !crate::text::has_char(crate::applescript::shell_quoted(s), '\n'),
    decreases s.len(),
{
    reveal_strlit("'\"'\"'");
    let with = "'\"'\"'"@;
    assert(!crate::text::has_char(with, '\n'));
    if s.len() > 0 {
        let f = s.drop_last();
        assert(!crate::text::has_char(f, '\n')) by {
            if crate::text::has_char(f, '\n') {
                let i = choose|i: int| 0 <= i < f.len() && f[i] == '\n';
                assert(s[i] == '\n');
            }
        }
        lemma_quoted_keeps_lines(f);
        let tail = if s.last() == '\'' {
            with
        } else {
            seq![s.last()]
        };
        assert(s[s.len() - 1] != '\n');
        assert(!crate::text::has_char(tail, '\n'));
        crate::text::lemma_concat_absent(crate::applescript::shell_quoted(f), tail, '\n');
    }
}

/// The command that is printed for a shell changes to the directory, whatever characters
/// its path holds.
pub proof fn printed_commands_change_to_the_directory(path: &str, r: String)
    requires
        call_ensures(render_shell_cd_command, (path,), r),
    ensures
        r@.take(6) == seq!['c', 'd', ' ', '-', '-', ' '],
        crate::applescript::shell_word(r@.skip(6)) == Some(path@),
{
    crate::applescript::cd_gets_the_path(path@);
}

/// A text that is escaped for a script is read from it again.
pub proof fn escaped_texts_are_read(value: &str, r: String, rest: Seq<char>)
    requires
        call_ensures(apple_escape, (value,), r),
    ensures
        crate::applescript::literal_prefix(seq!['"'] + r@ + seq!['"'] + rest) == Some(
            (value@, rest),
        ),
{
    crate::applescript::escaped_reads_back(value@, rest);
    let all = seq!['"'] + r@ + seq!['"'] + rest;
    assert(all[0] == '"');
    assert(all.skip(1) =~= r@ + seq!['"'] + rest);
}

// The browser.
/// A text stands in another, at some position.
pub open spec fn stands_in(text: Seq<char>, whole: Seq<char>) -> bool {
    exists|at: int|
        0 <= at && at + text.len() <= whole.len() && #[trigger] whole.subrange(
            at,
            at + text.len(),
        ) == text
}

/// A workspace is among the listed ones exactly if no filter is set, or its name holds the
/// filter at some position, case aside; and so it is with directories. The listed ones come
/// in the order of all.
pub proof fn filtering_lists_names_with_the_filter(app: &App, r: Vec<usize>, i: usize)
    requires
        call_ensures(App::visible_indices, (app,), r),
    ensures
        ({
            let all = if app.mode == BrowserMode::Workspace {
                app.workspaces@.len()
            } else {
                app.directories@.len()
            };
            let name = crate::text::lowercase(
                if app.mode == BrowserMode::Workspace {
                    app.workspaces@[i as int].name@
                } else {
                    app.directories@[i as int].name@
                },
            );
            r@.contains(i) <==> i < all && (app.filter@.len() == 0 || stands_in(
                crate::text::lowercase(app.filter@),
                name,
            ))
        }),
        forall|j: int, k: int| 0 <= j < k < r@.len() ==> r@[j] < r@[k],
{
    let s = app@;
    crate::app::filter_lists_what_holds_it(s, i as int);
    crate::app::visible_lists_matches(s);
    let shown = s.visible();
    assert(crate::app::ints(r@) == shown);
    assert(shown.len() == r@.len());
    if r@.contains(i) {
        let k = choose|k: int| 0 <= k < r@.len() && r@[k] == i;
        assert(crate::app::ints(r@)[k] == i);
        assert(shown.contains(i as int));
    }
    if shown.contains(i as int) {
        let k = choose|k: int| 0 <= k < shown.len() && shown[k] == i;
        assert(crate::app::ints(r@)[k] == r@[k]);
        assert(r@[k] == i);
    }
    assert(r@.contains(i) == shown.contains(i as int));
    let name = crate::text::lowercase(
        if app.mode == BrowserMode::Workspace {
            app.workspaces@[i as int].name@
        } else {
            app.directories@[i as int].name@
        },
    );
    assert(name == crate::text::lowercase(crate::app::item_name(s, i as int)));
    let filter = crate::text::lowercase(app.filter@);
    assert(stands_in(filter, name) <==> exists|at: int|
        0 <= at && at + crate::text::lowercase(s.filter).len() <= crate::text::lowercase(
            crate::app::item_name(s, i as int),
        ).len() && #[trigger] crate::text::lowercase(crate::app::item_name(s, i as int)).subrange(
            at,
            at + crate::text::lowercase(s.filter).len(),
        ) == crate::text::lowercase(s.filter));
    assert forall|j: int, k: int| 0 <= j < k < r@.len() implies r@[j] < r@[k] by {
        assert(crate::app::ints(r@)[j] == r@[j] && crate::app::ints(r@)[k] == r@[k]);
        assert(shown[j] < shown[k]);
    }
}

/// The marked item of the list.
pub open spec fn marked(app: App) -> int {
    app@.visible()[app.selected as int]
}

/// An item of the list is marked.
pub open spec fn marks(app: App) -> bool {
    app.selected < app@.visible().len()
}

/// Confirming a dialog, or a key in the list, acts on the marked item: it is deleted,
/// edited, launched or put in the place of the split; and a rename is of the item whose name
/// was taken up when it began.
pub proof fn keys_act_on_the_marked_item(
    app: &mut App,
    key: KeyEvent,
    env: &AppEnv,
    current_dir: Option<&str>,
    now: u64,
    r: Result<Action, Error>,
)
    requires
        call_ensures(App::handle_key, (app, key, env, current_dir, now), r),
    ensures
        match r {
            Ok(Action::DeleteWorkspace(name)) => marks(*old(app)) && name@
                == old(app).workspaces@[marked(*old(app))].name@ && old(app).dialog
                == Dialog::ConfirmDeleteWorkspace,
            Ok(Action::DeleteDirectory(name)) => marks(*old(app)) && name@
                == old(app).directories@[marked(*old(app))].name@ && old(app).dialog
                == Dialog::ConfirmDeleteDirectory,
            Ok(Action::EditWorkspace(name)) => marks(*old(app)) && name@
                == old(app).workspaces@[marked(*old(app))].name@,
            Ok(Action::LaunchWorkspace(name)) => marks(*old(app)) && name@
                == old(app).workspaces@[marked(*old(app))].name@,
            Ok(Action::ReplaceDirectory(path)) => marks(*old(app)) && path@
                == old(app).directories@[marked(*old(app))].path@,
            Ok(Action::RenameWorkspace(from, to)) => old(app)@.rename_original == Some(from@)
                && to@ == crate::text::trim(old(app).rename_input@),
            Ok(Action::RenameDirectory(from, to)) => old(app)@.rename_original == Some(from@)
                && to@ == crate::text::trim(old(app).rename_input@),
            Ok(Action::SaveWorkspace(name)) => name@ == crate::text::trim(old(app).save_input@),
            Ok(Action::SaveDirectory(name, path)) => name@ == crate::text::trim(
                old(app).save_input@,
            ) && current_dir is Some && path@ == current_dir->0@,
            Ok(Action::SetGhosttyShortcut(text)) => text@ == crate::text::trim(
                old(app).shortcut_input@,
            ),
            _ => true,
        },
{
    let dir = match current_dir {
        Some(path) => Some(path@),
        None => None,
    };
    crate::input::keys_act_on_what_is_seen(
        old(app)@,
        key,
        env.config.ghostty_shortcut@,
        dir,
        now,
    );
}

/// Confirming that the marked item is to be deleted asks for just that; beginning a rename
/// takes up its name.
pub proof fn marked_items_are_deleted_and_renamed(
    app: &mut App,
    key: KeyEvent,
    env: &AppEnv,
    current_dir: Option<&str>,
    now: u64,
    r: Result<Action, Error>,
)
    requires
        call_ensures(App::handle_key, (app, key, env, current_dir, now), r),
        !key.modifiers.control,
        marks(*old(app)),
    ensures
        old(app).dialog == Dialog::ConfirmDeleteWorkspace && old(app).mode
            == BrowserMode::Workspace && (key.code == KeyCode::Enter || key.code == KeyCode::Char(
            'y',
        )) ==> match r {
            Ok(Action::DeleteWorkspace(name)) => name@ == old(app).workspaces@[marked(
                *old(app),
            )].name@,
            _ => false,
        },
        old(app).dialog == Dialog::ConfirmDeleteDirectory && old(app).mode
            == BrowserMode::Directory && (key.code == KeyCode::Enter || key.code == KeyCode::Char(
            'y',
        )) ==> match r {
            Ok(Action::DeleteDirectory(name)) => name@ == old(app).directories@[marked(
                *old(app),
            )].name@,
            _ => false,
        },
        old(app).dialog == Dialog::Closed && old(app).search_before_edit is None && old(app).mode
            == BrowserMode::Workspace && key.code == KeyCode::Char('e') ==> match r {
            Ok(Action::EditWorkspace(name)) => name@ == old(app).workspaces@[marked(
                *old(app),
            )].name@,
            _ => false,
        },
        old(app).dialog == Dialog::Closed && old(app).search_before_edit is None && old(app).mode
            == BrowserMode::Workspace && key.code == KeyCode::Char('n') ==> {
            &&& r == Ok::<Action, Error>(Action::Nothing)
            &&& final(app)@.dialog == Dialog::RenameWorkspace
            &&& final(app)@.rename_original == Some(
                old(app).workspaces@[marked(*old(app))].name@,
            )
            &&& final(app)@.rename_input == old(app).workspaces@[marked(*old(app))].name@
        },
        old(app).dialog == Dialog::Closed && old(app).search_before_edit is None && old(app).mode
            == BrowserMode::Directory && key.code == KeyCode::Char('n') ==> {
            &&& r == Ok::<Action, Error>(Action::Nothing)
            &&& final(app)@.dialog == Dialog::RenameDirectory
            &&& final(app)@.rename_original == Some(
                old(app).directories@[marked(*old(app))].name@,
            )
            &&& final(app)@.rename_input == old(app).directories@[marked(*old(app))].name@
        },
{
    let dir = match current_dir {
        Some(path) => Some(path@),
        None => None,
    };
    let s = old(app)@;
    crate::input::keys_are_answered(s, key, env.config.ghostty_shortcut@, dir, now);
    if s.dialog == Dialog::Closed && s.search_before_edit is None {
        crate::input::dialogs_open_on_the_selection(
            s,
            key,
            env.config.ghostty_shortcut@,
            dir,
            now,
        );
    }
}

/// A key that is pressed, and what the mouse does, changes no workspace and no directory,
/// and what is asked for next is what the key asks for.
pub proof fn events_change_no_item(
    app: &mut App,
    event: Event,
    env: &AppEnv,
    current_dir: Option<&str>,
    now: u64,
    r: Result<Next, Error>,
)
    requires
        call_ensures(App::take_event, (app, event, env, current_dir, now), r),
    ensures
        final(app)@.workspaces == old(app)@.workspaces,
        final(app)@.directories == old(app)@.directories,
        event == Event::Other ==> final(app)@ == old(app)@,
        match (event, r) {
            (Event::Press(_), Ok(Next::Perform(Action::DeleteWorkspace(name)))) => marks(*old(app))
                && name@ == old(app).workspaces@[marked(*old(app))].name@,
            (Event::Press(_), Ok(Next::Perform(Action::DeleteDirectory(name)))) => marks(*old(app))
                && name@ == old(app).directories@[marked(*old(app))].name@,
            (Event::Mouse(_), Ok(Next::Perform(action))) => action is LaunchWorkspace
                || action is ReplaceDirectory,
            (Event::Mouse(_), Ok(next)) => !(next is Exit),
            (Event::Mouse(_), Err(_)) => false,
            (Event::Other, _) => r == Ok::<Next, Error>(Next::Wait),
            _ => true,
        },
{
    let dir = crate::dialogs::place_view(current_dir);
    let s = old(app)@;
    let shortcut = env.config.ghostty_shortcut@;
    match event {
        Event::Press(key) => {
            crate::input::keys_act_on_what_is_seen(s, key, shortcut, dir, now);
            crate::input::keys_and_clicks_change_no_item(
                s,
                key,
                MouseEvent { kind: crate::key::MouseEventKind::Other, column: 0, row: 0 },
                shortcut,
                dir,
                now,
            );
        },
        Event::Mouse(mouse) => {
            crate::input::mouse_only_opens(s, mouse, shortcut, now);
            crate::input::keys_and_clicks_change_no_item(
                s,
                KeyEvent { code: KeyCode::Esc, modifiers: arbitrary() },
                mouse,
                shortcut,
                dir,
                now,
            );
        },
        Event::Other => {},
    }
}

// Settings and the shortcut.
/// Settings that are written and read again are the same.
pub proof fn settings_are_read_as_written(
    config: &Config,
    text: String,
    raw: &str,
    r: Result<Config, Error>,
)
    requires
        call_ensures(Config::serialize, (config,), text),
        raw@ == text@,
        call_ensures(Config::parse, (Some(raw),), r),
        crate::config::settled_shortcut(config.ghostty_shortcut@),
    ensures
        match r {
            Ok(read) => read.close_tab == config.close_tab && read.ghostty_shortcut@
                == config.ghostty_shortcut@,
            Err(_) => false,
        },
{
    crate::config::settings_read_back(config@);
}

/// The shortcut's file binds the shortcut that it is built for, and nothing else.
pub proof fn shortcut_files_bind_the_shortcut(shortcut: &str, r: String)
    requires
        call_ensures(build_ghostty_shortcut_include, (shortcut,), r),
        !crate::text::has_char(shortcut@, '='),
        !crate::text::has_char(shortcut@, '\n'),
    ensures
        ({
            let s = crate::text::trim(shortcut@);
            let bound = crate::config::bindings_of(crate::text::lines(r@));
            if s == "off"@ || s == "none"@ || s == "disabled"@ {
                bound.len() == 0
            } else {
                bound == seq![(s, "text:gtab\\x0d"@)]
            }
        }),
{
    crate::config::file_binds_the_shortcut(shortcut@);
}

/// Other shortcuts have other files.
pub proof fn other_shortcuts_have_other_files(a: &str, b: &str, fa: String, fb: String)
    requires
        call_ensures(build_ghostty_shortcut_include, (a,), fa),
        call_ensures(build_ghostty_shortcut_include, (b,), fb),
        !crate::text::has_char(a@, '='),
        !crate::text::has_char(a@, '\n'),
        !crate::text::has_char(b@, '='),
        !crate::text::has_char(b@, '\n'),
        !crate::config::shortcut_disabled(a@),
        !crate::config::shortcut_disabled(b@),
        fa@ == fb@,
    ensures
        crate::text::trim(a@) == crate::text::trim(b@),
{
    crate::config::file_binds_the_shortcut(a@);
    crate::config::file_binds_the_shortcut(b@);
    let x = crate::config::bindings_of(crate::text::lines(fa@));
    let y = crate::config::bindings_of(crate::text::lines(fb@));
    assert(x[0].0 == crate::text::trim(a@));
    assert(y[0].0 == crate::text::trim(b@));
}

/// A shortcut that is accepted is kept in lower case, and accepted as it is from then on; a
/// blank one is refused.
pub proof fn accepted_shortcuts_are_settled(shortcut: &str, r: Result<String, Error>)
    requires
        call_ensures(normalize_ghostty_shortcut, (shortcut,), r),
        crate::text::all_ascii(crate::text::trim(shortcut@)),
    ensures
        ({
            let s = crate::text::trim(shortcut@).map_values(
                |c: char| crate::text::ascii_lower(c),
            );
            match r {
                Ok(kept) => kept@.len() > 0 && (kept@ == s || kept@ == "off"@ && (s == "off"@ || s
                    == "none"@ || s == "disabled"@)) && !kept@.contains('=')
                    && !kept@.contains('\n') && !kept@.contains('\r'),
                Err(e) => s.len() == 0 || s.contains('=') || s.contains('\n') || s.contains('\r'),
            }
        }),
{
    reveal_strlit("off");
    let t = crate::text::trim(shortcut@);
    let s = t.map_values(|c: char| crate::text::ascii_lower(c));
    assert(s =~= crate::config::ascii_lowered(t));
    crate::text::lemma_trim(shortcut@);
    if t.len() > 0 {
        assert(s[0] == crate::text::ascii_lower(t[0]));
        assert(s.last() == crate::text::ascii_lower(t.last()));
        assert((t[0] as u32) < 128 && (t[t.len() - 1] as u32) < 128);
    }
    crate::text::lemma_trimmed(s);
    assert forall|c: char| #[trigger] s.contains(c) == crate::text::has_char(s, c) by {
        if s.contains(c) {
            let i = choose|i: int| 0 <= i < s.len() && s[i] == c;
            assert(s[i] == c);
        }
        if crate::text::has_char(s, c) {
            let i = choose|i: int| 0 <= i < s.len() && s[i] == c;
            assert(s[i] == c);
        }
    }
    assert(!"off"@.contains('=') && !"off"@.contains('\n') && !"off"@.contains('\r'));
    match r {
        Ok(kept) => {
            assert(crate::config::kept_shortcut(s) == Ok::<Seq<char>, Error>(kept@));
        },
        Err(e) => {
            assert(crate::config::kept_shortcut(s) == Err::<Seq<char>, Error>(e));
        },
    }
}

// Files.
/// What is saved under a name is what is edited, launched, renamed and removed under it: the
/// file is the same, below the base and named after the workspace.
pub proof fn requests_speak_of_one_file(
    env: &AppEnv,
    name: &str,
    raw: &str,
    saved: Result<WritePlan, Error>,
    edited: Result<(String, String), Error>,
    launched: Result<LaunchPlan, Error>,
    removed: Result<String, Error>,
)
    requires
        call_ensures(AppEnv::save_current_window, (env, name, raw), saved),
        call_ensures(AppEnv::open_in_editor, (env, name, None::<&str>), edited),
        call_ensures(AppEnv::launch_workspace, (env, name, true), launched),
        call_ensures(AppEnv::remove_workspace, (env, name, true), removed),
        env.base_dir@.len() > 0,
        env.base_dir@.last() != '/',
    ensures
        ({
            let file = env.base_dir@ + seq!['/'] + name@ + ".applescript"@;
            &&& saved matches Ok(plan) ==> plan.path@ == file
            &&& edited matches Ok((_, path)) ==> path@ == file
            &&& launched matches Ok(plan) ==> plan.path@ == file && plan.close_tab
                == env.config.close_tab
            &&& removed matches Ok(path) ==> path@ == file
            &&& removed is Ok <==> crate::env::valid_name(name@)
            &&& launched is Ok <==> crate::env::valid_name(name@)
            &&& edited is Ok <==> crate::env::valid_name(name@)
            &&& saved is Ok ==> crate::env::valid_name(name@)
        }),
{
    reveal_strlit("/");
    let file = env.base_dir@ + seq!['/'] + name@ + ".applescript"@;
    assert(crate::env::workspace_file(env.base_dir@, name@) =~= file);
}

/// A window is saved if its capture holds a pane, under a valid name; no pane of the capture
/// is left out of the script.
pub proof fn windows_are_saved_whole(
    env: &AppEnv,
    name: &str,
    raw: &str,
    rows: Seq<crate::restore_script::Surface>,
    r: Result<WritePlan, Error>,
)
    requires
        call_ensures(AppEnv::save_current_window, (env, name, raw), r),
        crate::env::valid_name(name@),
        rows.len() > 0,
        forall|i: int|
            0 <= i < rows.len() ==> crate::capture::writable(#[trigger] rows[i])
                && rows[i].window_index == 1,
        raw@ == crate::text::join(crate::capture::front_lines(rows), "\n"@),
    ensures
        match r {
            Ok(plan) => plan.text@ == crate::restore_script::restore_script(
                seq![crate::env::single_window_frame()],
                crate::capture::kept_surfaces(rows),
            ),
            Err(_) => false,
        },
{
    crate::capture::front_rows_read_back(rows, 1);
    if crate::text::trim(raw@).len() == 0 {
        lemma_blank_has_no_rows(raw@, 1);
    }
}

/// A blank text holds no pane.
proof fn lemma_blank_has_no_rows(raw: Seq<char>, window: usize)
    requires
        crate::text::trim(raw).len() == 0,
    ensures
        crate::capture::captured_surfaces(crate::text::lines(raw), window).len() == 0,
    decreases raw.len(),
{
    lemma_blank(raw);
    let lines = crate::text::lines(raw);
    lemma_blank_lines(raw);
    lemma_no_rows(lines, window);
}

/// A blank text is made of white space.
proof fn lemma_blank(raw: Seq<char>)
    requires
        crate::text::trim(raw).len() == 0,
    ensures
        forall|i: int| 0 <= i < raw.len() ==> crate::text::white_space(#[trigger] raw[i]),
{
    crate::text::lemma_trim_start(raw);
    let s = crate::text::trim_start(raw);
    crate::text::lemma_trim_end(s);
    let k = raw.len() - s.len();
    assert forall|i: int| 0 <= i < raw.len() implies crate::text::white_space(#[trigger] raw[i]) by {
        if i >= k {
            assert(s[i - k] == raw[i]);
        }
    }
}

/// The lines of a text of white space are of white space.
proof fn lemma_blank_lines(raw: Seq<char>)
    requires
        forall|i: int| 0 <= i < raw.len() ==> crate::text::white_space(#[trigger] raw[i]),
    ensures
        forall|k: int, i: int|
            0 <= k < crate::text::lines(raw).len() && 0 <= i < crate::text::lines(raw)[k].len()
                ==> crate::text::white_space(#[trigger] crate::text::lines(raw)[k][i]),
    decreases raw.len(),
{
    let lines = crate::text::lines(raw);
    if raw.len() > 0 {
        crate::text::lemma_first_index(raw, '\n');
        let at = crate::text::first_index(raw, '\n');
        if at < raw.len() {
            let rest = raw.skip(at + 1);
            assert forall|i: int| 0 <= i < rest.len() implies crate::text::white_space(
                #[trigger] rest[i],
            ) by {
                assert(rest[i] == raw[at + 1 + i]);
            }
            lemma_blank_lines(rest);
            assert forall|k: int, i: int|
                0 <= k < lines.len() && 0 <= i < lines[k].len() implies crate::text::white_space(
                #[trigger] lines[k][i],
            ) by {
                if k == 0 {
                    assert(lines[0][i] == raw[i]);
                } else {
                    assert(lines[k] == crate::text::lines(rest)[k - 1]);
                    assert(crate::text::white_space(crate::text::lines(rest)[k - 1][i]));
                }
            }
        }
    }
}

/// Lines of white space stand for no pane.
proof fn lemma_no_rows(lines: Seq<Seq<char>>, window: usize)
    requires
        forall|k: int, i: int|
            0 <= k < lines.len() && 0 <= i < lines[k].len() ==> crate::text::white_space(
                #[trigger] lines[k][i],
            ),
    ensures
        crate::capture::captured_surfaces(lines, window).len() == 0,
    decreases lines.len(),
{
    if lines.len() > 0 {
        let front = lines.drop_last();
        assert forall|k: int, i: int|
            0 <= k < front.len() && 0 <= i < front[k].len() implies crate::text::white_space(
            #[trigger] front[k][i],
        ) by {
            assert(lines[k][i] == front[k][i]);
        }
        lemma_no_rows(front, window);
        let line = lines.last();
        let parts = crate::text::split(line, '\t');
        crate::text::lemma_first_index(line, '\t');
        let first = parts[0];
        let at = crate::text::first_index(line, '\t');
        assert(first =~= line.take(at));
        crate::text::lemma_trim_start(first);
        let t = crate::text::trim_start(first);
        assert(t.len() == 0) by {
            if t.len() > 0 {
                let j = first.len() - t.len();
                assert(t[0] == first[j]);
                assert(first[j] == lines[lines.len() - 1][j]);
            }
        }
        assert(crate::text::trim(first) =~= Seq::<char>::empty());
    }
}

/// A directory that is saved is listed under its name, with its path; a name that is taken
/// is refused, and nothing is written over.
pub proof fn saved_directories_are_found_again(
    env: &AppEnv,
    name: &str,
    path: &str,
    saved: Result<WritePlan, Error>,
    file: DirectoryFile,
    again: Result<WritePlan, Error>,
)
    requires
        call_ensures(AppEnv::save_directory, (env, name, path, false), saved),
        call_ensures(AppEnv::save_directory, (env, name, path, true), again),
        crate::env::valid_name(name@),
        path@.len() > 0,
        path@.last() != '\n',
        path@.last() != '\r',
        file.file_name@ == name@ + ".path"@,
        saved matches Ok(plan) ==> file.content@ == plan.text@,
    ensures
        saved is Ok,
        crate::env::directory_in(file) == Some((name@, path@)),
        again is Err,
{
    crate::env::saved_directories_are_listed(file, name@, path@);
}

/// Renaming a directory moves its file, and renaming it back moves it back; a rename that
/// would write over another is refused.
pub proof fn directory_renames_can_be_undone(
    env: &AppEnv,
    old_name: &str,
    new_name: &str,
    there: Result<RenamePlan, Error>,
    back: Result<RenamePlan, Error>,
    taken: Result<RenamePlan, Error>,
)
    requires
        call_ensures(AppEnv::rename_directory, (env, old_name, new_name, true, false), there),
        call_ensures(AppEnv::rename_directory, (env, new_name, old_name, true, false), back),
        call_ensures(AppEnv::rename_directory, (env, old_name, new_name, true, true), taken),
        crate::env::valid_name(old_name@),
        crate::env::valid_name(new_name@),
        old_name@ != new_name@,
    ensures
        match (there, back) {
            (
                Ok(RenamePlan::Move { from, to }),
                Ok(RenamePlan::Move { from: from_back, to: to_back }),
            ) => from@ == to_back@ && to@ == from_back@ && from@ != to@,
            _ => false,
        },
        taken is Err,
{
    crate::env::names_have_their_own_files(env.base_dir@, old_name@, new_name@);
}

/// The listed workspaces are in the order of their names, in lower case, and each file of a
/// workspace is listed once under its own name.
pub proof fn workspaces_are_listed_by_name(
    env: &AppEnv,
    files: &Vec<WorkspaceFile>,
    home: &str,
    r: Vec<crate::workspace::Workspace>,
)
    requires
        call_ensures(AppEnv::list_workspaces, (env, files, home), r),
    ensures
        forall|i: int, j: int|
            0 <= i < j < r@.len() ==> !crate::text::comes_before(
                crate::text::lowercase((#[trigger] r@[j]).name@),
                crate::text::lowercase((#[trigger] r@[i]).name@),
            ),
        crate::env::workspace_views(r@).to_multiset() == crate::env::workspaces_in(
            files@,
            home@,
        ).to_multiset(),
{
    let all = crate::env::workspaces_in(files@, home@);
    let named = crate::env::by_workspace_name();
    crate::sorting::sorting_orders(all, named);
    let shown = crate::env::workspace_views(r@);
    assert(crate::sorting::names_ordered(shown, named));
    assert forall|i: int, j: int| 0 <= i < j < r@.len() implies !crate::text::comes_before(
        crate::text::lowercase((#[trigger] r@[j]).name@),
        crate::text::lowercase((#[trigger] r@[i]).name@),
    ) by {
        assert(shown[i] == crate::env::workspace_view(r@[i]));
        assert(shown[j] == crate::env::workspace_view(r@[j]));
        assert(named(shown[i]) == r@[i].name@ && named(shown[j]) == r@[j].name@);
    }
}

// Windows.
/// A frame that was printed is read again, if it has an extent.
pub proof fn printed_frames_are_read(frame: WindowFrame, raw: &str, r: Result<WindowFrame, Error>)
    requires
        call_ensures(parse_window_frame, (raw,), r),
        raw@ == crate::number::signed_decimal(frame.x as int) + seq!['\t']
            + crate::number::signed_decimal(frame.y as int) + seq!['\t']
            + crate::number::signed_decimal(frame.width as int) + seq!['\t']
            + crate::number::signed_decimal(frame.height as int),
    ensures
        frame.width > 0 && frame.height > 0 ==> r == Ok::<WindowFrame, Error>(frame),
        frame.width <= 0 || frame.height <= 0 ==> r is Err,
{
    crate::window::frames_read_back(frame);
}

/// Each id that was printed is read once, without white space around it; blank lines are no
/// ids.
pub proof fn printed_ids_are_read(output: &str, r: Vec<String>, id: Seq<char>)
    requires
        call_ensures(parse_window_ids, (output,), r),
    ensures
        crate::text::string_views(r@).contains(id) <==> id.len() > 0 && exists|i: int|
            0 <= i < crate::text::lines(output@).len() && crate::text::trim(
                #[trigger] crate::text::lines(output@)[i],
            ) == id,
        crate::text::string_views(r@).no_duplicates(),
{
    let lines = crate::text::lines(output@);
    crate::window::ids_in_order(lines);
    let ids = crate::text::string_views(r@);
    assert forall|i: int, j: int| 0 <= i < ids.len() && 0 <= j < ids.len() && i != j implies ids[i]
        != ids[j] by {
        crate::text::order_is_total(ids[i], ids[j]);
        if i < j {
            assert(crate::text::comes_before(ids[i], ids[j]));
        } else {
            assert(crate::text::comes_before(ids[j], ids[i]));
        }
    }
}

/// The window that is found is one that was not there before; the search goes on while there
/// is none, and ends with the hundredth look.
pub proof fn new_windows_are_found(
    attempt: usize,
    existing: &Vec<String>,
    current: &Vec<String>,
    r: Discovery,
)
    requires
        call_ensures(discover_new_window, (attempt, existing, current), r),
    ensures
        ({
            let before = crate::text::string_views(existing@);
            let now = crate::text::string_views(current@);
            match r {
                Discovery::Found(id) => now.contains(id@) && !before.contains(id@),
                Discovery::Wait => attempt < 99 && forall|id: Seq<char>| #[trigger]
                    now.contains(id) ==> before.contains(id),
                Discovery::TimedOut => attempt >= 99 && forall|id: Seq<char>| #[trigger]
                    now.contains(id) ==> before.contains(id),
            }
        }),
{
    crate::window::new_id_is_new(
        crate::text::string_views(existing@),
        crate::text::string_views(current@),
    );
}

// Scripts of plain tabs.
/// A script of plain tabs is read as the rows that it was built from: each working
/// directory, and each title but those that shells set by themselves.
pub proof fn plain_scripts_are_read(
    rows: &Vec<TabRow>,
    script: String,
    text: &str,
    home: &str,
    r: Vec<TabRow>,
)
    requires
        call_ensures(build_workspace_script, (rows,), script),
        text@ == script@,
        call_ensures(parse_workspace_rows, (text, home), r),
        crate::readback::rows_without_breaks(crate::workspace::row_views(rows@)),
        rows@.len() <= usize::MAX,
    ensures
        r@.len() == rows@.len(),
        forall|i: int|
            0 <= i < rows@.len() ==> {
                &&& rows@[i].working_dir@.len() > 0 ==> (#[trigger] r@[i]).working_dir@
                    == rows@[i].working_dir@
                &&& rows@[i].working_dir@.len() == 0 ==> r@[i].working_dir@ == home@
                &&& r@[i].title@ == if crate::capture::shell_default_title(rows@[i].title@) {
                    seq![]
                } else {
                    rows@[i].title@
                }
            },
{
    reveal_strlit("");
    let given = crate::workspace::row_views(rows@);
    crate::readback::plain_rows_read_back(given, home@);
    let read = crate::workspace::row_views(r@);
    assert(read.len() == r@.len());
    assert forall|i: int| 0 <= i < rows@.len() implies {
        &&& rows@[i].working_dir@.len() > 0 ==> (#[trigger] r@[i]).working_dir@
            == rows@[i].working_dir@
        &&& rows@[i].working_dir@.len() == 0 ==> r@[i].working_dir@ == home@
        &&& r@[i].title@ == if crate::capture::shell_default_title(rows@[i].title@) {
            seq![]
        } else {
            rows@[i].title@
        }
    } by {
        assert(read[i] == (r@[i].working_dir@, r@[i].title@));
        assert(given[i] == (rows@[i].working_dir@, rows@[i].title@));
    }
}

/// The script that moves a window looks for that window's id, and sets its position and its
/// size.
pub proof fn moved_windows_get_their_frame(id: &str, frame: &WindowFrame, r: String)
    requires
        call_ensures(build_reposition_script, (id, frame), r),
    ensures
        stands_in(
            "set position of matchingWindow to {"@ + crate::number::signed_decimal(frame.x as int)
                + ", "@ + crate::number::signed_decimal(frame.y as int) + "}"@,
            r@,
        ),
        stands_in(
            "set size of matchingWindow to {"@ + crate::number::signed_decimal(frame.width as int)
                + ", "@ + crate::number::signed_decimal(frame.height as int) + "}"@,
            r@,
        ),
{
    crate::window::windows_are_moved_to_the_frame(id@, *frame);
    let place = "set position of matchingWindow to {"@ + crate::number::signed_decimal(
        frame.x as int,
    ) + ", "@ + crate::number::signed_decimal(frame.y as int) + "}"@;
    let size = "set size of matchingWindow to {"@ + crate::number::signed_decimal(
        frame.width as int,
    ) + ", "@ + crate::number::signed_decimal(frame.height as int) + "}"@;
    let b = choose|b: int| crate::text::occurs_at(r@, place, b);
    let c = choose|c: int| crate::text::occurs_at(r@, size, c);
    assert(r@.subrange(b, b + place.len()) == place);
    assert(r@.subrange(c, c + size.len()) == size);
}

// Saving and launching.
/// Saving all windows of which there is at most one is saving the front window.
pub proof fn one_window_is_saved_like_the_front(
    env: &AppEnv,
    name: &str,
    ids: &str,
    raw: &str,
    all: Result<WritePlan, Error>,
    front: Result<WritePlan, Error>,
)
    requires
        call_ensures(AppEnv::save_all_windows, (env, name, ids, raw), all),
        call_ensures(AppEnv::save_current_window, (env, name, raw), front),
        crate::window::window_ids(ids@).len() <= 1,
    ensures
        all is Ok <==> front is Ok,
        all matches Ok(a) ==> front matches Ok(b) ==> a.path@ == b.path@ && a.text@ == b.text@,
{
}

/// Saving several windows writes one script, under the name, that restores every pane that
/// was captured and knows every frame.
pub proof fn several_windows_are_saved_whole(
    env: &AppEnv,
    name: &str,
    ids: &str,
    raw: &str,
    windows: Seq<CapturedWindow>,
    rows: Seq<crate::restore_script::Surface>,
    r: Result<WritePlan, Error>,
)
    requires
        call_ensures(AppEnv::save_all_windows, (env, name, ids, raw), r),
        crate::window::window_ids(ids@).len() > 1,
        crate::env::valid_name(name@),
        windows.len() > 0,
        rows.len() > 0,
        forall|i: int| 0 <= i < rows.len() ==> crate::capture::writable(#[trigger] rows[i]),
        crate::text::split_once(raw@, "@@SURFACES@@"@) == Some(
            (
                crate::text::join(crate::capture::window_texts(windows), "\n"@),
                crate::text::join(crate::capture::row_texts(rows), "\n"@),
            ),
        ),
    ensures
        match r {
            Ok(plan) => {
                &&& plan.path@ == crate::env::workspace_file(env.base_dir@, name@)
                &&& plan.text@ == crate::restore_script::restore_script(
                    windows,
                    crate::capture::kept_surfaces(rows),
                )
            },
            Err(_) => false,
        },
{
    crate::capture::window_frames_read_back(windows);
    crate::capture::rows_read_back(rows);
    let kept = crate::capture::kept_surfaces(rows);
    let again = crate::capture::kept_surfaces(kept);
    assert(again =~= kept) by {
        assert forall|i: int| 0 <= i < kept.len() implies again[i] == kept[i] by {
            lemma_kept_stays(rows[i].title);
        }
    }
}

/// A title that was kept is kept again.
proof fn lemma_kept_stays(title: Seq<char>)
    ensures
        crate::capture::kept_title(crate::capture::kept_title(title))
            == crate::capture::kept_title(title),
{
    reveal_strlit("");
    let none = Seq::<char>::empty();
    assert(""@ =~= none);
}

/// A script that was saved is launched as one that is understood, without a warning. A
/// script of one window has its window moved to the caller's frame, and one of several
/// windows has none moved.
pub proof fn saved_workspaces_are_launched(
    env: &AppEnv,
    name: &str,
    script: &str,
    home: &str,
    windows: Seq<CapturedWindow>,
    surfaces: Seq<crate::restore_script::Surface>,
    r: Result<LaunchPlan, Error>,
)
    requires
        call_ensures(
            AppEnv::launch_workspace_from_tui_with_frame,
            (env, name, true, script, home),
            r,
        ),
        crate::env::valid_name(name@),
        script@ == crate::restore_script::restore_script(windows, surfaces),
        0 < surfaces.len() <= usize::MAX,
        crate::readback::without_breaks(surfaces),
        windows.len() <= 1 || crate::restore_script::windows_of(surfaces).len() > 1,
        crate::restore_script::windows_of(surfaces).len() <= usize::MAX,
    ensures
        match r {
            Ok(plan) => {
                &&& plan.path@ == crate::env::workspace_file(env.base_dir@, name@)
                &&& plan.warning is None
                &&& plan.follow_window == (crate::restore_script::windows_of(surfaces).len() <= 1)
                &&& plan.close_tab == env.config.close_tab
            },
            Err(_) => false,
        },
{
    crate::readback::saved_scripts_launch_directly(windows, surfaces);
    crate::readback::header_tells_windows(windows, surfaces);
}

/// A script with custom configuration is run as it is, and it is said that it was.
pub proof fn custom_scripts_are_run_with_a_warning(
    env: &AppEnv,
    name: &str,
    script: &str,
    home: &str,
    i: int,
    r: Result<LaunchPlan, Error>,
)
    requires
        call_ensures(
            AppEnv::launch_workspace_from_tui_with_frame,
            (env, name, true, script, home),
            r,
        ),
        crate::env::valid_name(name@),
        0 <= i < crate::text::lines(script@).len(),
        crate::text::starts_with(
            crate::text::trim(crate::text::lines(script@)[i]),
            "set command of cfg"@,
        ),
    ensures
        match r {
            Ok(plan) => !plan.follow_window && plan.warning is Some && plan.warning->0@
                == crate::env::LAUNCH_WARNING_UNSUPPORTED_CUSTOM_CONFIG@,
            Err(_) => false,
        },
{
    let rows = crate::workspace::tab_slots(crate::text::lines(script@)).len();
    assert(crate::workspace::is_custom_line(crate::text::lines(script@)[i]));
}

// The command line.
/// A command asks for what was typed: the names and the switch reach the request as they
/// are.
pub proof fn commands_ask_for_what_was_typed(cli: Cli, r: Result<Request, Error>)
    requires
        call_ensures(plan_command, (cli,), r),
    ensures
        cli.version ==> r == Ok::<Request, Error>(Request::Version),
        !cli.version && cli.command is Some && cli.workspace is Some ==> r is Err,
        !cli.version && cli.command is None && cli.workspace is Some ==> r == Ok::<Request, Error>(
            Request::Launch(cli.workspace->0),
        ),
        !cli.version && cli.workspace is None ==> match cli.command {
            None => r == Ok::<Request, Error>(Request::Tui),
            Some(Commands::Tui) => r == Ok::<Request, Error>(Request::Tui),
            Some(Commands::Init) => r == Ok::<Request, Error>(Request::Init),
            Some(Commands::List) => r == Ok::<Request, Error>(Request::List),
            Some(Commands::Save { name, all }) => r == Ok::<Request, Error>(
                Request::Save(name, all),
            ),
            Some(Commands::Edit { name }) => r == Ok::<Request, Error>(Request::Edit(name)),
            Some(Commands::Rename { old_name, new_name }) => match r {
                Ok(Request::KeepName) => old_name@ == new_name@,
                Ok(Request::Rename(from, to)) => from == old_name && to == new_name && from@ != to@,
                _ => false,
            },
            Some(Commands::Remove { name }) => r == Ok::<Request, Error>(Request::Remove(name)),
            Some(Commands::Settings { key, value }) => r == Ok::<Request, Error>(
                Request::Settings(key, value),
            ),
        },
{
}

/// Leaving the browser for a directory goes to that directory: a command for the shell that
/// changes to it, or the directory itself.
pub proof fn exits_lead_to_the_directory(exit: TuiExit, shell_cd: bool, r: ExitPlan)
    requires
        call_ensures(handle_tui_exit, (exit, shell_cd), r),
    ensures
        match (exit, r) {
            (TuiExit::Nothing, ExitPlan::Nothing) => true,
            (TuiExit::Cd(path), ExitPlan::Open(to)) => !shell_cd && to@ == path@,
            (TuiExit::ReplaceSplit(path), ExitPlan::Replace(to)) => !shell_cd && to@ == path@,
            (TuiExit::Cd(path), ExitPlan::Print(text)) => shell_cd && text@.take(6) == seq![
                'c',
                'd',
                ' ',
                '-',
                '-',
                ' ',
            ] && crate::applescript::shell_word(text@.skip(6)) == Some(path@),
            (TuiExit::ReplaceSplit(path), ExitPlan::Print(text)) => shell_cd && text@.take(6)
                == seq!['c', 'd', ' ', '-', '-', ' '] && crate::applescript::shell_word(
                text@.skip(6),
            ) == Some(path@),
            _ => false,
        },
{
    match exit {
        TuiExit::Cd(path) => {
            crate::applescript::cd_gets_the_path(path@);
        },
        TuiExit::ReplaceSplit(path) => {
            crate::applescript::cd_gets_the_path(path@);
        },
        TuiExit::Nothing => {},
    }
}

// Setting up the shortcut.
/// Once the two files are as planned, the shortcut's own file binds the shortcut and the
/// configuration refers to that file; or, where the shortcut is off, there is neither.
pub proof fn planned_files_set_up_the_shortcut(
    sync: &GhosttyShortcutSync,
    files: &ShortcutFiles,
    r: ShortcutPlan,
)
    requires
        call_ensures(plan_shortcut_sync, (sync, files), r),
        !crate::text::has_char(sync.shortcut@, '='),
        !crate::text::has_char(sync.shortcut@, '\n'),
        !files.include_exists ==> files.include_text is None,
        crate::config::quotable(sync.include_path@),
        files.config_text matches Some(text) ==> crate::config::no_stray_returns(text@),
        !files.externally_managed,
    ensures
        ({
            let s = crate::text::trim(sync.shortcut@);
            let off = s == "off"@ || s == "none"@ || s == "disabled"@;
            let own = crate::shortcut::own_file_after(*files, r.own_file);
            let config = crate::shortcut::config_after(*files, r.config);
            let lines = crate::text::lines(config->0);
            &&& r.enabled == !off
            &&& off ==> own is None && (config is Some ==> forall|i: int|
                0 <= i < lines.len() ==> !crate::config::is_reference(
                    #[trigger] lines[i],
                    sync.include_path@,
                ))
            &&& !off ==> own is Some && crate::config::bindings_of(crate::text::lines(own->0))
                == seq![(s, "text:gtab\\x0d"@)] && config is Some && lines.len() > 0 && lines.last()
                == "config-file = \""@ + sync.include_path@ + "\""@
        }),
{
    crate::shortcut::own_file_binds_the_shortcut(sync.shortcut@, *files, r.own_file);
    crate::shortcut::configuration_refers_to_the_file(
        r.enabled,
        sync.include_path@,
        *files,
        r.config,
    );
}

// After an action.
/// What came of an action is shown: the item that was saved, renamed or edited is marked
/// wherever it is listed, and the lists are those that were read.
pub proof fn outcomes_mark_what_they_are_about(
    app: &mut App,
    outcome: Outcome,
    env: &AppEnv,
    home: Option<&str>,
    now: u64,
    place: int,
    r: Option<TuiExit>,
)
    requires
        call_ensures(App::complete, (app, outcome, env, home, now), r),
    ensures
        match outcome {
            Outcome::WorkspaceRemoved { workspaces, .. } => final(app)@.workspaces == workspaces@
                && final(app)@.directories == old(app)@.directories && final(app)@.dialog
                == Dialog::Closed,
            Outcome::DirectoryRemoved { directories, .. } => final(app)@.directories
                == directories@ && final(app)@.workspaces == old(app)@.workspaces
                && final(app)@.dialog == Dialog::Closed,
            Outcome::WorkspaceSaved { workspaces, .. } => final(app)@.workspaces == workspaces@,
            Outcome::WorkspaceRenamed { workspaces, .. } => final(app)@.workspaces == workspaces@,
            Outcome::DirectorySaved { directories, .. } => final(app)@.directories == directories@,
            Outcome::DirectoryRenamed { directories, .. } => final(app)@.directories
                == directories@,
            Outcome::Failed(_) => final(app)@.dialog == old(app)@.dialog && final(app)@.selected
                == old(app)@.selected && final(app)@.workspaces == old(app)@.workspaces
                && final(app)@.directories == old(app)@.directories,
            _ => true,
        },
        crate::session::name_afterwards(outcome) is Some && 0 <= place
            < final(app)@.visible().len() && crate::app::item_name(
            final(app)@,
            final(app)@.visible()[place],
        ) == crate::session::name_afterwards(outcome)->0 ==> 0 <= final(app)@.selected
            < final(app)@.visible().len() && crate::app::item_name(
            final(app)@,
            final(app)@.visible()[final(app)@.selected],
        ) == crate::session::name_afterwards(outcome)->0,
        match outcome {
            Outcome::WorkspaceLaunched => r == Some(TuiExit::Nothing),
            Outcome::DirectoryFound(path) => r == Some(TuiExit::ReplaceSplit(path)),
            _ => r is None,
        },
{
    let s = old(app)@;
    let t = final(app)@;
    let place_home = crate::dialogs::place_view(home);
    crate::session::outcomes_change_what_they_are_about(
        s,
        outcome,
        env.config.close_tab,
        place_home,
        now,
    );
    if crate::session::name_afterwards(outcome) is Some && 0 <= place < t.visible().len()
        && crate::app::item_name(t, t.visible()[place]) == crate::session::name_afterwards(
        outcome,
    )->0 {
        crate::session::saved_items_are_selected(
            s,
            outcome,
            env.config.close_tab,
            place_home,
            now,
            place,
        );
    }
}

/// The dialog that asks whether the marked item is to be deleted shows the name of that
/// item.
pub proof fn delete_dialogs_show_the_marked_item(
    app: &App,
    env: &AppEnv,
    places: Places,
    width: u16,
    theme: &Theme,
    r: Text,
)
    requires
        call_ensures(dialog_text, (app, env, places, width, theme), r),
        marks(*app),
    ensures
        app.dialog == Dialog::ConfirmDeleteWorkspace && app.mode == BrowserMode::Workspace
            ==> r@[1][1].content == "\""@ + app.workspaces@[marked(*app)].name@ + "\""@,
        app.dialog == Dialog::ConfirmDeleteDirectory && app.mode == BrowserMode::Directory
            ==> r@[1][1].content == "\""@ + app.directories@[marked(*app)].name@ + "\""@,
{
    crate::dialogs::delete_dialogs_name_the_selection(
        app@,
        env.config@,
        crate::dialogs::place_view(places.current_dir),
        crate::dialogs::place_view(places.home),
        width as int,
        *theme,
    );
}

// Small decisions.
/// The application's files lie where the user wants them, else in the configuration
/// directory of the home directory; without either there is no place.
pub proof fn files_lie_where_they_are_wanted(
    wanted: Option<&str>,
    home: Option<&str>,
    r: Result<String, Error>,
)
    requires
        call_ensures(resolve_base_dir, (wanted, home), r),
    ensures
        wanted is Some ==> r is Ok && r->Ok_0@ == wanted->0@,
        wanted is None && home is Some && home->0@.len() > 0 && home->0@.last() != '/' ==> r is Ok
            && r->Ok_0@ == home->0@ + "/.config/gtab"@,
        wanted is None && home is None ==> r is Err,
{
    if wanted is None && home is Some {
        reveal_strlit("/");
        reveal_strlit(".config");
        reveal_strlit("gtab");
        reveal_strlit("/.config/gtab");
        let h = home->0@;
        let config = crate::path::joined(h, ".config"@);
        if h.len() > 0 && h.last() != '/' {
            assert(config =~= h + "/"@ + ".config"@);
            assert(config.last() == 'g');
            assert(crate::path::joined(config, "gtab"@) =~= h + "/.config/gtab"@);
        }
    }
}

/// A terminal changes to a directory exactly if its path is not empty and leads to one, and
/// whatever is refused for one of the two ways to change is refused for the other.
pub proof fn terminals_change_to_directories_alone(
    env: &AppEnv,
    path: &str,
    exists: bool,
    is_dir: bool,
    opened: Result<String, Error>,
    replaced: Result<String, Error>,
)
    requires
        call_ensures(
            AppEnv::open_directory_in_focused_terminal,
            (env, path, exists, is_dir),
            opened,
        ),
        call_ensures(
            AppEnv::replace_directory_in_focused_terminal,
            (env, path, exists, is_dir),
            replaced,
        ),
    ensures
        opened is Ok <==> path@.len() > 0 && exists && is_dir,
        replaced is Ok <==> path@.len() > 0 && exists && is_dir,
        replaced is Ok && !crate::text::has_char(path@, '\n') ==> crate::applescript::do_lines(
            crate::applescript::fresh_desk(),
            crate::text::lines(replaced->Ok_0@),
        ).second == Some(Some(path@)),
{
    if !crate::text::has_char(path@, '\n') {
        crate::applescript::replacing_opens_the_directory(path@);
    }
}

/// All windows are captured only where all are asked for and there are several.
pub proof fn all_windows_are_captured_on_request(all: bool, count: usize, r: &'static str)
    requires
        call_ensures(capture_script, (all, count), r),
    ensures
        all && count > 1 ==> r@ == crate::scripts::CAPTURE_ALL_WINDOWS@,
        !all || count <= 1 ==> r@ == crate::scripts::CAPTURE_FRONT_WINDOW@,
{
}

/// A file is opened with the editor that the user wants, unless that is blank.
pub proof fn wanted_editors_are_used(editor: Option<&str>, r: String)
    requires
        call_ensures(editor_command, (editor,), r),
    ensures
        editor is Some && crate::text::trim(editor->0@).len() > 0 ==> r@ == editor->0@,
        editor is None || crate::text::trim(editor->0@).len() == 0 ==> r@ == seq!['v', 'i', 'm'],
{
    reveal_strlit("vim");
    assert("vim"@ =~= seq!['v', 'i', 'm']);
}

/// Setting a switch or a shortcut changes that setting alone, and the text that is to be
/// written reads back as the new settings.
pub proof fn changed_settings_are_read_back(
    env: &mut AppEnv,
    enabled: bool,
    text: String,
    raw: &str,
    r: Result<Config, Error>,
)
    requires
        call_ensures(AppEnv::set_close_tab, (env, enabled), text),
        raw@ == text@,
        call_ensures(Config::parse, (Some(raw),), r),
        crate::config::settled_shortcut(old(env).config.ghostty_shortcut@),
    ensures
        final(env).base_dir == old(env).base_dir,
        match r {
            Ok(read) => read.close_tab == enabled && read.ghostty_shortcut@
                == old(env).config.ghostty_shortcut@,
            Err(_) => false,
        },
{
    crate::config::settings_read_back(final(env).config@);
}

/// A shortcut that is set is kept, and the switch stays as it was; one that is refused
/// changes nothing.
pub proof fn shortcuts_are_set(env: &mut AppEnv, shortcut: &str, r: Result<String, Error>)
    requires
        call_ensures(AppEnv::set_ghostty_shortcut, (env, shortcut), r),
    ensures
        final(env).config.close_tab == old(env).config.close_tab,
        final(env).base_dir == old(env).base_dir,
        r is Err ==> final(env).config == old(env).config,
        ({
            let s = crate::text::lowercase(crate::text::trim(shortcut@));
            let none = crate::text::trim(s) == "off"@ || crate::text::trim(s) == "none"@
                || crate::text::trim(s) == "disabled"@;
            &&& r is Ok && !none ==> final(env).config.ghostty_shortcut@ == s
            &&& r is Ok && none ==> final(env).config.ghostty_shortcut@ == "off"@
            &&& s.len() == 0 ==> r is Err
            &&& s.len() > 0 && none ==> r is Ok
            &&& s.len() > 0 && !none ==> (r is Ok <==> !s.contains('=') && !s.contains('\n')
                && !s.contains('\r'))
        }),
{
    crate::config::shortcuts_are_kept_in_lower_case(shortcut@);
}

/// The configuration that is synced is the preferred one, unless only the other is there.
pub proof fn existing_configuration_is_synced(
    candidates: &ConfigCandidates,
    preferred: bool,
    legacy: bool,
    r: String,
)
    requires
        call_ensures(resolve_ghostty_config_path, (candidates, preferred, legacy), r),
    ensures
        preferred ==> r@ == candidates.preferred@,
        !preferred && legacy ==> r@ == candidates.legacy@,
        !preferred && !legacy ==> r@ == candidates.preferred@,
{
}

/// A configuration that was changed is reported as changed, one that was not as it is, and
/// one that may not be written is left to the user, with the reason.
pub proof fn syncs_are_reported(
    sync: &GhosttyShortcutSync,
    plan: &ShortcutPlan,
    outcome: WriteOutcome,
    r: GhosttyShortcutApplyResult,
)
    requires
        call_ensures(shortcut_sync_result, (sync, plan, outcome), r),
    ensures
        r.sync == *sync,
        plan.config is Write && outcome == WriteOutcome::Written ==> r.status
            == GhosttyShortcutApplyStatus::UpdatedConfig && r.reason is None,
        plan.config is Keep && plan.own_file is Keep ==> r.status
            == GhosttyShortcutApplyStatus::AlreadyConfigured && r.reason is None,
        plan.config is Keep && !(plan.own_file is Keep) ==> r.status
            == GhosttyShortcutApplyStatus::UpdatedConfig,
        plan.config is Manual || plan.config is Write && outcome == WriteOutcome::ReadOnly
            ==> r.reason is Some && r.status == if plan.enabled {
            GhosttyShortcutApplyStatus::ManualConfigRequired
        } else {
            GhosttyShortcutApplyStatus::ManualConfigRemovalRequired
        },
{
}

/// A configuration is managed elsewhere if it, or what it leads to, lies in the Nix store;
/// a path beside the store does not.
pub proof fn store_paths_are_managed_elsewhere(
    path: &str,
    resolved: Option<&str>,
    rest: Seq<char>,
    a: Seq<char>,
    b: Seq<char>,
    r: bool,
)
    requires
        call_ensures(is_externally_managed, (path, resolved), r),
        crate::path::plain_name(a),
        crate::path::plain_name(b),
        path@ == seq!['/'] + a + seq!['/'] + b + seq!['/'] + rest,
    ensures
        a == "nix"@ && b == "store"@ ==> r,
        resolved is None ==> r == (a == "nix"@ && b == "store"@),
{
    crate::path::paths_lie_under_their_first_names(a, b, rest, "nix"@, "store"@);
}

/// A script of which nothing is understood is run as it is, and it is said that it was.
pub proof fn unread_scripts_are_run_with_a_warning(
    env: &AppEnv,
    name: &str,
    script: &str,
    home: &str,
    r: Result<LaunchPlan, Error>,
)
    requires
        call_ensures(
            AppEnv::launch_workspace_from_tui_with_frame,
            (env, name, true, script, home),
            r,
        ),
        crate::env::valid_name(name@),
        crate::workspace::tab_slots(crate::text::lines(script@)).len() == 0,
        !crate::workspace::has_multiple_windows(script@),
    ensures
        match r {
            Ok(plan) => {
                &&& !plan.follow_window && plan.warning is Some
                &&& (forall|i: int|
                    0 <= i < crate::text::lines(script@).len()
                        ==> !crate::workspace::is_custom_line(
                        #[trigger] crate::text::lines(script@)[i],
                    )) ==> plan.warning->0@ == crate::env::LAUNCH_WARNING_RECONSTRUCTION_FAILED@
            },
            Err(_) => false,
        },
{
}

/// Ghostty's configuration is looked for in the directory that the user names, else in the
/// home directory's.
pub proof fn configurations_are_looked_for(
    home: &str,
    xdg: Option<&str>,
    r: ConfigCandidates,
)
    requires
        call_ensures(ghostty_config_candidates, (home, xdg), r),
    ensures
        xdg is Some && xdg->0@.len() > 0 && xdg->0@.last() != '/' ==> r.preferred@ == xdg->0@
            + "/ghostty/config.ghostty"@ && r.legacy@ == xdg->0@ + "/ghostty/config"@,
        xdg is None && home@.len() > 0 && home@.last() != '/' ==> r.preferred@ == home@
            + "/.config/ghostty/config.ghostty"@ && r.legacy@ == home@
            + "/.config/ghostty/config"@,
{
    reveal_strlit("/");
    reveal_strlit(".config");
    reveal_strlit("ghostty");
    reveal_strlit("config.ghostty");
    reveal_strlit("config");
    reveal_strlit("/ghostty/config.ghostty");
    reveal_strlit("/ghostty/config");
    reveal_strlit("/.config/ghostty/config.ghostty");
    reveal_strlit("/.config/ghostty/config");
    if xdg is Some {
        let base = xdg->0@;
        if base.len() > 0 && base.last() != '/' {
            let dir = crate::path::joined(base, "ghostty"@);
            assert(dir =~= base + "/"@ + "ghostty"@);
            assert(dir.last() == 'y');
            assert(r.preferred@ =~= base + "/ghostty/config.ghostty"@);
            assert(r.legacy@ =~= base + "/ghostty/config"@);
        }
    } else if home@.len() > 0 && home@.last() != '/' {
        let base = crate::path::joined(home@, ".config"@);
        assert(base =~= home@ + "/"@ + ".config"@);
        assert(base.last() == 'g');
        let dir = crate::path::joined(base, "ghostty"@);
        assert(dir =~= base + "/"@ + "ghostty"@);
        assert(dir.last() == 'y');
        assert(r.preferred@ =~= home@ + "/.config/ghostty/config.ghostty"@);
        assert(r.legacy@ =~= home@ + "/.config/ghostty/config"@);
    }
}

} // verus!
