//! The application's files: where workspaces and directories are saved, and what is done
//! with them.
//!
//! Nothing here reads or writes a file. What a request needs to know (whether a file is
//! there, what it holds) is handed in, and what is to be done is handed back.

use vstd::prelude::*;

use crate::applescript::{
    build_ghostty_cd_script, build_ghostty_replace_directory_script,
    render_ghostty_direct_cd_command,
};
use crate::capture::{build_restore_script, read_all_windows, read_front_window};
use crate::config::{is_shortcut_disabled, normalize_ghostty_shortcut, Config};
use crate::error::Error;
use crate::layout::parse_workspace_layout;
use crate::path::{join_path, stem_with_extension};
use crate::scripts::{CAPTURE_ALL_WINDOWS, CAPTURE_FRONT_WINDOW};
use crate::shortcut::{
    plan_shortcut_sync, GhosttyShortcutSync, ShortcutFiles, ShortcutPlan,
};
use crate::sorting::insertion_point;
use crate::text::{
    chars_of, holds_char, is_empty_str, is_text, join_strings, same_str, string_of,
    trim_line_breaks_slice, trim_slice,
};
use crate::window::{parse_window_frame, parse_window_ids, WindowFrame};
use crate::workspace::{
    parse_workspace_rows, parse_workspace_tabs, plan_workspace_launch,
    script_has_multiple_windows, SavedDirectory, Workspace, WorkspaceLaunchMode,
};

verus! {

/// The extension of saved workspaces.
pub const APPLE_EXT: &'static str = "applescript";

/// The extension of saved directories.
pub const DIR_EXT: &'static str = "path";

/// The directory of saved directories.
pub const DIRS_DIR_NAME: &'static str = "dirs";

/// The name of the shortcut's own file.
pub const GHOSTTY_SHORTCUT_INCLUDE_NAME: &'static str = "ghostty-shortcut.conf";

/// What is said where a script was launched whose configuration is not reconstructed.
pub const LAUNCH_WARNING_UNSUPPORTED_CUSTOM_CONFIG: &'static str =
    "workspace launched without frame sync; saved AppleScript uses unsupported custom configuration";

/// What is said where a script was launched that was not understood.
pub const LAUNCH_WARNING_RECONSTRUCTION_FAILED: &'static str =
    "workspace launched without frame sync; saved AppleScript could not be reconstructed";

/// Where the files are, and the settings.
#[derive(Debug)]
pub struct AppEnv {
    pub base_dir: String,
    pub config_file: String,
    pub config: Config,
}

// Names.
/// A name under which something can be saved.
pub open spec fn name_error(name: Seq<char>) -> Option<Seq<char>> {
    let trimmed = crate::text::trim(name);
    if trimmed.len() == 0 {
        Some("missing workspace name"@)
    } else if trimmed == "."@ || trimmed == ".."@ || crate::text::has_char(trimmed, '/')
        || crate::text::has_char(trimmed, '\0') {
        Some("invalid workspace name '"@ + name + "'"@)
    } else {
        None
    }
}

/// A name under which something can be saved.
pub open spec fn valid_name(name: Seq<char>) -> bool {
    name_error(name) is None
}

/// `e` says why the name cannot be used.
pub open spec fn is_name_error(e: Error, name: Seq<char>) -> bool {
    &&& name_error(name) == Some(e.text())
    &&& e is MissingName <==> crate::text::trim(name).len() == 0
    &&& e is MissingName || e is InvalidName
}

/// Checks a name under which something is to be saved.
pub fn validate_workspace_name(name: &str) -> (r: Result<(), Error>)
    ensures
        match r {
            Ok(_) => valid_name(name@),
            Err(e) => is_name_error(e, name@),
        },
{
    let chars = chars_of(name);
    let trimmed = trim_slice(chars.as_slice());
    if trimmed.len() == 0 {
        return Err(Error::MissingName);
    }
    if is_text(trimmed, ".") || is_text(trimmed, "..") || holds_char(trimmed, '/') || holds_char(
        trimmed,
        '\0',
    ) {
        return Err(Error::InvalidName(name.to_string()));
    }
    Ok(())
}

/// A valid name is one path component: no slash in it, so it stays in its directory.
pub proof fn valid_names_are_components(name: Seq<char>)
    requires
        valid_name(name),
    ensures
        name.len() > 0,
        !crate::text::has_char(name, '/'),
        !crate::text::has_char(name, '\0'),
{
    crate::text::lemma_trim_start(name);
    let s = crate::text::trim_start(name);
    crate::text::lemma_trim_end(s);
    let t = crate::text::trim(name);
    let k = name.len() - s.len();
    assert forall|c: char|
        !crate::text::white_space(c) && !crate::text::has_char(
            t,
            c,
        ) implies !#[trigger] crate::text::has_char(name, c) by {
        if crate::text::has_char(name, c) {
            let i = choose|i: int| 0 <= i < name.len() && name[i] == c;
            if i < k {
                assert(crate::text::white_space(name[i]));
            } else {
                assert(s[i - k] == c);
                if i - k < t.len() {
                    assert(t[i - k] == c);
                } else {
                    assert(crate::text::white_space(s[i - k]));
                }
            }
        }
    }
}

// Paths.
/// The file of a saved workspace.
pub open spec fn workspace_file(base: Seq<char>, name: Seq<char>) -> Seq<char> {
    crate::path::joined(base, name + ".applescript"@)
}

/// The file of a saved directory.
pub open spec fn directory_file(base: Seq<char>, name: Seq<char>) -> Seq<char> {
    crate::path::joined(crate::path::joined(base, "dirs"@), name + ".path"@)
}

/// The directory of the application's files: the one that is asked for, or one in the
/// home directory.
pub fn resolve_base_dir(gtab_dir: Option<&str>, home: Option<&str>) -> (r: Result<String, Error>)
    ensures
        match gtab_dir {
            Some(dir) => r matches Ok(base) && base@ == dir@,
            None => match home {
                Some(home) => r matches Ok(base) && base@ == crate::path::joined(
                    crate::path::joined(home@, ".config"@),
                    "gtab"@,
                ),
                None => r matches Err(e) && e is NoHomeDirectory,
            },
        },
{
    match gtab_dir {
        Some(dir) => Ok(dir.to_string()),
        None => match home {
            Some(home) => Ok(join_path(join_path(home, ".config").as_str(), "gtab")),
            None => Err(Error::NoHomeDirectory),
        },
    }
}

/// The home directory as tabs are named by it: `/` where it is not known.
pub fn home_or_root(home: Option<&str>) -> (r: String)
    ensures
        r@ == match home {
            Some(home) => home@,
            None => "/"@,
        },
{
    match home {
        Some(home) => home.to_string(),
        None => "/".to_string(),
    }
}

// What is asked of the file system.
/// A file to be renamed.
#[derive(Clone, Debug, PartialEq, Eq)]
pub enum RenamePlan {
    /// It has that name already.
    Keep(String),
    /// It moves from the one path to the other.
    Move { from: String, to: String },
}

/// A file to be written.
#[derive(Clone, Debug, PartialEq, Eq)]
pub struct WritePlan {
    pub path: String,
    pub text: String,
}

/// A workspace to be launched.
#[derive(Clone, Debug, PartialEq, Eq)]
pub struct LaunchPlan {
    /// The script to run.
    pub path: String,
    /// Whether to look for the new window and move it to the caller's frame.
    pub follow_window: bool,
    /// What to say afterwards.
    pub warning: Option<String>,
    /// Whether the calling terminal is to be closed afterwards.
    pub close_tab: bool,
}

/// A file in the directory of workspaces.
#[derive(Clone, Debug)]
pub struct WorkspaceFile {
    pub file_name: String,
    pub path: String,
    /// Its text, if it can be read.
    pub content: Option<String>,
}

/// A file in the directory of directories.
#[derive(Clone, Debug)]
pub struct DirectoryFile {
    pub file_name: String,
    pub content: String,
}

/// What a saved workspace is.
pub struct WorkspaceView {
    pub name: Seq<char>,
    pub path: Seq<char>,
    pub tabs: Seq<(Seq<char>, Option<Seq<char>>)>,
    pub layout: Seq<crate::layout::TabLayout>,
}

/// What a workspace holds.
pub open spec fn workspace_view(w: Workspace) -> WorkspaceView {
    WorkspaceView {
        name: w.name@,
        path: w.path@,
        tabs: crate::workspace::tab_views(w.tabs@),
        layout: crate::layout::layout_views(w.layout@),
    }
}

/// What workspaces hold.
pub open spec fn workspace_views(list: Seq<Workspace>) -> Seq<WorkspaceView> {
    list.map_values(|w: Workspace| workspace_view(w))
}

/// The workspace that a file holds, if it has the extension of workspaces. One that
/// cannot be read has no tabs.
pub open spec fn workspace_in(file: WorkspaceFile, home: Seq<char>) -> Option<WorkspaceView> {
    match crate::path::stem_and_extension(file.file_name@) {
        Some((stem, ext)) => if ext == "applescript"@ {
            Some(
                match crate::text::opt_view(file.content) {
                    Some(script) => WorkspaceView {
                        name: stem,
                        path: file.path@,
                        tabs: crate::workspace::tab_slots(crate::text::lines(script)).map(
                            |i: int, slot: crate::workspace::TabSlot|
                                crate::workspace::preview_of(slot, i, home),
                        ),
                        layout: crate::layout::script_layout(script, home),
                    },
                    None => WorkspaceView {
                        name: stem,
                        path: file.path@,
                        tabs: seq![],
                        layout: seq![],
                    },
                },
            )
        } else {
            None
        },
        None => None,
    }
}

/// The workspaces that files hold.
pub open spec fn workspaces_in(files: Seq<WorkspaceFile>, home: Seq<char>) -> Seq<WorkspaceView>
    decreases files.len(),
{
    if files.len() == 0 {
        seq![]
    } else {
        let rest = workspaces_in(files.drop_last(), home);
        match workspace_in(files.last(), home) {
            Some(w) => rest.push(w),
            None => rest,
        }
    }
}

/// The name of a workspace.
pub open spec fn by_workspace_name() -> spec_fn(WorkspaceView) -> Seq<char> {
    |w: WorkspaceView| w.name
}

/// What a saved directory is: its name and its path.
pub open spec fn directory_views(list: Seq<SavedDirectory>) -> Seq<(Seq<char>, Seq<char>)> {
    list.map_values(|d: SavedDirectory| (d.name@, d.path@))
}

/// The directory that a file holds, if it has the extension of directories and is not
/// empty. Line breaks at its end do not count.
pub open spec fn directory_in(file: DirectoryFile) -> Option<(Seq<char>, Seq<char>)> {
    match crate::path::stem_and_extension(file.file_name@) {
        Some((stem, ext)) => {
            let path = crate::text::trim_line_breaks(file.content@);
            if ext == "path"@ && path.len() > 0 {
                Some((stem, path))
            } else {
                None
            }
        },
        None => None,
    }
}

/// The directories that files hold.
pub open spec fn directories_in(files: Seq<DirectoryFile>) -> Seq<(Seq<char>, Seq<char>)>
    decreases files.len(),
{
    if files.len() == 0 {
        seq![]
    } else {
        let rest = directories_in(files.drop_last());
        match directory_in(files.last()) {
            Some(d) => rest.push(d),
            None => rest,
        }
    }
}

/// The name of a directory.
pub open spec fn by_directory_name() -> spec_fn((Seq<char>, Seq<char>)) -> Seq<char> {
    |d: (Seq<char>, Seq<char>)| d.0
}

/// A file that is no workspace, or whose script, if it has one, speaks of no tab 0.
pub open spec fn file_numbered(file: WorkspaceFile) -> bool {
    match (crate::path::stem_and_extension(file.file_name@), crate::text::opt_view(file.content)) {
        (Some((_, ext)), Some(script)) => ext == "applescript"@
            ==> crate::workspace::tabs_numbered(script),
        _ => true,
    }
}

/// Reads one file of the directory of workspaces.
fn read_workspace(file: &WorkspaceFile, home: &str) -> (r: Option<Workspace>)
    requires
        file_numbered(*file),
    ensures
        match r {
            Some(w) => workspace_in(*file, home@) == Some(workspace_view(w)),
            None => workspace_in(*file, home@) is None,
        },
{
    let name = stem_with_extension(file.file_name.as_str(), APPLE_EXT)?;
    match &file.content {
        Some(script) => {
            let tabs = parse_workspace_tabs(script.as_str(), home);
            let layout = parse_workspace_layout(script.as_str(), home);
            Some(Workspace { name, path: file.path.clone(), tabs, layout })
        },
        None => {
            let tabs = Vec::new();
            let layout = Vec::new();
            assert(crate::workspace::tab_views(tabs@) == Seq::<
                (Seq<char>, Option<Seq<char>>),
            >::empty());
            assert(crate::layout::layout_views(layout@) == Seq::<
                crate::layout::TabLayout,
            >::empty());
            Some(Workspace { name, path: file.path.clone(), tabs, layout })
        },
    }
}

/// Puts a workspace into an ordered list.
fn insert_workspace(list: &mut Vec<Workspace>, names: &mut Vec<String>, w: Workspace)
    requires
        crate::text::string_views(old(names)@) == workspace_views(old(list)@).map_values(
            by_workspace_name(),
        ),
    ensures
        crate::text::string_views(final(names)@) == workspace_views(final(list)@).map_values(
            by_workspace_name(),
        ),
        workspace_views(final(list)@) == crate::sorting::insert_named(
            workspace_views(old(list)@),
            workspace_view(w),
            by_workspace_name(),
        ),
{
    let ghost views = workspace_views(list@);
    let ghost all_names = crate::text::string_views(names@);
    assert(all_names.len() == names.len());
    let at = insertion_point(names, w.name.as_str());
    proof {
        assert forall|i: int| at <= i < views.len() implies crate::text::comes_before(
            crate::text::lowercase(by_workspace_name()(workspace_view(w))),
            crate::text::lowercase(by_workspace_name()(#[trigger] views[i])),
        ) by {
            assert(all_names[i] == names@[i]@);
        }
        if at > 0 {
            assert(all_names[at - 1] == names@[at - 1]@);
        }
        crate::sorting::lemma_insert_named_at(
            views,
            workspace_view(w),
            by_workspace_name(),
            at as int,
        );
    }
    let ghost x = workspace_view(w);
    names.insert(at, w.name.clone());
    list.insert(at, w);
    assert(workspace_views(list@) == views.insert(at as int, x));
    assert(crate::text::string_views(names@) == all_names.insert(at as int, x.name));
    assert(workspace_views(list@).map_values(by_workspace_name()) == all_names.insert(
        at as int,
        x.name,
    ));
}

/// Puts a directory into an ordered list.
fn insert_directory(list: &mut Vec<SavedDirectory>, names: &mut Vec<String>, d: SavedDirectory)
    requires
        crate::text::string_views(old(names)@) == directory_views(old(list)@).map_values(
            by_directory_name(),
        ),
    ensures
        crate::text::string_views(final(names)@) == directory_views(final(list)@).map_values(
            by_directory_name(),
        ),
        directory_views(final(list)@) == crate::sorting::insert_named(
            directory_views(old(list)@),
            (d.name@, d.path@),
            by_directory_name(),
        ),
{
    let ghost views = directory_views(list@);
    let ghost all_names = crate::text::string_views(names@);
    let ghost x = (d.name@, d.path@);
    assert(all_names.len() == names.len());
    let at = insertion_point(names, d.name.as_str());
    proof {
        assert forall|i: int| at <= i < views.len() implies crate::text::comes_before(
            crate::text::lowercase(by_directory_name()(x)),
            crate::text::lowercase(by_directory_name()(#[trigger] views[i])),
        ) by {
            assert(all_names[i] == names@[i]@);
        }
        if at > 0 {
            assert(all_names[at - 1] == names@[at - 1]@);
        }
        crate::sorting::lemma_insert_named_at(views, x, by_directory_name(), at as int);
    }
    names.insert(at, d.name.clone());
    list.insert(at, d);
    assert(directory_views(list@) == views.insert(at as int, x));
    assert(crate::text::string_views(names@) == all_names.insert(at as int, x.0));
    assert(directory_views(list@).map_values(by_directory_name()) == all_names.insert(
        at as int,
        x.0,
    ));
}

/// The script that captures what is to be saved: all windows only where all are asked
/// for and there are several.
pub fn capture_script(all: bool, window_count: usize) -> (r: &'static str)
    ensures
        r@ == if all && window_count > 1 {
            CAPTURE_ALL_WINDOWS@
        } else {
            CAPTURE_FRONT_WINDOW@
        },
{
    if all && window_count > 1 {
        CAPTURE_ALL_WINDOWS
    } else {
        CAPTURE_FRONT_WINDOW
    }
}

/// The error of a launch script that failed.
pub fn launch_failure(stderr: &str) -> (r: Error)
    ensures
        if crate::text::trim(stderr@).len() == 0 {
            r is LaunchFailed
        } else {
            r matches Error::LaunchFailedWith(message) && message@ == crate::text::trim(stderr@)
        },
{
    let chars = chars_of(stderr);
    let message = trim_slice(chars.as_slice());
    if message.len() == 0 {
        Error::LaunchFailed
    } else {
        Error::LaunchFailedWith(string_of(message))
    }
}

/// The editor to open files with: the one that is asked for, or `vim`.
pub fn editor_command(editor: Option<&str>) -> (r: String)
    ensures
        r@ == match editor {
            Some(editor) if crate::text::trim(editor@).len() > 0 => editor@,
            _ => "vim"@,
        },
{
    if let Some(editor) = editor {
        let chars = chars_of(editor);
        if trim_slice(chars.as_slice()).len() > 0 {
            return editor.to_string();
        }
    }
    "vim".to_string()
}

/// The launchd domain of a user, from what `id -u` printed.
pub fn launchctl_domain(uid_output: &str) -> (r: Result<String, Error>)
    ensures
        match r {
            Ok(domain) => crate::text::trim(uid_output@).len() > 0 && domain@ == "gui/"@
                + crate::text::trim(uid_output@),
            Err(e) => e is NoUserId && crate::text::trim(uid_output@).len() == 0,
        },
{
    let chars = chars_of(uid_output);
    let uid = trim_slice(chars.as_slice());
    if uid.len() == 0 {
        return Err(Error::NoUserId);
    }
    let mut out = "gui/".to_string();
    out.append(string_of(uid).as_str());
    Ok(out)
}

/// The parent process, from what `ps` printed.
pub fn parent_process(ps_output: &str) -> (r: Result<String, Error>)
    ensures
        match r {
            Ok(pid) => crate::text::trim(ps_output@).len() > 0 && pid@ == crate::text::trim(
                ps_output@,
            ),
            Err(e) => e is NoParentProcess && crate::text::trim(ps_output@).len() == 0,
        },
{
    let chars = chars_of(ps_output);
    let pid = trim_slice(chars.as_slice());
    if pid.len() == 0 {
        return Err(Error::NoParentProcess);
    }
    Ok(string_of(pid))
}

/// Whether the interactive view needs another input source to take ASCII shortcuts: not
/// where the current one is the ASCII-capable one.
pub fn should_switch_to_ascii_input_source(
    current_id: Option<&str>,
    ascii_id: Option<&str>,
    same_source: bool,
) -> (r: bool)
    ensures
        r == (!same_source && match (current_id, ascii_id) {
            (Some(current), Some(ascii)) => current@ != ascii@,
            _ => true,
        }),
{
    if same_source {
        return false;
    }
    match (current_id, ascii_id) {
        (Some(current), Some(ascii)) => !same_str(current, ascii),
        _ => true,
    }
}

impl AppEnv {
    /// The environment of a directory, with the settings of its file.
    pub fn load(base_dir: &str, raw: Option<&str>) -> (r: Result<Self, Error>)
        ensures
            ({
                let settings = crate::config::settings_of_file(
                    match raw {
                        Some(text) => Some(text@),
                        None => None,
                    },
                );
                match r {
                    Ok(env) => {
                        &&& settings == Ok::<crate::config::Settings, Error>(env.config@)
                        &&& env.base_dir@ == base_dir@
                        &&& env.config_file@ == crate::path::joined(base_dir@, "config"@)
                    },
                    Err(e) => settings == Err::<crate::config::Settings, Error>(e),
                }
            }),
    {
        match Config::parse(raw) {
            Ok(config) => Ok(
                Self {
                    base_dir: base_dir.to_string(),
                    config_file: join_path(base_dir, "config"),
                    config,
                },
            ),
            Err(e) => Err(e),
        }
    }

    /// The file of the settings below a directory.
    pub fn config_path(base_dir: &str) -> (r: String)
        ensures
            r@ == crate::path::joined(base_dir@, "config"@),
    {
        join_path(base_dir, "config")
    }

    /// Takes over the settings of a file. Where they cannot be read, nothing changes.
    pub fn reload_config(&mut self, raw: Option<&str>) -> (r: Result<(), Error>)
        ensures
            final(self).base_dir == old(self).base_dir,
            final(self).config_file == old(self).config_file,
            ({
                let settings = crate::config::settings_of_file(
                    match raw {
                        Some(text) => Some(text@),
                        None => None,
                    },
                );
                match r {
                    Ok(_) => settings == Ok::<crate::config::Settings, Error>(final(self).config@),
                    Err(e) => settings == Err::<crate::config::Settings, Error>(e)
                        && final(self).config == old(self).config,
                }
            }),
    {
        match Config::parse(raw) {
            Ok(config) => {
                self.config = config;
                Ok(())
            },
            Err(e) => Err(e),
        }
    }

    /// Sets whether the calling terminal is closed after a launch. The result is the new
    /// text of the settings' file.
    pub fn set_close_tab(&mut self, enabled: bool) -> (r: String)
        ensures
            final(self).base_dir == old(self).base_dir,
            final(self).config_file == old(self).config_file,
            final(self).config.close_tab == enabled,
            final(self).config.ghostty_shortcut == old(self).config.ghostty_shortcut,
            r@ == crate::config::settings_text(final(self).config@),
    {
        self.config.close_tab = enabled;
        self.config.serialize()
    }

    /// Sets the shortcut. The result is the new text of the settings' file; a shortcut
    /// that is refused changes nothing.
    pub fn set_ghostty_shortcut(&mut self, shortcut: &str) -> (r: Result<String, Error>)
        ensures
            final(self).base_dir == old(self).base_dir,
            final(self).config_file == old(self).config_file,
            final(self).config.close_tab == old(self).config.close_tab,
            match r {
                Ok(text) => {
                    &&& crate::config::normalized_shortcut(shortcut@) == Ok::<Seq<char>, Error>(
                        final(self).config.ghostty_shortcut@,
                    )
                    &&& text@ == crate::config::settings_text(final(self).config@)
                },
                Err(e) => crate::config::normalized_shortcut(shortcut@) == Err::<Seq<char>, Error>(
                    e,
                ) && final(self).config == old(self).config,
            },
    {
        match normalize_ghostty_shortcut(shortcut) {
            Ok(normalized) => {
                self.config.ghostty_shortcut = normalized;
                Ok(self.config.serialize())
            },
            Err(e) => Err(e),
        }
    }

    /// Sets the default shortcut. The result is the new text of the settings' file.
    pub fn init_shortcuts(&mut self) -> (r: String)
        ensures
            final(self).base_dir == old(self).base_dir,
            final(self).config_file == old(self).config_file,
            final(self).config.close_tab == old(self).config.close_tab,
            final(self).config.ghostty_shortcut@ == "cmd+g"@,
            r@ == crate::config::settings_text(final(self).config@),
    {
        self.config.ghostty_shortcut = "cmd+g".to_string();
        self.config.serialize()
    }

    /// The files through which Ghostty learns of the shortcut. `config_path` is the one
    /// that was found; without a home directory it is looked for in the current one.
    pub fn preview_ghostty_shortcut_sync(&self, config_path: Option<&str>) -> (r:
        GhosttyShortcutSync)
        ensures
            r.config_path@ == match config_path {
                Some(path) => path@,
                None => "./.config/ghostty/config.ghostty"@,
            },
            r.include_path@ == crate::path::joined(self.base_dir@, "ghostty-shortcut.conf"@),
            r.shortcut@ == self.config.ghostty_shortcut@,
    {
        GhosttyShortcutSync {
            config_path: match config_path {
                Some(path) => path.to_string(),
                None => "./.config/ghostty/config.ghostty".to_string(),
            },
            include_path: join_path(self.base_dir.as_str(), "ghostty-shortcut.conf"),
            shortcut: self.config.ghostty_shortcut.clone(),
        }
    }

    /// Decides what is to be done so that Ghostty has the shortcut of the settings.
    pub fn ensure_ghostty_shortcut(&self, config_path: Option<&str>, files: &ShortcutFiles) -> (r:
        ShortcutPlan)
        ensures
            r.enabled == !crate::config::shortcut_disabled(self.config.ghostty_shortcut@),
            crate::shortcut::include_plan(
                self.config.ghostty_shortcut@,
                *files,
                r.own_file,
            ),
            crate::shortcut::reference_plan(
                r.enabled,
                crate::path::joined(self.base_dir@, "ghostty-shortcut.conf"@),
                *files,
                r.config,
            ),
    {
        let sync = self.preview_ghostty_shortcut_sync(config_path);
        plan_shortcut_sync(&sync, files)
    }

    /// The saved workspaces, by name.
    pub fn list_workspaces(&self, files: &Vec<WorkspaceFile>, home: &str) -> (r: Vec<Workspace>)
        requires
            forall|i: int| 0 <= i < files.len() ==> file_numbered(#[trigger] files@[i]),
        ensures
            workspace_views(r@) == crate::sorting::sorted_by_name(
                workspaces_in(files@, home@),
                by_workspace_name(),
            ),
    {
        let mut list: Vec<Workspace> = Vec::new();
        let mut names: Vec<String> = Vec::new();
        assert(crate::text::string_views(names@) == workspace_views(list@).map_values(
            by_workspace_name(),
        ));
        for i in 0..files.len()
            invariant
                forall|i: int| 0 <= i < files.len() ==> file_numbered(#[trigger] files@[i]),
                crate::text::string_views(names@) == workspace_views(list@).map_values(
                    by_workspace_name(),
                ),
                workspace_views(list@) == crate::sorting::sorted_by_name(
                    workspaces_in(files@.take(i as int), home@),
                    by_workspace_name(),
                ),
        {
            assert(files@.take(i as int + 1).drop_last() == files@.take(i as int));
            let ghost before = workspaces_in(files@.take(i as int), home@);
            if let Some(w) = read_workspace(&files[i], home) {
                let ghost x = workspace_view(w);
                insert_workspace(&mut list, &mut names, w);
                assert(before.push(x).drop_last() == before);
            }
        }
        assert(files@.take(files@.len() as int) == files@);
        list
    }

    /// The saved directories, by name.
    pub fn list_directories(&self, files: &Vec<DirectoryFile>) -> (r: Vec<SavedDirectory>)
        ensures
            directory_views(r@) == crate::sorting::sorted_by_name(
                directories_in(files@),
                by_directory_name(),
            ),
    {
        let mut list: Vec<SavedDirectory> = Vec::new();
        let mut names: Vec<String> = Vec::new();
        assert(crate::text::string_views(names@) == directory_views(list@).map_values(
            by_directory_name(),
        ));
        for i in 0..files.len()
            invariant
                crate::text::string_views(names@) == directory_views(list@).map_values(
                    by_directory_name(),
                ),
                directory_views(list@) == crate::sorting::sorted_by_name(
                    directories_in(files@.take(i as int)),
                    by_directory_name(),
                ),
        {
            assert(files@.take(i as int + 1).drop_last() == files@.take(i as int));
            let ghost before = directories_in(files@.take(i as int));
            if let Some(name) = stem_with_extension(files[i].file_name.as_str(), DIR_EXT) {
                let chars = chars_of(files[i].content.as_str());
                let path = trim_line_breaks_slice(chars.as_slice());
                if path.len() > 0 {
                    let d = SavedDirectory { name, path: string_of(path) };
                    let ghost x = (d.name@, d.path@);
                    insert_directory(&mut list, &mut names, d);
                    assert(before.push(x).drop_last() == before);
                }
            }
        }
        assert(files@.take(files@.len() as int) == files@);
        list
    }

    /// The file of a saved workspace.
    pub fn workspace_path(&self, name: &str) -> (r: Result<String, Error>)
        ensures
            match r {
                Ok(path) => valid_name(name@) && path@ == workspace_file(self.base_dir@, name@),
                Err(e) => is_name_error(e, name@),
            },
    {
        match validate_workspace_name(name) {
            Ok(_) => {
                let mut file = name.to_string();
                file.append(".applescript");
                Ok(join_path(self.base_dir.as_str(), file.as_str()))
            },
            Err(e) => Err(e),
        }
    }

    /// The file of a saved directory.
    pub fn directory_path(&self, name: &str) -> (r: Result<String, Error>)
        ensures
            match r {
                Ok(path) => valid_name(name@) && path@ == directory_file(self.base_dir@, name@),
                Err(e) => is_name_error(e, name@),
            },
    {
        match validate_workspace_name(name) {
            Ok(_) => {
                let mut file = name.to_string();
                file.append(".path");
                Ok(
                    join_path(
                        join_path(self.base_dir.as_str(), "dirs").as_str(),
                        file.as_str(),
                    ),
                )
            },
            Err(e) => Err(e),
        }
    }

    /// Saves the front window: `raw` is what its capture printed. The result is the file
    /// to be written.
    pub fn save_current_window(&self, name: &str, raw: &str) -> (r: Result<WritePlan, Error>)
        ensures
            self.saves_front(name@, raw@, r),
    {
        match self.workspace_path(name) {
            Err(e) => Err(e),
            Ok(path) => match read_front_window(raw) {
                Err(e) => Err(e),
                Ok(workspace) => Ok(WritePlan { path, text: build_restore_script(&workspace) }),
            },
        }
    }

    /// Saves all windows: `ids_output` is what the list of windows printed, and `raw` what
    /// their capture did. With one window at most, it is saved like the front window. The
    /// result is the file to be written.
    pub fn save_all_windows(&self, name: &str, ids_output: &str, raw: &str) -> (r: Result<
        WritePlan,
        Error,
    >)
        ensures
            crate::window::window_ids(ids_output@).len() > 1 ==> self.saves_all(name@, raw@, r),
            crate::window::window_ids(ids_output@).len() <= 1 ==> self.saves_front(name@, raw@, r),
    {
        let ids = parse_window_ids(ids_output);
        assert(crate::text::string_views(ids@).len() == ids.len());
        if ids.len() <= 1 {
            return self.save_current_window(name, raw);
        }
        match self.workspace_path(name) {
            Err(e) => Err(e),
            Ok(path) => match read_all_windows(raw) {
                Err(e) => Err(e),
                Ok(workspace) => Ok(WritePlan { path, text: build_restore_script(&workspace) }),
            },
        }
    }

    /// Saves a directory: `exists` is whether there is one under the name. The result is
    /// the file to be written.
    pub fn save_directory(&self, name: &str, directory_path: &str, exists: bool) -> (r: Result<
        WritePlan,
        Error,
    >)
        ensures
            match r {
                Ok(plan) => {
                    &&& valid_name(name@)
                    &&& !exists
                    &&& plan.path@ == directory_file(self.base_dir@, name@)
                    &&& plan.text@ == directory_path@
                },
                Err(e) => if !valid_name(name@) {
                    is_name_error(e, name@)
                } else {
                    exists && (e matches Error::DirectoryExists(n) && n@ == name@)
                },
            },
    {
        match self.directory_path(name) {
            Err(e) => Err(e),
            Ok(path) => if exists {
                Err(Error::DirectoryExists(name.to_string()))
            } else {
                Ok(WritePlan { path, text: directory_path.to_string() })
            },
        }
    }

    /// Opens a workspace in an editor: the result is the command and the file. `editor` is
    /// the one that the user wants, if any.
    pub fn open_in_editor(&self, name: &str, editor: Option<&str>) -> (r: Result<
        (String, String),
        Error,
    >)
        ensures
            match r {
                Ok((command, path)) => {
                    &&& valid_name(name@)
                    &&& path@ == workspace_file(self.base_dir@, name@)
                    &&& command@ == match editor {
                        Some(editor) if crate::text::trim(editor@).len() > 0 => editor@,
                        _ => "vim"@,
                    }
                },
                Err(e) => is_name_error(e, name@),
            },
    {
        match self.workspace_path(name) {
            Ok(path) => Ok((editor_command(editor), path)),
            Err(e) => Err(e),
        }
    }

    /// Renames a workspace: the flags are whether there is one under the old name and
    /// under the new one.
    pub fn rename_workspace(
        &self,
        old_name: &str,
        new_name: &str,
        old_exists: bool,
        new_exists: bool,
    ) -> (r: Result<RenamePlan, Error>)
        ensures
            match r {
                Ok(RenamePlan::Keep(path)) => {
                    &&& valid_name(old_name@) && old_exists && old_name@ == new_name@
                    &&& path@ == workspace_file(self.base_dir@, old_name@)
                },
                Ok(RenamePlan::Move { from, to }) => {
                    &&& valid_name(old_name@) && old_exists && old_name@ != new_name@
                    &&& valid_name(new_name@) && !new_exists
                    &&& from@ == workspace_file(self.base_dir@, old_name@)
                    &&& to@ == workspace_file(self.base_dir@, new_name@)
                },
                Err(e) => if !valid_name(old_name@) {
                    is_name_error(e, old_name@)
                } else if !old_exists {
                    e matches Error::WorkspaceNotFound(n) && n@ == old_name@
                } else if !valid_name(new_name@) {
                    is_name_error(e, new_name@)
                } else {
                    old_name@ != new_name@ && new_exists && (e matches Error::WorkspaceExists(n)
                        && n@ == new_name@)
                },
            },
    {
        let from = match self.workspace_path(old_name) {
            Ok(path) => path,
            Err(e) => {
                return Err(e);
            },
        };
        if !old_exists {
            return Err(Error::WorkspaceNotFound(old_name.to_string()));
        }
        if same_str(old_name, new_name) {
            return Ok(RenamePlan::Keep(from));
        }
        let to = match self.workspace_path(new_name) {
            Ok(path) => path,
            Err(e) => {
                return Err(e);
            },
        };
        if new_exists {
            return Err(Error::WorkspaceExists(new_name.to_string()));
        }
        Ok(RenamePlan::Move { from, to })
    }

    /// Removes a workspace: the result is the file to be removed.
    pub fn remove_workspace(&self, name: &str, exists: bool) -> (r: Result<String, Error>)
        ensures
            self.finds_workspace(name@, exists, r),
    {
        match self.workspace_path(name) {
            Err(e) => Err(e),
            Ok(path) => if exists {
                Ok(path)
            } else {
                Err(Error::WorkspaceNotFound(name.to_string()))
            },
        }
    }

    /// Renames a saved directory: the flags are whether there is one under the old name
    /// and under the new one.
    pub fn rename_directory(
        &self,
        old_name: &str,
        new_name: &str,
        old_exists: bool,
        new_exists: bool,
    ) -> (r: Result<RenamePlan, Error>)
        ensures
            match r {
                Ok(RenamePlan::Keep(path)) => {
                    &&& valid_name(old_name@) && old_exists && old_name@ == new_name@
                    &&& path@ == directory_file(self.base_dir@, old_name@)
                },
                Ok(RenamePlan::Move { from, to }) => {
                    &&& valid_name(old_name@) && old_exists && old_name@ != new_name@
                    &&& valid_name(new_name@) && !new_exists
                    &&& from@ == directory_file(self.base_dir@, old_name@)
                    &&& to@ == directory_file(self.base_dir@, new_name@)
                },
                Err(e) => if !valid_name(old_name@) {
                    is_name_error(e, old_name@)
                } else if !old_exists {
                    e matches Error::DirectoryNotFound(n) && n@ == old_name@
                } else if !valid_name(new_name@) {
                    is_name_error(e, new_name@)
                } else {
                    old_name@ != new_name@ && new_exists && (e matches Error::DirectoryExists(n)
                        && n@ == new_name@)
                },
            },
    {
        let from = match self.directory_path(old_name) {
            Ok(path) => path,
            Err(e) => {
                return Err(e);
            },
        };
        if !old_exists {
            return Err(Error::DirectoryNotFound(old_name.to_string()));
        }
        if same_str(old_name, new_name) {
            return Ok(RenamePlan::Keep(from));
        }
        let to = match self.directory_path(new_name) {
            Ok(path) => path,
            Err(e) => {
                return Err(e);
            },
        };
        if new_exists {
            return Err(Error::DirectoryExists(new_name.to_string()));
        }
        Ok(RenamePlan::Move { from, to })
    }

    /// Removes a saved directory: the result is the file to be removed.
    pub fn remove_directory(&self, name: &str, exists: bool) -> (r: Result<String, Error>)
        ensures
            match r {
                Ok(path) => valid_name(name@) && exists && path@ == directory_file(
                    self.base_dir@,
                    name@,
                ),
                Err(e) => if !valid_name(name@) {
                    is_name_error(e, name@)
                } else {
                    !exists && (e matches Error::DirectoryNotFound(n) && n@ == name@)
                },
            },
    {
        match self.directory_path(name) {
            Err(e) => Err(e),
            Ok(path) => if exists {
                Ok(path)
            } else {
                Err(Error::DirectoryNotFound(name.to_string()))
            },
        }
    }

    /// Checks a directory that a terminal is to change to.
    pub fn validate_directory_target(&self, path: &str, exists: bool, is_dir: bool) -> (r: Result<
        (),
        Error,
    >)
        ensures
            match r {
                Ok(_) => target_ok(path@, exists, is_dir),
                Err(e) => is_target_error(e, path@, exists, is_dir),
            },
    {
        if is_empty_str(path) {
            return Err(Error::DirectoryPathEmpty);
        }
        if !exists {
            return Err(Error::DirectoryNotFound(path.to_string()));
        }
        if !is_dir {
            return Err(Error::NotADirectory(path.to_string()));
        }
        Ok(())
    }

    /// The script that moves the focused terminal to a directory.
    pub fn open_directory_in_focused_terminal(
        &self,
        path: &str,
        exists: bool,
        is_dir: bool,
    ) -> (r: Result<String, Error>)
        ensures
            match r {
                Ok(script) => target_ok(path@, exists, is_dir) && script@
                    == crate::applescript::cd_script(
                    " "@ + crate::applescript::cd_command(path@),
                ),
                Err(e) => is_target_error(e, path@, exists, is_dir),
            },
    {
        match self.validate_directory_target(path, exists, is_dir) {
            Err(e) => Err(e),
            Ok(_) => {
                let command = render_ghostty_direct_cd_command(path);
                Ok(build_ghostty_cd_script(command.as_str()))
            },
        }
    }

    /// The script that replaces the focused terminal by one in a directory.
    pub fn replace_directory_in_focused_terminal(
        &self,
        path: &str,
        exists: bool,
        is_dir: bool,
    ) -> (r: Result<String, Error>)
        ensures
            match r {
                Ok(script) => target_ok(path@, exists, is_dir) && script@
                    == crate::applescript::replace_directory_script(path@),
                Err(e) => is_target_error(e, path@, exists, is_dir),
            },
    {
        match self.validate_directory_target(path, exists, is_dir) {
            Err(e) => Err(e),
            Ok(_) => Ok(build_ghostty_replace_directory_script(path)),
        }
    }

    /// Launches a workspace: the result is the script to run.
    pub fn launch_workspace(&self, name: &str, exists: bool) -> (r: Result<LaunchPlan, Error>)
        ensures
            match r {
                Ok(plan) => {
                    &&& valid_name(name@) && exists
                    &&& plan.path@ == workspace_file(self.base_dir@, name@)
                    &&& !plan.follow_window
                    &&& plan.warning is None
                    &&& plan.close_tab == self.config.close_tab
                },
                Err(e) => if !valid_name(name@) {
                    is_name_error(e, name@)
                } else {
                    !exists && (e matches Error::WorkspaceNotFound(n) && n@ == name@)
                },
            },
    {
        match self.remove_workspace(name, exists) {
            Err(e) => Err(e),
            Ok(path) => Ok(
                LaunchPlan {
                    path,
                    follow_window: false,
                    warning: None,
                    close_tab: self.config.close_tab,
                },
            ),
        }
    }

    /// Launches a workspace, whose script this is, from the interactive view. A window
    /// that the script opens is moved to the caller's frame, unless the script restores
    /// several windows, each with its own.
    pub fn launch_workspace_from_tui_with_frame(
        &self,
        name: &str,
        exists: bool,
        script: &str,
        home: &str,
    ) -> (r: Result<LaunchPlan, Error>)
        requires
            crate::workspace::tabs_numbered(script@),
        ensures
            match r {
                Ok(plan) => {
                    let rows = crate::workspace::tab_slots(crate::text::lines(script@)).len();
                    let mode = crate::workspace::launch_mode(script@, rows);
                    &&& valid_name(name@) && exists
                    &&& plan.path@ == workspace_file(self.base_dir@, name@)
                    &&& plan.close_tab == self.config.close_tab
                    &&& plan.follow_window == (mode == WorkspaceLaunchMode::DirectSplit
                        && !crate::workspace::has_multiple_windows(script@))
                    &&& crate::text::opt_view(plan.warning) == launch_warning(mode)
                },
                Err(e) => if !valid_name(name@) {
                    is_name_error(e, name@)
                } else {
                    !exists && (e matches Error::WorkspaceNotFound(n) && n@ == name@)
                },
            },
    {
        match self.remove_workspace(name, exists) {
            Err(e) => Err(e),
            Ok(path) => {
                let rows = parse_workspace_rows(script, home);
                assert(crate::workspace::row_views(rows@).len() == rows.len());
                let mode = plan_workspace_launch(script, &rows);
                let (follow_window, warning) = match mode {
                    WorkspaceLaunchMode::DirectLegacy => (
                        false,
                        Some(LAUNCH_WARNING_UNSUPPORTED_CUSTOM_CONFIG.to_string()),
                    ),
                    WorkspaceLaunchMode::DirectSplit => (
                        !script_has_multiple_windows(script),
                        None,
                    ),
                    WorkspaceLaunchMode::DirectFallback => (
                        false,
                        Some(LAUNCH_WARNING_RECONSTRUCTION_FAILED.to_string()),
                    ),
                };
                Ok(
                    LaunchPlan {
                        path,
                        follow_window,
                        warning,
                        close_tab: self.config.close_tab,
                    },
                )
            },
        }
    }

    /// The frame of the front window, from what the script that asks for it printed.
    pub fn capture_frontmost_ghostty_window_frame(&self, output: &str) -> (r: Result<
        WindowFrame,
        Error,
    >)
        ensures
            r == crate::window::window_frame(output@),
    {
        parse_window_frame(output)
    }

    /// Whether the calling terminal is closed after a launch, as a word.
    pub fn close_tab_display(&self) -> (r: &'static str)
        ensures
            r@ == if self.config.close_tab {
                "on"@
            } else {
                "off"@
            },
    {
        if self.config.close_tab {
            "on"
        } else {
            "off"
        }
    }

    /// The shortcut.
    pub fn ghostty_shortcut_display(&self) -> (r: &str)
        ensures
            r@ == self.config.ghostty_shortcut@,
    {
        self.config.ghostty_shortcut.as_str()
    }

    /// The result of finding a workspace's file.
    pub open spec fn finds_workspace(
        &self,
        name: Seq<char>,
        exists: bool,
        r: Result<String, Error>,
    ) -> bool {
        match r {
            Ok(path) => valid_name(name) && exists && path@ == workspace_file(self.base_dir@, name),
            Err(e) => if !valid_name(name) {
                is_name_error(e, name)
            } else {
                !exists && (e matches Error::WorkspaceNotFound(n) && n@ == name)
            },
        }
    }

    /// The result of saving the front window.
    pub open spec fn saves_front(
        &self,
        name: Seq<char>,
        raw: Seq<char>,
        r: Result<WritePlan, Error>,
    ) -> bool {
        let surfaces = crate::capture::captured_surfaces(crate::text::lines(raw), 1);
        match r {
            Ok(plan) => {
                &&& valid_name(name)
                &&& crate::text::trim(raw).len() > 0
                &&& surfaces.len() > 0
                &&& plan.path@ == workspace_file(self.base_dir@, name)
                &&& plan.text@ == crate::restore_script::restore_script(
                    seq![single_window_frame()],
                    crate::capture::kept_surfaces(surfaces),
                )
            },
            Err(e) => if !valid_name(name) {
                is_name_error(e, name)
            } else if crate::text::trim(raw).len() == 0 {
                e is FrontWindowUnreadable
            } else {
                e is FrontWindowUnparsed && surfaces.len() == 0
            },
        }
    }

    /// The result of saving several windows.
    pub open spec fn saves_all(
        &self,
        name: Seq<char>,
        raw: Seq<char>,
        r: Result<WritePlan, Error>,
    ) -> bool {
        if !valid_name(name) {
            r matches Err(e) && is_name_error(e, name)
        } else {
            match crate::text::split_once(raw, "@@SURFACES@@"@) {
                None => r matches Err(e) && e is WindowsUnexpected,
                Some((frames, rows)) => {
                    let windows = crate::capture::captured_windows(crate::text::lines(frames));
                    let surfaces = crate::capture::captured_rows(crate::text::lines(rows));
                    match r {
                        Ok(plan) => {
                            &&& windows.len() > 0
                            &&& surfaces.len() > 0
                            &&& plan.path@ == workspace_file(self.base_dir@, name)
                            &&& plan.text@ == crate::restore_script::restore_script(
                                windows,
                                crate::capture::kept_surfaces(surfaces),
                            )
                        },
                        Err(e) => if windows.len() == 0 {
                            e is WindowFramesUnreadable
                        } else {
                            e is WindowsUnparsed && surfaces.len() == 0
                        },
                    }
                },
            }
        }
    }
}

/// A directory that a terminal can change to.
pub open spec fn target_ok(path: Seq<char>, exists: bool, is_dir: bool) -> bool {
    path.len() > 0 && exists && is_dir
}

/// `e` says why a terminal cannot change to a directory.
pub open spec fn is_target_error(e: Error, path: Seq<char>, exists: bool, is_dir: bool) -> bool {
    if path.len() == 0 {
        e is DirectoryPathEmpty
    } else if !exists {
        e matches Error::DirectoryNotFound(n) && n@ == path
    } else {
        !is_dir && (e matches Error::NotADirectory(n) && n@ == path)
    }
}

/// What is said after a launch.
pub open spec fn launch_warning(mode: WorkspaceLaunchMode) -> Option<Seq<char>> {
    match mode {
        WorkspaceLaunchMode::DirectLegacy => Some(LAUNCH_WARNING_UNSUPPORTED_CUSTOM_CONFIG@),
        WorkspaceLaunchMode::DirectSplit => None,
        WorkspaceLaunchMode::DirectFallback => Some(LAUNCH_WARNING_RECONSTRUCTION_FAILED@),
    }
}

/// The entry for a window whose frame is not restored.
pub open spec fn single_window_frame() -> crate::restore_script::CapturedWindow {
    crate::restore_script::CapturedWindow {
        window_index: 1,
        frame: WindowFrame { x: 0, y: 0, width: 0, height: 0 },
    }
}

// What is printed.
/// The list of workspaces as it is printed.
pub open spec fn workspace_list_text(names: Seq<Seq<char>>) -> Seq<char> {
    if names.len() == 0 {
        "No workspaces saved."@
    } else {
        crate::text::join(
            seq!["Workspaces:"@] + names.map_values(|name: Seq<char>| "  - "@ + name),
            "\n"@,
        )
    }
}

/// The names of workspaces.
pub open spec fn workspace_names(list: Seq<Workspace>) -> Seq<Seq<char>> {
    list.map_values(|w: Workspace| w.name@)
}

/// The list of workspaces as it is printed.
pub fn format_workspace_list(workspaces: &Vec<Workspace>) -> (r: String)
    ensures
        r@ == workspace_list_text(workspace_names(workspaces@)),
{
    if workspaces.len() == 0 {
        return "No workspaces saved.".to_string();
    }
    let mut lines: Vec<String> = Vec::new();
    lines.push("Workspaces:".to_string());
    let ghost names = workspace_names(workspaces@);
    let ghost all = seq!["Workspaces:"@] + names.map_values(|name: Seq<char>| "  - "@ + name);
    assert(crate::text::string_views(lines@) == all.take(1));
    for i in 0..workspaces.len()
        invariant
            names == workspace_names(workspaces@),
            all == seq!["Workspaces:"@] + names.map_values(|name: Seq<char>| "  - "@ + name),
            crate::text::string_views(lines@) == all.take(i as int + 1),
    {
        let ghost before = lines@;
        let mut line = "  - ".to_string();
        line.append(workspaces[i].name.as_str());
        let ghost text = line@;
        lines.push(line);
        assert(crate::text::string_views(lines@) == crate::text::string_views(before).push(text));
        assert(all[i as int + 1] == text);
    }
    assert(all.take(all.len() as int) == all);
    join_strings(&lines, "\n")
}

/// The settings as they are printed.
pub open spec fn settings_display(
    close_tab: bool,
    shortcut: Seq<char>,
    config_path: Seq<char>,
    include_path: Seq<char>,
) -> Seq<char> {
    "Settings:\n  close_tab = "@ + (if close_tab {
        "on"@
    } else {
        "off"@
    }) + "\n  ghostty_shortcut = "@ + shortcut + "\n  ghostty_config = "@ + config_path
        + "\n  ghostty_include = "@ + include_path + "\n  "@ + (if crate::config::shortcut_disabled(
        shortcut,
    ) {
        "Ghostty-local shortcut is disabled. Run `gtab init` to restore the default same-shell Cmd+G."@
    } else {
        "Ghostty-local shortcut is the default fast path. It types `gtab` into the focused Ghostty shell and only works when Ghostty is focused."@
    })
}

/// The settings as they are printed. `config_path` is the Ghostty configuration that was
/// found.
pub fn format_settings(env: &AppEnv, config_path: Option<&str>) -> (r: String)
    ensures
        r@ == settings_display(
            env.config.close_tab,
            env.config.ghostty_shortcut@,
            match config_path {
                Some(path) => path@,
                None => "./.config/ghostty/config.ghostty"@,
            },
            crate::path::joined(env.base_dir@, "ghostty-shortcut.conf"@),
        ),
{
    let sync = env.preview_ghostty_shortcut_sync(config_path);
    let mut out = "Settings:\n  close_tab = ".to_string();
    out.append(env.close_tab_display());
    out.append("\n  ghostty_shortcut = ");
    out.append(env.config.ghostty_shortcut.as_str());
    out.append("\n  ghostty_config = ");
    out.append(sync.config_path.as_str());
    out.append("\n  ghostty_include = ");
    out.append(sync.include_path.as_str());
    out.append("\n  ");
    if is_shortcut_disabled(env.config.ghostty_shortcut.as_str()) {
        out.append(
            "Ghostty-local shortcut is disabled. Run `gtab init` to restore the default same-shell Cmd+G.",
        );
    } else {
        out.append(
            "Ghostty-local shortcut is the default fast path. It types `gtab` into the focused Ghostty shell and only works when Ghostty is focused.",
        );
    }
    out
}

// Files from earlier versions.
/// The agent that earlier versions installed.
pub const LEGACY_HOTKEY_SERVICE_LABEL: &'static str = "com.franvy.gtab.hotkey";

/// The property list of that agent.
pub fn legacy_hotkey_plist_path(home: Option<&str>) -> (r: Result<String, Error>)
    ensures
        match home {
            Some(home) => r matches Ok(path) && path@ == crate::path::joined(
                crate::path::joined(home@, "Library/LaunchAgents"@),
                "com.franvy.gtab.hotkey.plist"@,
            ),
            None => r matches Err(e) && e is NoHomeDirectory,
        },
{
    match home {
        Some(home) => Ok(
            join_path(
                join_path(home, "Library/LaunchAgents").as_str(),
                "com.franvy.gtab.hotkey.plist",
            ),
        ),
        None => Err(Error::NoHomeDirectory),
    }
}

/// That agent, in a domain.
pub fn legacy_hotkey_service(domain: &str) -> (r: String)
    ensures
        r@ == domain@ + "/"@ + LEGACY_HOTKEY_SERVICE_LABEL@,
{
    let mut out = domain.to_string();
    out.append("/");
    out.append(LEGACY_HOTKEY_SERVICE_LABEL);
    out
}

/// What that agent left behind.
pub fn legacy_artifacts(base_dir: &str) -> (r: (String, String))
    ensures
        r.0@ == crate::path::joined(base_dir@, "gtab-hotkey.log"@),
        r.1@ == crate::path::joined(base_dir@, "launcher.sh"@),
{
    (join_path(base_dir, "gtab-hotkey.log"), join_path(base_dir, "launcher.sh"))
}

// Names and files.
/// A name is valid unless it is blank, `.` or `..`, or holds a slash or a NUL: nothing else
/// makes it invalid.
pub proof fn few_names_are_refused(name: Seq<char>)
    ensures
        valid_name(name) <==> {
            &&& exists|i: int| 0 <= i < name.len() && !crate::text::white_space(#[trigger] name[i])
            &&& crate::text::trim(name) != seq!['.']
            &&& crate::text::trim(name) != seq!['.', '.']
            &&& !crate::text::has_char(name, '/')
            &&& !crate::text::has_char(name, '\0')
        },
{
    reveal_strlit(".");
    reveal_strlit("..");
    assert("."@ =~= seq!['.']);
    assert(".."@ =~= seq!['.', '.']);
    let t = crate::text::trim(name);
    crate::text::lemma_trim(name);
    let at = choose|i: int| #[trigger] crate::text::occurs_at(name, t, i);
    assert forall|i: int| 0 <= i < t.len() implies #[trigger] t[i] == name[at + i] by {
        assert(name.subrange(at, at + t.len())[i] == name[at + i]);
    }
    if valid_name(name) {
        valid_names_are_components(name);
        assert(!crate::text::white_space(name[at]));
    } else if crate::text::has_char(t, '/') {
        let i = choose|i: int| 0 <= i < t.len() && t[i] == '/';
        assert(name[at + i] == '/');
    } else if crate::text::has_char(t, '\0') {
        let i = choose|i: int| 0 <= i < t.len() && t[i] == '\0';
        assert(name[at + i] == '\0');
    } else if t.len() == 0 {
        crate::text::lemma_trim_start(name);
        let s = crate::text::trim_start(name);
        crate::text::lemma_trim_end(s);
        let k = name.len() - s.len();
        assert forall|i: int| 0 <= i < name.len() implies crate::text::white_space(
            #[trigger] name[i],
        ) by {
            if i >= k {
                assert(s[i - k] == name[i]);
            }
        }
    }
}

/// Each name has its own file, and the files of workspaces are not those of directories:
/// what is saved, renamed or removed under one name touches no other.
pub proof fn names_have_their_own_files(base: Seq<char>, a: Seq<char>, b: Seq<char>)
    requires
        valid_name(a),
        valid_name(b),
    ensures
        workspace_file(base, a) == workspace_file(base, b) ==> a == b,
        directory_file(base, a) == directory_file(base, b) ==> a == b,
        workspace_file(base, a) != directory_file(base, b),
{
    reveal_strlit(".applescript");
    reveal_strlit(".path");
    let x = ".applescript"@;
    let y = ".path"@;
    let dirs = crate::path::joined(base, "dirs"@);
    crate::path::joined_paths_hold_both(base, a + x);
    crate::path::joined_paths_hold_both(base, b + x);
    crate::path::joined_paths_hold_both(dirs, a + y);
    crate::path::joined_paths_hold_both(dirs, b + y);
    if workspace_file(base, a) == workspace_file(base, b) {
        lemma_joined_tells(base, a + x, b + x);
        assert((a + x).take(a.len() as int) =~= a);
        assert((b + x).take(b.len() as int) =~= b);
    }
    if directory_file(base, a) == directory_file(base, b) {
        lemma_joined_tells(dirs, a + y, b + y);
        assert((a + y).take(a.len() as int) =~= a);
        assert((b + y).take(b.len() as int) =~= b);
    }
    let p = workspace_file(base, a);
    let q = directory_file(base, b);
    assert((a + x).last() == 't');
    assert((b + y).last() == 'h');
    assert(p.last() == 't') by {
        let at = p.len() - (a + x).len();
        assert(p.skip(at).last() == p.last());
    }
    assert(q.last() == 'h') by {
        let at = q.len() - (b + y).len();
        assert(q.skip(at).last() == q.last());
    }
}

/// Paths below one base are told apart by the names.
proof fn lemma_joined_tells(base: Seq<char>, a: Seq<char>, b: Seq<char>)
    requires
        crate::path::joined(base, a) == crate::path::joined(base, b),
    ensures
        a == b,
{
    reveal_strlit("/");
    let n: int = if base.len() == 0 || base.last() == '/' {
        base.len() as int
    } else {
        base.len() as int + 1
    };
    assert(crate::path::joined(base, a).skip(n) =~= a);
    assert(crate::path::joined(base, b).skip(n) =~= b);
}

/// The file of a workspace is its name and `.applescript`, below the base; that of a
/// directory is its name and `.path`, in `dirs` below the base.
pub proof fn files_are_named_after_what_they_hold(base: Seq<char>, name: Seq<char>)
    requires
        base.len() == 0 || base.last() == '/',
    ensures
        workspace_file(base, name) == base + name + ".applescript"@,
        directory_file(base, name) == base + "dirs/"@ + name + ".path"@,
        base.len() > 0 ==> workspace_file(base.drop_last(), name) == base + name + ".applescript"@
            || base.len() == 1 || base[base.len() - 2] == '/',
{
    reveal_strlit("dirs");
    reveal_strlit("dirs/");
    reveal_strlit("/");
    assert(workspace_file(base, name) =~= base + name + ".applescript"@);
    let dirs = crate::path::joined(base, "dirs"@);
    assert(dirs =~= base + "dirs"@);
    assert(dirs.last() == 's');
    assert(directory_file(base, name) =~= base + "dirs/"@ + name + ".path"@);
    if base.len() > 1 && base[base.len() - 2] != '/' {
        let b = base.drop_last();
        assert(b.last() == base[base.len() - 2]);
        assert(b + "/"@ =~= base);
        assert(workspace_file(b, name) =~= base + name + ".applescript"@);
    }
}

/// A workspace that was saved is listed under its name; a file with another extension is
/// not listed.
pub proof fn saved_names_are_listed(file: WorkspaceFile, name: Seq<char>, home: Seq<char>)
    requires
        valid_name(name),
    ensures
        file.file_name@ == name + ".applescript"@ ==> match workspace_in(file, home) {
            Some(w) => w.name == name && w.path == file.path@ && (file.content is None ==> w.tabs.len()
                == 0 && w.layout.len() == 0),
            None => false,
        },
        workspace_in(file, home) is Some ==> exists|stem: Seq<char>|
            file.file_name@ == #[trigger] (stem + ".applescript"@),
{
    reveal_strlit(".applescript");
    reveal_strlit("applescript");
    let ext = "applescript"@;
    valid_names_are_components(name);
    assert(!crate::text::has_char(ext, '.'));
    crate::path::extensions_are_split_off(file.file_name@, name, ext);
    assert(".applescript"@ =~= seq!['.'] + ext);
    assert(name + ".applescript"@ =~= name + seq!['.'] + ext);
    if let Some((s, e)) = crate::path::stem_and_extension(file.file_name@) {
        if e == ext {
            assert(file.file_name@ =~= s + ".applescript"@);
        }
    }
}

/// A directory that was saved is listed under its name with its path, whatever white space
/// its path holds; one whose file holds nothing is not listed.
pub proof fn saved_directories_are_listed(file: DirectoryFile, name: Seq<char>, path: Seq<char>)
    requires
        valid_name(name),
        path.len() > 0,
        path.last() != '\n',
        path.last() != '\r',
        file.file_name@ == name + ".path"@,
    ensures
        file.content@ == path ==> directory_in(file) == Some((name, path)),
        file.content@ == path + seq!['\n'] ==> directory_in(file) == Some((name, path)),
        file.content@.len() == 0 ==> directory_in(file) is None,
{
    reveal_strlit(".path");
    reveal_strlit("path");
    let ext = "path"@;
    valid_names_are_components(name);
    assert(!crate::text::has_char(ext, '.'));
    crate::path::extensions_are_split_off(file.file_name@, name, ext);
    assert(name + ".path"@ =~= name + seq!['.'] + ext);
    assert((path + seq!['\n']).drop_last() =~= path);
    assert(crate::text::trim_line_breaks(path) == path);
    assert(crate::text::trim_line_breaks(path + seq!['\n']) == path);
}

/// Every file is listed for itself: what two lists of files hold is what the first holds
/// and what the second holds.
pub proof fn files_are_listed_for_themselves(
    a: Seq<WorkspaceFile>,
    b: Seq<WorkspaceFile>,
    file: WorkspaceFile,
    home: Seq<char>,
)
    ensures
        workspaces_in(a + b, home) == workspaces_in(a, home) + workspaces_in(b, home),
        workspaces_in(seq![file], home) == (match workspace_in(file, home) {
            Some(w) => seq![w],
            None => Seq::<WorkspaceView>::empty(),
        }),
    decreases b.len(),
{
    assert(seq![file].drop_last() =~= Seq::<WorkspaceFile>::empty());
    assert(workspaces_in(Seq::<WorkspaceFile>::empty(), home) =~= Seq::<WorkspaceView>::empty());
    assert(workspaces_in(seq![file], home) =~= (match workspace_in(file, home) {
        Some(w) => seq![w],
        None => Seq::<WorkspaceView>::empty(),
    }));
    if b.len() == 0 {
        assert(a + b =~= a);
        assert(workspaces_in(a, home) + workspaces_in(b, home) =~= workspaces_in(a, home));
    } else {
        files_are_listed_for_themselves(a, b.drop_last(), file, home);
        assert((a + b).drop_last() =~= a + b.drop_last());
        assert((a + b).last() == b.last());
        assert(workspaces_in(a + b, home) =~= workspaces_in(a, home) + workspaces_in(b, home));
    }
}

/// So are the files of directories.
pub proof fn directory_files_are_listed_for_themselves(
    a: Seq<DirectoryFile>,
    b: Seq<DirectoryFile>,
    file: DirectoryFile,
)
    ensures
        directories_in(a + b) == directories_in(a) + directories_in(b),
        directories_in(seq![file]) == (match directory_in(file) {
            Some(d) => seq![d],
            None => Seq::<(Seq<char>, Seq<char>)>::empty(),
        }),
    decreases b.len(),
{
    assert(seq![file].drop_last() =~= Seq::<DirectoryFile>::empty());
    assert(directories_in(Seq::<DirectoryFile>::empty()) =~= Seq::<(Seq<char>, Seq<char>)>::empty());
    assert(directories_in(seq![file]) =~= (match directory_in(file) {
        Some(d) => seq![d],
        None => Seq::<(Seq<char>, Seq<char>)>::empty(),
    }));
    if b.len() == 0 {
        assert(a + b =~= a);
        assert(directories_in(a) + directories_in(b) =~= directories_in(a));
    } else {
        directory_files_are_listed_for_themselves(a, b.drop_last(), file);
        assert((a + b).drop_last() =~= a + b.drop_last());
        assert((a + b).last() == b.last());
        assert(directories_in(a + b) =~= directories_in(a) + directories_in(b));
    }
}

/// The printed list of workspaces reads back as their names, in their order.
pub proof fn printed_names_read_back(names: Seq<Seq<char>>)
    requires
        names.len() > 0,
        forall|i: int| 0 <= i < names.len() ==> crate::text::plain_line(#[trigger] names[i]),
    ensures
        ({
            let lines = crate::text::lines(workspace_list_text(names));
            &&& lines.len() == names.len() + 1
            &&& forall|i: int|
                0 <= i < names.len() ==> (#[trigger] lines[i + 1]).take(4) == seq![
                    ' ',
                    ' ',
                    '-',
                    ' ',
                ] && lines[i + 1].skip(4) == names[i]
        }),
{
    reveal_strlit("Workspaces:");
    reveal_strlit("  - ");
    reveal_strlit("\n");
    assert("\n"@ =~= seq!['\n']);
    let head = "Workspaces:"@;
    let all = seq![head] + names.map_values(|name: Seq<char>| "  - "@ + name);
    assert forall|i: int| 0 <= i < all.len() implies crate::text::plain_line(#[trigger] all[i]) by {
        if i == 0 {
            assert(!crate::text::has_char(head, '\n'));
        } else {
            let name = names[i - 1];
            assert(crate::text::plain_line(name));
            assert(all[i] == "  - "@ + name);
            assert(!crate::text::has_char("  - "@, '\n'));
            crate::text::lemma_concat_absent("  - "@, name, '\n');
            if name.len() > 0 {
                assert(all[i].last() == name.last());
            } else {
                assert(all[i].last() == ' ');
            }
        }
    }
    assert(all.last() == "  - "@ + names.last());
    crate::text::lines_of_join(all);
    let lines = crate::text::lines(workspace_list_text(names));
    assert(lines == all);
    assert forall|i: int| 0 <= i < names.len() implies (#[trigger] lines[i + 1]).take(4) == seq![
        ' ',
        ' ',
        '-',
        ' ',
    ] && lines[i + 1].skip(4) == names[i] by {
        assert(lines[i + 1] == "  - "@ + names[i]);
        assert(lines[i + 1].take(4) =~= seq![' ', ' ', '-', ' ']);
        assert(lines[i + 1].skip(4) =~= names[i]);
    }
}

// What requests have to do with each other.
/// Renaming a workspace moves its file, and renaming it back moves it back; a rename that
/// would write over another workspace is refused.
pub proof fn renames_can_be_undone(env: &AppEnv, old_name: &str, new_name: &str)
    requires
        valid_name(old_name@),
        valid_name(new_name@),
        old_name@ != new_name@,
    ensures
        forall|there: Result<RenamePlan, Error>, back: Result<RenamePlan, Error>|
            #![trigger call_ensures(AppEnv::rename_workspace, (env, old_name, new_name, true, false), there), call_ensures(AppEnv::rename_workspace, (env, new_name, old_name, true, false), back)]
            call_ensures(
                AppEnv::rename_workspace,
                (env, old_name, new_name, true, false),
                there,
            ) && call_ensures(
                AppEnv::rename_workspace,
                (env, new_name, old_name, true, false),
                back,
            ) ==> match (there, back) {
                (
                    Ok(RenamePlan::Move { from, to }),
                    Ok(RenamePlan::Move { from: from_back, to: to_back }),
                ) => from@ == to_back@ && to@ == from_back@ && from@ != to@,
                _ => false,
            },
        forall|r: Result<RenamePlan, Error>| #[trigger]
            call_ensures(
                AppEnv::rename_workspace,
                (env, old_name, new_name, true, true),
                r,
            ) ==> r is Err,
{
    names_have_their_own_files(env.base_dir@, old_name@, new_name@);
}

/// The printed settings show each setting on a line of its own.
pub proof fn printed_settings_are_shown(
    close_tab: bool,
    shortcut: Seq<char>,
    config_path: Seq<char>,
    include_path: Seq<char>,
)
    requires
        crate::text::plain_line(shortcut),
        crate::text::plain_line(config_path),
        crate::text::plain_line(include_path),
        shortcut.len() > 0,
        config_path.len() > 0,
        include_path.len() > 0,
    ensures
        ({
            let lines = crate::text::lines(
                settings_display(close_tab, shortcut, config_path, include_path),
            );
            &&& lines.len() >= 5
            &&& lines[1] == (if close_tab {
                "  close_tab = on"@
            } else {
                "  close_tab = off"@
            })
            &&& lines[2] == "  ghostty_shortcut = "@ + shortcut
            &&& lines[3] == "  ghostty_config = "@ + config_path
            &&& lines[4] == "  ghostty_include = "@ + include_path
        }),
{
    reveal_strlit("Settings:\n  close_tab = ");
    reveal_strlit("Settings:");
    reveal_strlit("  close_tab = on");
    reveal_strlit("  close_tab = off");
    reveal_strlit("on");
    reveal_strlit("off");
    reveal_strlit("\n  ghostty_shortcut = ");
    reveal_strlit("  ghostty_shortcut = ");
    reveal_strlit("\n  ghostty_config = ");
    reveal_strlit("  ghostty_config = ");
    reveal_strlit("\n  ghostty_include = ");
    reveal_strlit("  ghostty_include = ");
    reveal_strlit("\n  ");
    reveal_strlit("  ");
    let br = seq!['\n'];
    let a = "Settings:"@;
    let b = if close_tab {
        "  close_tab = on"@
    } else {
        "  close_tab = off"@
    };
    let c = "  ghostty_shortcut = "@ + shortcut;
    let d = "  ghostty_config = "@ + config_path;
    let e = "  ghostty_include = "@ + include_path;
    let note = if crate::config::shortcut_disabled(shortcut) {
        "Ghostty-local shortcut is disabled. Run `gtab init` to restore the default same-shell Cmd+G."@
    } else {
        "Ghostty-local shortcut is the default fast path. It types `gtab` into the focused Ghostty shell and only works when Ghostty is focused."@
    };
    let f = "  "@ + note;
    let whole = settings_display(close_tab, shortcut, config_path, include_path);
    assert(whole =~= a + br + (b + br + (c + br + (d + br + (e + br + f)))));
    assert(!crate::text::has_char(a, '\n'));
    assert(!crate::text::has_char(b, '\n'));
    assert(!crate::text::has_char("  ghostty_shortcut = "@, '\n'));
    assert(!crate::text::has_char("  ghostty_config = "@, '\n'));
    assert(!crate::text::has_char("  ghostty_include = "@, '\n'));
    crate::text::lemma_concat_absent("  ghostty_shortcut = "@, shortcut, '\n');
    crate::text::lemma_concat_absent("  ghostty_config = "@, config_path, '\n');
    crate::text::lemma_concat_absent("  ghostty_include = "@, include_path, '\n');
    assert(c.last() == shortcut.last());
    assert(d.last() == config_path.last());
    assert(e.last() == include_path.last());
    crate::text::lemma_lines_front(a, b + br + (c + br + (d + br + (e + br + f))));
    crate::text::lemma_lines_front(b, c + br + (d + br + (e + br + f)));
    crate::text::lemma_lines_front(c, d + br + (e + br + f));
    crate::text::lemma_lines_front(d, e + br + f);
    crate::text::lemma_lines_front(e, f);
}

} // verus!
