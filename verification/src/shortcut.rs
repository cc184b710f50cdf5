//! Setting up the shortcut: which files are written or removed, and what is reported.

use vstd::prelude::*;

use crate::config::{
    build_ghostty_shortcut_include, is_shortcut_disabled, plan_config_sync,
    render_ghostty_include_config_line, ConfigPlan, GHOSTTY_EXTERNAL_CONFIG_REASON,
};
use crate::path::{join_path, lies_under};
use crate::text::same_str;

verus! {

/// The files through which Ghostty learns of a shortcut.
#[derive(Clone, Debug, PartialEq, Eq)]
pub struct GhosttyShortcutSync {
    pub config_path: String,
    pub include_path: String,
    pub shortcut: String,
}

/// How setting up a shortcut went.
#[derive(Clone, Copy, Debug, PartialEq, Eq, Structural)]
pub enum GhosttyShortcutApplyStatus {
    UpdatedConfig,
    AlreadyConfigured,
    ManualConfigRequired,
    ManualConfigRemovalRequired,
}

/// How setting up a shortcut went, and with which files.
#[derive(Clone, Debug, PartialEq, Eq)]
pub struct GhosttyShortcutApplyResult {
    pub sync: GhosttyShortcutSync,
    pub status: GhosttyShortcutApplyStatus,
    pub reason: Option<String>,
}

impl GhosttyShortcutApplyResult {
    /// The line that refers Ghostty to the shortcut's file.
    pub fn include_config_line(&self) -> (r: String)
        ensures
            r@ == crate::config::reference_line(self.sync.include_path@),
    {
        render_ghostty_include_config_line(self.sync.include_path.as_str())
    }
}

/// How syncing a Ghostty configuration went.
#[derive(Clone, Debug, PartialEq, Eq)]
pub enum GhosttyConfigSync {
    Updated,
    Unchanged,
    ManualConfigRequired { reason: String },
}

/// How writing a file went.
#[derive(Clone, Copy, Debug, PartialEq, Eq, Structural)]
pub enum WriteOutcome {
    Written,
    /// The file may not be written.
    ReadOnly,
}

/// The operating system's code for a read-only file system.
pub const READ_ONLY_FILE_SYSTEM: i32 = 30;

/// Whether a failed write means that the file may not be written, and not that something
/// went wrong.
pub fn is_manual_config_error(permission_denied: bool, os_code: Option<i32>) -> (r: bool)
    ensures
        r == (permission_denied || os_code == Some(READ_ONLY_FILE_SYSTEM)),
{
    permission_denied || match os_code {
        Some(code) => code == READ_ONLY_FILE_SYSTEM,
        None => false,
    }
}

/// Whether a path lies in the Nix store, where files are managed externally.
pub fn is_in_nix_store(path: &str) -> (r: bool)
    ensures
        r == crate::path::under(path@, "nix"@, "store"@),
{
    lies_under(path, "nix", "store")
}

/// Whether a configuration is managed externally: it lies in the Nix store, or its links
/// lead there. `resolved` is where they lead, if that could be found.
pub fn is_externally_managed(config_path: &str, resolved: Option<&str>) -> (r: bool)
    ensures
        r == (crate::path::under(config_path@, "nix"@, "store"@) || (resolved matches Some(path)
            && crate::path::under(path@, "nix"@, "store"@))),
{
    if is_in_nix_store(config_path) {
        return true;
    }
    match resolved {
        Some(path) => is_in_nix_store(path),
        None => false,
    }
}

/// Reports how syncing a configuration went: `outcome` is that of the write, where the
/// plan was to write.
pub fn config_sync_result(plan: &ConfigPlan, outcome: WriteOutcome) -> (r: GhosttyConfigSync)
    ensures
        match *plan {
            ConfigPlan::Keep => r is Unchanged,
            ConfigPlan::Write(_) if outcome == WriteOutcome::Written => r is Updated,
            _ => r matches GhosttyConfigSync::ManualConfigRequired { reason } && reason@
                == GHOSTTY_EXTERNAL_CONFIG_REASON@,
        },
{
    match plan {
        ConfigPlan::Keep => GhosttyConfigSync::Unchanged,
        ConfigPlan::Write(_) => match outcome {
            WriteOutcome::Written => GhosttyConfigSync::Updated,
            WriteOutcome::ReadOnly => GhosttyConfigSync::ManualConfigRequired {
                reason: GHOSTTY_EXTERNAL_CONFIG_REASON.to_string(),
            },
        },
        ConfigPlan::Manual => GhosttyConfigSync::ManualConfigRequired {
            reason: GHOSTTY_EXTERNAL_CONFIG_REASON.to_string(),
        },
    }
}

/// What is to be done with the shortcut's own file.
#[derive(Clone, Debug, PartialEq, Eq)]
pub enum FilePlan {
    Keep,
    Write(String),
    Remove,
}

/// What is found of the two files before they are synced.
#[derive(Clone, Debug)]
pub struct ShortcutFiles {
    /// The text of the shortcut's own file, if it can be read.
    pub include_text: Option<String>,
    /// Whether there is such a file.
    pub include_exists: bool,
    /// The text of the Ghostty configuration, if there is one.
    pub config_text: Option<String>,
    /// Whether the configuration is managed elsewhere.
    pub externally_managed: bool,
}

/// What is to be done with the two files. A shortcut's own file is written before the
/// reference to it, and removed after that.
#[derive(Clone, Debug, PartialEq, Eq)]
pub struct ShortcutPlan {
    pub enabled: bool,
    pub own_file: FilePlan,
    pub config: ConfigPlan,
}

/// The text of an optional string.
fn as_text(value: &Option<String>) -> (r: Option<&str>)
    ensures
        match (r, *value) {
            (Some(a), Some(b)) => a@ == b@,
            (None, None) => true,
            _ => false,
        },
{
    match value {
        Some(s) => Some(s.as_str()),
        None => None,
    }
}

/// The plan for the shortcut's own file.
pub open spec fn include_plan(shortcut: Seq<char>, files: ShortcutFiles, plan: FilePlan) -> bool {
    if crate::config::shortcut_disabled(shortcut) {
        plan == if files.include_exists {
            FilePlan::Remove
        } else {
            FilePlan::Keep
        }
    } else if crate::text::opt_view(files.include_text) == Some(
        crate::config::shortcut_file_text(shortcut),
    ) {
        plan is Keep
    } else {
        plan matches FilePlan::Write(text) && text@ == crate::config::shortcut_file_text(shortcut)
    }
}

/// The plan for the Ghostty configuration.
pub open spec fn reference_plan(
    enabled: bool,
    include_path: Seq<char>,
    files: ShortcutFiles,
    plan: ConfigPlan,
) -> bool {
    match crate::text::opt_view(files.config_text) {
        None => if !enabled {
            plan is Keep
        } else if files.externally_managed {
            plan is Manual
        } else {
            plan matches ConfigPlan::Write(text) && text@
                == crate::config::config_text_with_reference(seq![], include_path)
        },
        Some(existing) => {
            let next = crate::config::synced_config(existing, include_path, enabled);
            if next == existing {
                plan is Keep
            } else if files.externally_managed {
                plan is Manual
            } else {
                plan matches ConfigPlan::Write(text) && text@ == next
            }
        },
    }
}

/// Decides what is to be done to set up a shortcut, or to take it out.
pub fn plan_shortcut_sync(sync: &GhosttyShortcutSync, files: &ShortcutFiles) -> (r: ShortcutPlan)
    ensures
        r.enabled == !crate::config::shortcut_disabled(sync.shortcut@),
        include_plan(sync.shortcut@, *files, r.own_file),
        reference_plan(r.enabled, sync.include_path@, *files, r.config),
{
    let enabled = !is_shortcut_disabled(sync.shortcut.as_str());
    let own_file = if enabled {
        let text = build_ghostty_shortcut_include(sync.shortcut.as_str());
        match &files.include_text {
            Some(current) => if same_str(current.as_str(), text.as_str()) {
                FilePlan::Keep
            } else {
                FilePlan::Write(text)
            },
            None => FilePlan::Write(text),
        }
    } else if files.include_exists {
        FilePlan::Remove
    } else {
        FilePlan::Keep
    };
    let config = plan_config_sync(
        as_text(&files.config_text),
        sync.include_path.as_str(),
        enabled,
        files.externally_managed,
    );
    ShortcutPlan { enabled, own_file, config }
}

/// A copy of the files.
pub fn copy_sync(sync: &GhosttyShortcutSync) -> (r: GhosttyShortcutSync)
    ensures
        r == *sync,
{
    GhosttyShortcutSync {
        config_path: sync.config_path.clone(),
        include_path: sync.include_path.clone(),
        shortcut: sync.shortcut.clone(),
    }
}

/// Reports how setting up a shortcut went, once the plan was carried out: `outcome` is
/// that of writing the configuration, where the plan was to write it.
pub fn shortcut_sync_result(
    sync: &GhosttyShortcutSync,
    plan: &ShortcutPlan,
    outcome: WriteOutcome,
) -> (r: GhosttyShortcutApplyResult)
    ensures
        r.sync == *sync,
        match plan.config {
            ConfigPlan::Keep => r.reason is None && r.status == if plan.own_file is Keep {
                GhosttyShortcutApplyStatus::AlreadyConfigured
            } else {
                GhosttyShortcutApplyStatus::UpdatedConfig
            },
            ConfigPlan::Write(_) if outcome == WriteOutcome::Written => r.reason is None && r.status
                == GhosttyShortcutApplyStatus::UpdatedConfig,
            _ => crate::text::opt_view(r.reason) == Some(GHOSTTY_EXTERNAL_CONFIG_REASON@)
                && r.status == if plan.enabled {
                GhosttyShortcutApplyStatus::ManualConfigRequired
            } else {
                GhosttyShortcutApplyStatus::ManualConfigRemovalRequired
            },
        },
{
    let include_changed = match plan.own_file {
        FilePlan::Keep => false,
        _ => true,
    };
    let config = config_sync_result(&plan.config, outcome);
    match config {
        GhosttyConfigSync::Updated => GhosttyShortcutApplyResult {
            sync: copy_sync(sync),
            status: GhosttyShortcutApplyStatus::UpdatedConfig,
            reason: None,
        },
        GhosttyConfigSync::Unchanged => GhosttyShortcutApplyResult {
            sync: copy_sync(sync),
            status: if include_changed {
                GhosttyShortcutApplyStatus::UpdatedConfig
            } else {
                GhosttyShortcutApplyStatus::AlreadyConfigured
            },
            reason: None,
        },
        GhosttyConfigSync::ManualConfigRequired { reason } => GhosttyShortcutApplyResult {
            sync: copy_sync(sync),
            status: if plan.enabled {
                GhosttyShortcutApplyStatus::ManualConfigRequired
            } else {
                GhosttyShortcutApplyStatus::ManualConfigRemovalRequired
            },
            reason: Some(reason),
        },
    }
}

// Where the configuration is.
/// The directory of Ghostty's configuration.
pub open spec fn ghostty_dir(home: Seq<char>, xdg: Option<Seq<char>>) -> Seq<char> {
    let base = match xdg {
        Some(dir) => dir,
        None => crate::path::joined(home, ".config"@),
    };
    crate::path::joined(base, "ghostty"@)
}

/// The two files that Ghostty reads, the preferred one first.
#[derive(Clone, Debug, PartialEq, Eq)]
pub struct ConfigCandidates {
    pub preferred: String,
    pub legacy: String,
}

/// The two files that Ghostty reads.
pub fn ghostty_config_candidates(home: &str, xdg_config_home: Option<&str>) -> (r:
    ConfigCandidates)
    ensures
        ({
            let dir = ghostty_dir(
                home@,
                match xdg_config_home {
                    Some(dir) => Some(dir@),
                    None => None,
                },
            );
            &&& r.preferred@ == crate::path::joined(dir, "config.ghostty"@)
            &&& r.legacy@ == crate::path::joined(dir, "config"@)
        }),
{
    let base = match xdg_config_home {
        Some(dir) => dir.to_string(),
        None => join_path(home, ".config"),
    };
    let dir = join_path(base.as_str(), "ghostty");
    ConfigCandidates {
        preferred: join_path(dir.as_str(), "config.ghostty"),
        legacy: join_path(dir.as_str(), "config"),
    }
}

/// The file that is synced: the preferred one, unless only the other exists.
pub fn resolve_ghostty_config_path(
    candidates: &ConfigCandidates,
    preferred_exists: bool,
    legacy_exists: bool,
) -> (r: String)
    ensures
        r@ == if !preferred_exists && legacy_exists {
            candidates.legacy@
        } else {
            candidates.preferred@
        },
{
    if !preferred_exists && legacy_exists {
        candidates.legacy.clone()
    } else {
        candidates.preferred.clone()
    }
}

// What carrying out a plan comes to.
/// The text of the shortcut's own file once the plan for it was carried out.
pub open spec fn own_file_after(files: ShortcutFiles, plan: FilePlan) -> Option<Seq<char>> {
    match plan {
        FilePlan::Keep => crate::text::opt_view(files.include_text),
        FilePlan::Write(text) => Some(text@),
        FilePlan::Remove => None,
    }
}

/// The text of the configuration once the plan for it was carried out.
pub open spec fn config_after(files: ShortcutFiles, plan: ConfigPlan) -> Option<Seq<char>> {
    match plan {
        ConfigPlan::Keep => crate::text::opt_view(files.config_text),
        ConfigPlan::Manual => crate::text::opt_view(files.config_text),
        ConfigPlan::Write(text) => Some(text@),
    }
}

/// Once the plan is carried out, the shortcut's own file binds the shortcut and nothing
/// else, or it is gone where the shortcut is off.
pub proof fn own_file_binds_the_shortcut(
    shortcut: Seq<char>,
    files: ShortcutFiles,
    plan: FilePlan,
)
    requires
        include_plan(shortcut, files, plan),
        !crate::text::has_char(shortcut, '='),
        !crate::text::has_char(shortcut, '\n'),
        !files.include_exists ==> files.include_text is None,
    ensures
        ({
            let s = crate::text::trim(shortcut);
            let after = own_file_after(files, plan);
            if s == "off"@ || s == "none"@ || s == "disabled"@ {
                after is None
            } else {
                after is Some && crate::config::bindings_of(crate::text::lines(after->0)) == seq![
                    (s, "text:gtab\\x0d"@),
                ]
            }
        }),
{
    crate::config::file_binds_the_shortcut(shortcut);
}

/// Once the plan is carried out, the configuration refers to the shortcut's file in its
/// last line and nowhere else, or nowhere at all where the shortcut is off; the user's own
/// lines are what they were. Only a configuration that is managed elsewhere is left to the
/// user.
pub proof fn configuration_refers_to_the_file(
    enabled: bool,
    path: Seq<char>,
    files: ShortcutFiles,
    plan: ConfigPlan,
)
    requires
        reference_plan(enabled, path, files, plan),
        crate::config::quotable(path),
        files.config_text matches Some(text) ==> crate::config::no_stray_returns(text@),
    ensures
        plan is Manual ==> files.externally_managed,
        files.config_text is None && !enabled ==> config_after(files, plan) is None,
        plan !is Manual && (enabled || files.config_text is Some) ==> {
            let before = match crate::text::opt_view(files.config_text) {
                Some(text) => crate::text::lines(text),
                None => seq![],
            };
            let after = config_after(files, plan);
            let lines = crate::text::lines(after->0);
            &&& after is Some
            &&& enabled ==> lines.len() > 0 && lines.last() == "config-file = \""@ + path + "\""@
            &&& forall|i: int|
                0 <= i < lines.len() - (if enabled {
                    1int
                } else {
                    0int
                }) ==> !crate::config::is_reference(#[trigger] lines[i], path)
            &&& crate::config::without_references(lines, path)
                == crate::config::without_references(before, path)
        },
{
    let none = Seq::<char>::empty();
    assert(crate::text::lines(none) =~= Seq::<Seq<char>>::empty());
    let existing = match crate::text::opt_view(files.config_text) {
        Some(text) => text,
        None => none,
    };
    assert(crate::config::no_stray_returns(existing));
    assert(crate::config::without_references(Seq::<Seq<char>>::empty(), path) =~= Seq::<
        Seq<char>,
    >::empty());
    crate::config::synced_config_refers_once(existing, path);
    crate::config::syncing_settles(existing, path, enabled, enabled);
}

} // verus!
