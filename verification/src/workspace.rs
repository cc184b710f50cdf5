//! Saved workspaces: the tabs that a saved script restores, and how it is launched.

use vstd::prelude::*;

use crate::applescript::{
    apple_escape, parse_indexed_assignment, parse_term_title, parse_title_assignment,
};
use crate::capture::looks_like_shell_default_title;
use crate::layout::WorkspaceTabLayout;
use crate::number::{parse_usize, usize_string};
use crate::text::{
    chars_of, has_prefix, is_empty_str, is_text, lines_slice, split_slice, string_of,
    strip_prefix_slice, trim_slice, trim_start_slice,
};

verus! {

/// A tab of a saved workspace.
#[derive(Clone, Debug)]
pub struct WorkspaceTab {
    pub title: String,
    pub working_dir: Option<String>,
}

/// A saved workspace.
#[derive(Clone, Debug)]
pub struct Workspace {
    pub name: String,
    pub path: String,
    pub tabs: Vec<WorkspaceTab>,
    pub layout: Vec<WorkspaceTabLayout>,
}

/// A saved directory.
#[derive(Clone, Debug, PartialEq, Eq)]
pub struct SavedDirectory {
    pub name: String,
    pub path: String,
}

/// A tab to relaunch: where it starts, and its title if it has one.
#[derive(Clone, Debug)]
pub struct TabRow {
    pub working_dir: String,
    pub title: String,
}

/// How a saved workspace is launched.
#[derive(Clone, Copy, Debug, PartialEq, Eq, Structural)]
pub enum WorkspaceLaunchMode {
    /// The script uses configuration that is not reconstructed: run it as it is.
    DirectLegacy,
    /// The script's tabs are known, or it restores several windows: run it, and move the
    /// window where it opens only one.
    DirectSplit,
    /// Nothing of the script was understood: run it as it is.
    DirectFallback,
}

// The tabs of a saved script.
/// What a script says of a tab.
pub struct TabSlot {
    pub working_dir: Option<Seq<char>>,
    pub title: Option<Seq<char>>,
}

/// A tab of which nothing was said.
pub open spec fn empty_slot() -> TabSlot {
    TabSlot { working_dir: None, title: None }
}

/// The slots, with empty ones behind them up to `n`.
pub open spec fn grown(slots: Seq<TabSlot>, n: int) -> Seq<TabSlot> {
    if n <= slots.len() {
        slots
    } else {
        slots + Seq::new((n - slots.len()) as nat, |i: int| empty_slot())
    }
}

/// What one line says of a tab: its working directory, or its title.
pub enum TabFact {
    Dir(int, Seq<char>),
    Title(int, Seq<char>),
    Nothing,
}

/// What a line of a script says of a tab.
pub open spec fn tab_fact(line: Seq<char>) -> TabFact {
    let trimmed = crate::text::trim(line);
    match crate::applescript::indexed_assignment(
        trimmed,
        "set initial working directory of cfg"@,
        " to "@,
    ) {
        Some((index, dir)) => TabFact::Dir(index, dir),
        None => match crate::applescript::title_assignment(trimmed) {
            Some((index, title)) => TabFact::Title(index, title),
            None => TabFact::Nothing,
        },
    }
}

/// The slots after one more fact. Tabs are numbered from 1.
pub open spec fn with_fact(slots: Seq<TabSlot>, fact: TabFact) -> Seq<TabSlot> {
    match fact {
        TabFact::Dir(index, dir) => {
            let all = grown(slots, index);
            all.update(
                index - 1,
                TabSlot { working_dir: Some(dir), title: all[index - 1].title },
            )
        },
        TabFact::Title(index, title) => {
            let all = grown(slots, index);
            all.update(
                index - 1,
                TabSlot { working_dir: all[index - 1].working_dir, title: Some(title) },
            )
        },
        TabFact::Nothing => slots,
    }
}

/// The tabs that lines speak of.
pub open spec fn tab_slots(lines: Seq<Seq<char>>) -> Seq<TabSlot>
    decreases lines.len(),
{
    if lines.len() == 0 {
        seq![]
    } else {
        with_fact(tab_slots(lines.drop_last()), tab_fact(lines.last()))
    }
}

/// A fact about a tab that has a number.
pub open spec fn fact_numbered(fact: TabFact) -> bool {
    match fact {
        TabFact::Dir(index, _) => index >= 1,
        TabFact::Title(index, _) => index >= 1,
        TabFact::Nothing => true,
    }
}

/// No line of the script speaks of a tab 0.
pub open spec fn tabs_numbered(script: Seq<char>) -> bool {
    forall|i: int|
        0 <= i < crate::text::lines(script).len() ==> fact_numbered(
            tab_fact(#[trigger] crate::text::lines(script)[i]),
        )
}

/// What a script says of a tab.
pub struct ParsedWorkspaceTab {
    pub working_dir: Option<String>,
    pub title: Option<String>,
}

impl View for ParsedWorkspaceTab {
    type V = TabSlot;

    open spec fn view(&self) -> TabSlot {
        TabSlot {
            working_dir: crate::text::opt_view(self.working_dir),
            title: crate::text::opt_view(self.title),
        }
    }
}

/// What is known of a list of tabs.
pub open spec fn slot_views(tabs: Seq<ParsedWorkspaceTab>) -> Seq<TabSlot> {
    tabs.map_values(|t: ParsedWorkspaceTab| t@)
}

/// A copy of an optional string.
pub fn clone_option(value: &Option<String>) -> (r: Option<String>)
    ensures
        crate::text::opt_view(r) == crate::text::opt_view(*value),
{
    match value {
        Some(s) => Some(s.clone()),
        None => None,
    }
}

/// Whether no line of the script speaks of a tab 0, which no workspace has.
pub fn numbers_tabs_from_one(script: &str) -> (r: bool)
    ensures
        r == tabs_numbered(script@),
{
    let script_chars = chars_of(script);
    let lines = lines_slice(script_chars.as_slice());
    let ghost all = crate::text::lines(script@);
    for i in 0..lines.len()
        invariant
            all == crate::text::views(lines@),
            all == crate::text::lines(script@),
            forall|j: int| 0 <= j < i ==> fact_numbered(tab_fact(#[trigger] all[j])),
    {
        let trimmed = trim_slice(lines[i]);
        assert(all[i as int] == lines@[i as int]@);
        match parse_indexed_assignment(trimmed, "set initial working directory of cfg", " to ") {
            Some((index, _)) => {
                if index == 0 {
                    assert(!fact_numbered(tab_fact(all[i as int])));
                    return false;
                }
            },
            None => {
                if let Some((index, _)) = parse_title_assignment(trimmed) {
                    if index == 0 {
                        assert(!fact_numbered(tab_fact(all[i as int])));
                        return false;
                    }
                }
            },
        }
    }
    true
}

/// Makes room for the tab with this number.
fn ensure_tab_slot(tabs: &mut Vec<ParsedWorkspaceTab>, index: usize)
    ensures
        slot_views(final(tabs)@) == grown(slot_views(old(tabs)@), index as int),
        final(tabs).len() >= index,
{
    let ghost start = slot_views(tabs@);
    while tabs.len() < index
        invariant
            start.len() <= tabs.len(),
            start.len() < tabs.len() ==> tabs.len() <= index,
            slot_views(tabs@) == grown(start, tabs.len() as int),
        decreases index - tabs.len(),
    {
        let ghost before = tabs@;
        tabs.push(ParsedWorkspaceTab { working_dir: None, title: None });
        assert(slot_views(tabs@) == slot_views(before).push(empty_slot()));
        assert(slot_views(tabs@) == grown(start, tabs.len() as int));
    }
}

/// Reads the tabs that a saved script restores.
pub fn parsed_workspace_tabs(script: &str) -> (r: Vec<ParsedWorkspaceTab>)
    requires
        tabs_numbered(script@),
    ensures
        slot_views(r@) == tab_slots(crate::text::lines(script@)),
{
    let script_chars = chars_of(script);
    let lines = lines_slice(script_chars.as_slice());
    let ghost all = crate::text::lines(script@);
    let mut tabs: Vec<ParsedWorkspaceTab> = Vec::new();
    for i in 0..lines.len()
        invariant
            all == crate::text::views(lines@),
            all == crate::text::lines(script@),
            tabs_numbered(script@),
            slot_views(tabs@) == tab_slots(all.take(i as int)),
    {
        let trimmed = trim_slice(lines[i]);
        let ghost before = slot_views(tabs@);
        assert(all[i as int] == lines@[i as int]@);
        assert(fact_numbered(tab_fact(all[i as int])));
        assert(all.take(i as int + 1).drop_last() == all.take(i as int));
        assert(all.take(i as int + 1).last() == lines@[i as int]@);
        match parse_indexed_assignment(trimmed, "set initial working directory of cfg", " to ") {
            Some((index, working_dir)) => {
                ensure_tab_slot(&mut tabs, index);
                let ghost room = tabs@;
                let title = clone_option(&tabs[index - 1].title);
                let tab = ParsedWorkspaceTab { working_dir: Some(working_dir), title };
                tabs.set(index - 1, tab);
                assert(slot_views(tabs@) == slot_views(room).update(index as int - 1, tab@));
            },
            None => {
                if let Some((index, title)) = parse_title_assignment(trimmed) {
                    ensure_tab_slot(&mut tabs, index);
                    let ghost room = tabs@;
                    let working_dir = clone_option(&tabs[index - 1].working_dir);
                    let tab = ParsedWorkspaceTab { working_dir, title: Some(title) };
                    tabs.set(index - 1, tab);
                    assert(slot_views(tabs@) == slot_views(room).update(index as int - 1, tab@));
                }
            },
        }
    }
    assert(all.take(all.len() as int) == all);
    tabs
}

// Names of tabs.
/// The last of these path components that is a name: `.` and empty ones do not count,
/// and `..` names nothing.
pub open spec fn last_component(parts: Seq<Seq<char>>) -> Option<Seq<char>>
    decreases parts.len(),
{
    if parts.len() == 0 {
        None
    } else if parts.last().len() == 0 || parts.last() == "."@ {
        last_component(parts.drop_last())
    } else if parts.last() == ".."@ {
        None
    } else {
        Some(parts.last())
    }
}

/// The final component of a path, if it is a name.
pub open spec fn file_name(path: Seq<char>) -> Option<Seq<char>> {
    last_component(crate::text::split(path, '/'))
}

/// The name of a tab without a title, the `index`th: `~` for the home directory, else
/// the last component of its working directory, else a number.
pub open spec fn fallback_name(
    index: nat,
    working_dir: Option<Seq<char>>,
    home: Seq<char>,
) -> Seq<char> {
    match working_dir {
        Some(dir) if crate::text::trim(dir).len() > 0 => {
            let dir = crate::text::trim(dir);
            if dir == home {
                "~"@
            } else {
                match file_name(dir) {
                    Some(name) => name,
                    None => dir,
                }
            }
        },
        _ => "Tab "@ + crate::number::decimal(index),
    }
}

/// The final component of a path, if it is a name.
pub fn file_name_slice(path: &[char]) -> (r: Option<&[char]>)
    ensures
        match r {
            Some(name) => file_name(path@) == Some(name@),
            None => file_name(path@) is None,
        },
{
    let parts = split_slice(path, '/');
    let ghost all = crate::text::views(parts@);
    let mut n: usize = parts.len();
    assert(all.take(n as int) == all);
    while n > 0
        invariant
            all == crate::text::views(parts@),
            all == crate::text::split(path@, '/'),
            n <= parts.len(),
            last_component(all) == last_component(all.take(n as int)),
        decreases n,
    {
        let part = parts[n - 1];
        assert(all.take(n as int).last() == part@);
        assert(all.take(n as int).drop_last() == all.take(n as int - 1));
        if part.len() > 0 && !is_text(part, ".") {
            if is_text(part, "..") {
                return None;
            }
            return Some(part);
        }
        n = n - 1;
    }
    None
}

/// The name of a tab without a title.
pub fn fallback_tab_name(index: usize, working_dir: Option<&str>, home: &str) -> (r: String)
    ensures
        r@ == fallback_name(
            index as nat,
            match working_dir {
                Some(dir) => Some(dir@),
                None => None,
            },
            home@,
        ),
{
    if let Some(dir) = working_dir {
        let dir_chars = chars_of(dir);
        let trimmed = trim_slice(dir_chars.as_slice());
        if trimmed.len() > 0 {
            if is_text(trimmed, home) {
                return "~".to_string();
            }
            return match file_name_slice(trimmed) {
                Some(name) => string_of(name),
                None => string_of(trimmed),
            };
        }
    }
    let mut out = "Tab ".to_string();
    out.append(usize_string(index).as_str());
    out
}

/// An optional text, if it is not empty.
pub open spec fn non_empty(value: Option<Seq<char>>) -> Option<Seq<char>> {
    match value {
        Some(s) if s.len() > 0 => value,
        _ => None,
    }
}

/// The working directory that a tab is relaunched in: its own, or the home directory.
pub open spec fn row_dir(slot: TabSlot, home: Seq<char>) -> Seq<char> {
    match non_empty(slot.working_dir) {
        Some(dir) => dir,
        None => home,
    }
}

/// The last title that lines set on the terminal `term` and this number; empty where they
/// set none.
pub open spec fn last_term_title(lines: Seq<Seq<char>>, index: int) -> Seq<char>
    decreases lines.len(),
{
    if lines.len() == 0 {
        ""@
    } else {
        match crate::applescript::term_title(crate::text::trim(lines.last())) {
            Some((number, title)) if number == index => title,
            _ => last_term_title(lines.drop_last(), index),
        }
    }
}

/// The rows that relaunch the tabs which lines speak of: where each starts, and the title
/// that is set on its `term`.
pub open spec fn rows_of(lines: Seq<Seq<char>>, home: Seq<char>) -> Seq<(Seq<char>, Seq<char>)> {
    tab_slots(lines).map(
        |i: int, slot: TabSlot| (row_dir(slot, home), last_term_title(lines, i + 1)),
    )
}

/// What rows hold: working directory and title.
pub open spec fn row_views(rows: Seq<TabRow>) -> Seq<(Seq<char>, Seq<char>)> {
    rows.map_values(|row: TabRow| (row.working_dir@, row.title@))
}

/// The title and working directory of the `i`th tab (from 0) in a preview.
pub open spec fn preview_of(slot: TabSlot, i: int, home: Seq<char>) -> (
    Seq<char>,
    Option<Seq<char>>,
) {
    (
        match non_empty(slot.title) {
            Some(title) => title,
            None => fallback_name((i + 1) as nat, slot.working_dir, home),
        },
        non_empty(slot.working_dir),
    )
}

/// What tabs hold: title and working directory.
pub open spec fn tab_views(tabs: Seq<WorkspaceTab>) -> Seq<(Seq<char>, Option<Seq<char>>)> {
    tabs.map_values(|tab: WorkspaceTab| (tab.title@, crate::text::opt_view(tab.working_dir)))
}

/// Finds the last title that lines set on the terminal `term` and this number.
fn find_term_title(lines: &Vec<&[char]>, index: usize) -> (r: String)
    ensures
        r@ == last_term_title(crate::text::views(lines@), index as int),
{
    let ghost all = crate::text::views(lines@);
    let mut n: usize = lines.len();
    assert(all.take(n as int) == all);
    while n > 0
        invariant
            all == crate::text::views(lines@),
            n <= lines.len(),
            last_term_title(all, index as int) == last_term_title(
                all.take(n as int),
                index as int,
            ),
        decreases n,
    {
        assert(all.take(n as int).last() == lines@[n as int - 1]@);
        assert(all.take(n as int).drop_last() == all.take(n as int - 1));
        if let Some((number, title)) = parse_term_title(trim_slice(lines[n - 1])) {
            if number == index {
                return title;
            }
        }
        n = n - 1;
    }
    "".to_string()
}

/// Reads the rows that relaunch a saved workspace. A row has the title that is set on its
/// `term`; titles that are set on other variables are left to the script.
pub fn parse_workspace_rows(script: &str, home: &str) -> (r: Vec<TabRow>)
    requires
        tabs_numbered(script@),
    ensures
        row_views(r@) == rows_of(crate::text::lines(script@), home@),
{
    let tabs = parsed_workspace_tabs(script);
    let script_chars = chars_of(script);
    let lines = lines_slice(script_chars.as_slice());
    let ghost all = crate::text::lines(script@);
    let ghost slots = slot_views(tabs@);
    let ghost rows = rows_of(all, home@);
    let mut out: Vec<TabRow> = Vec::new();
    for i in 0..tabs.len()
        invariant
            all == crate::text::views(lines@),
            slots == slot_views(tabs@),
            slots == tab_slots(all),
            rows == rows_of(all, home@),
            row_views(out@) == rows.take(i as int),
    {
        let ghost before = out@;
        let tab = &tabs[i];
        assert(slots[i as int] == tab@);
        let working_dir = match &tab.working_dir {
            Some(dir) => if is_empty_str(dir.as_str()) {
                home.to_string()
            } else {
                dir.clone()
            },
            None => home.to_string(),
        };
        let title = find_term_title(&lines, i + 1);
        let row = TabRow { working_dir, title };
        out.push(row);
        assert(row_views(out@) == row_views(before).push((row.working_dir@, row.title@)));
    }
    assert(rows.take(rows.len() as int) == rows);
    out
}

/// Reads the tabs of a saved workspace for its preview.
pub fn parse_workspace_tabs(script: &str, home: &str) -> (r: Vec<WorkspaceTab>)
    requires
        tabs_numbered(script@),
    ensures
        tab_views(r@) == tab_slots(crate::text::lines(script@)).map(
            |i: int, slot: TabSlot| preview_of(slot, i, home@),
        ),
{
    let tabs = parsed_workspace_tabs(script);
    let ghost slots = slot_views(tabs@);
    let ghost previews = slots.map(|i: int, slot: TabSlot| preview_of(slot, i, home@));
    let mut out: Vec<WorkspaceTab> = Vec::new();
    for i in 0..tabs.len()
        invariant
            slots == slot_views(tabs@),
            previews == slots.map(|i: int, slot: TabSlot| preview_of(slot, i, home@)),
            tab_views(out@) == previews.take(i as int),
    {
        let ghost before = out@;
        let tab = &tabs[i];
        assert(slots[i as int] == tab@);
        let working_dir = match &tab.working_dir {
            Some(dir) => if is_empty_str(dir.as_str()) {
                None
            } else {
                Some(dir.clone())
            },
            None => None,
        };
        let given = match &tab.title {
            Some(title) => if is_empty_str(title.as_str()) {
                None
            } else {
                Some(title.clone())
            },
            None => None,
        };
        let title = match given {
            Some(title) => title,
            None => {
                let dir = match &tab.working_dir {
                    Some(dir) => Some(dir.as_str()),
                    None => None,
                };
                fallback_tab_name(i + 1, dir, home)
            },
        };
        let preview = WorkspaceTab { title, working_dir };
        out.push(preview);
        assert(tab_views(out@) == tab_views(before).push(
            (preview.title@, crate::text::opt_view(preview.working_dir)),
        ));
    }
    assert(previews.take(previews.len() as int) == previews);
    out
}

// How a script is launched.
/// A line that sets configuration which is not reconstructed.
pub open spec fn is_custom_line(line: Seq<char>) -> bool {
    let trimmed = crate::text::trim(line);
    ||| crate::text::starts_with(trimmed, "set command of cfg"@)
    ||| crate::text::starts_with(trimmed, "set initial input of cfg"@)
    ||| crate::text::starts_with(trimmed, "set wait after command of cfg"@)
    ||| crate::text::starts_with(trimmed, "set environment variables of cfg"@)
}

/// A script that sets configuration which is not reconstructed.
pub open spec fn requires_legacy(script: Seq<char>) -> bool {
    exists|i: int|
        0 <= i < crate::text::lines(script).len() && is_custom_line(
            #[trigger] crate::text::lines(script)[i],
        )
}

/// How a script with these rows is launched. The panes of a script of several windows
/// make no rows, so such a script needs none.
pub open spec fn launch_mode(script: Seq<char>, rows: nat) -> WorkspaceLaunchMode {
    if requires_legacy(script) {
        WorkspaceLaunchMode::DirectLegacy
    } else if rows == 0 && !has_multiple_windows(script) {
        WorkspaceLaunchMode::DirectFallback
    } else {
        WorkspaceLaunchMode::DirectSplit
    }
}

/// Whether a script sets configuration which is not reconstructed.
pub fn workspace_requires_true_legacy_launch(script: &str) -> (r: bool)
    ensures
        r == requires_legacy(script@),
{
    let script_chars = chars_of(script);
    let lines = lines_slice(script_chars.as_slice());
    let ghost all = crate::text::lines(script@);
    for i in 0..lines.len()
        invariant
            all == crate::text::views(lines@),
            all == crate::text::lines(script@),
            forall|j: int| 0 <= j < i ==> !is_custom_line(#[trigger] all[j]),
    {
        let trimmed = trim_slice(lines[i]);
        assert(all[i as int] == lines@[i as int]@);
        if has_prefix(trimmed, "set command of cfg") || has_prefix(
            trimmed,
            "set initial input of cfg",
        ) || has_prefix(trimmed, "set wait after command of cfg") || has_prefix(
            trimmed,
            "set environment variables of cfg",
        ) {
            assert(is_custom_line(all[i as int]));
            return true;
        }
    }
    false
}

/// Decides how a script is launched.
pub fn plan_workspace_launch(script: &str, rows: &Vec<TabRow>) -> (r: WorkspaceLaunchMode)
    ensures
        r == launch_mode(script@, rows@.len()),
{
    if workspace_requires_true_legacy_launch(script) {
        WorkspaceLaunchMode::DirectLegacy
    } else if rows.len() == 0 && !script_has_multiple_windows(script) {
        WorkspaceLaunchMode::DirectFallback
    } else {
        WorkspaceLaunchMode::DirectSplit
    }
}

/// The length of the word that `s` starts with.
pub open spec fn word_len(s: Seq<char>) -> int
    decreases s.len(),
{
    if s.len() == 0 || crate::text::white_space(s[0]) {
        0
    } else {
        1 + word_len(s.skip(1))
    }
}

/// `word_len` is the end of the longest prefix without white space.
pub proof fn lemma_word_len(s: Seq<char>)
    ensures
        0 <= word_len(s) <= s.len(),
        s.len() > 0 && !crate::text::white_space(s[0]) ==> word_len(s) > 0,
    decreases s.len(),
{
    if s.len() > 0 && !crate::text::white_space(s[0]) {
        lemma_word_len(s.skip(1));
    }
}

/// What follows `windows=` in the first word that starts so.
pub open spec fn windows_value(s: Seq<char>) -> Option<Seq<char>>
    decreases s.len(),
{
    proof {
        crate::text::lemma_trim_start(s);
        lemma_word_len(crate::text::trim_start(s));
    }
    let t = crate::text::trim_start(s);
    if t.len() == 0 {
        None
    } else {
        match crate::text::strip_prefix(t.take(word_len(t)), "windows="@) {
            Some(value) => Some(value),
            None => windows_value(t.skip(word_len(t))),
        }
    }
}

/// The number of windows that a header line gives.
pub open spec fn header_windows(line: Seq<char>) -> Option<int> {
    match crate::text::strip_prefix(crate::text::trim(line), "-- gtab:"@) {
        Some(rest) => match windows_value(rest) {
            Some(value) => crate::number::parse_unsigned(value, usize::MAX as int),
            None => None,
        },
        None => None,
    }
}

/// A header line that gives more than one window.
pub open spec fn is_multi_header(line: Seq<char>) -> bool {
    match header_windows(line) {
        Some(count) => count > 1,
        None => false,
    }
}

/// A script of several windows: its header, on one of its first three lines, says so.
pub open spec fn has_multiple_windows(script: Seq<char>) -> bool {
    exists|i: int|
        0 <= i < 3 && i < crate::text::lines(script).len() && is_multi_header(
            #[trigger] crate::text::lines(script)[i],
        )
}

/// Finds what follows `windows=` in the first word that starts so.
fn find_windows_value(s: &[char]) -> (r: Option<&[char]>)
    ensures
        match r {
            Some(value) => windows_value(s@) == Some(value@),
            None => windows_value(s@) is None,
        },
{
    let mut rest = s;
    loop
        invariant
            windows_value(s@) == windows_value(rest@),
        decreases rest.len(),
    {
        proof {
            crate::text::lemma_trim_start(rest@);
            lemma_word_len(crate::text::trim_start(rest@));
        }
        let t = trim_start_slice(rest);
        if t.len() == 0 {
            return None;
        }
        let mut n: usize = 0;
        assert(t@.skip(0) == t@);
        while n < t.len() && !crate::text::is_white_space(t[n])
            invariant
                n <= t.len(),
                word_len(t@) == n + word_len(t@.skip(n as int)),
            decreases t.len() - n,
        {
            assert(t@.skip(n as int).skip(1) == t@.skip(n as int + 1));
            n = n + 1;
        }
        let word = &t[0..n];
        assert(word@ == t@.take(word_len(t@)));
        if let Some(value) = strip_prefix_slice(word, "windows=") {
            return Some(value);
        }
        let next = &t[n..t.len()];
        assert(next@ == t@.skip(word_len(t@)));
        rest = next;
    }
}

/// Whether a script restores several windows.
pub fn script_has_multiple_windows(script: &str) -> (r: bool)
    ensures
        r == has_multiple_windows(script@),
{
    let script_chars = chars_of(script);
    let lines = lines_slice(script_chars.as_slice());
    let ghost all = crate::text::lines(script@);
    let mut i: usize = 0;
    while i < 3 && i < lines.len()
        invariant
            all == crate::text::views(lines@),
            all == crate::text::lines(script@),
            forall|j: int| 0 <= j < i && j < all.len() ==> !is_multi_header(#[trigger] all[j]),
        decreases 3 - i,
    {
        assert(all[i as int] == lines@[i as int]@);
        if let Some(rest) = strip_prefix_slice(trim_slice(lines[i]), "-- gtab:") {
            if let Some(value) = find_windows_value(rest) {
                if let Some(count) = parse_usize(value) {
                    if count > 1 {
                        assert(is_multi_header(all[i as int]));
                        return true;
                    }
                }
            }
        }
        i = i + 1;
    }
    false
}

// Scripts of plain tabs.
/// The lines that open one tab of a script of plain tabs, the `n`th.
pub open spec fn plain_tab_text(dir: Seq<char>, title: Seq<char>, n: nat) -> Seq<char> {
    let name = crate::number::decimal(n);
    let head = "\n\n    set cfg"@ + name
        + " to new surface configuration\n    set initial working directory of cfg"@ + name
        + " to \""@ + crate::applescript::escaped(dir) + "\"\n"@;
    let opened = if n == 1 {
        head + "    set win to new window with configuration cfg"@ + name + "\n    set term"@ + name
            + " to focused terminal of selected tab of win"@
    } else {
        head + "    set tab"@ + name + " to new tab in win with configuration cfg"@ + name
            + "\n    set term"@ + name + " to focused terminal of tab"@ + name
    };
    if title.len() > 0 && !crate::capture::shell_default_title(title) {
        opened + "\n    perform action \"set_tab_title:"@ + crate::applescript::escaped(title)
            + "\" on term"@ + name
    } else {
        opened
    }
}

/// The text that opens the first `k` rows.
pub open spec fn plain_tabs_text(rows: Seq<(Seq<char>, Seq<char>)>, k: int) -> Seq<char>
    decreases k,
{
    if k <= 0 {
        "tell application \"Ghostty\"\n    activate"@
    } else {
        plain_tabs_text(rows, k - 1) + plain_tab_text(rows[k - 1].0, rows[k - 1].1, k as nat)
    }
}

/// Builds the script that restores one window of plain tabs.
pub fn build_workspace_script(rows: &Vec<TabRow>) -> (r: String)
    ensures
        r@ == plain_tabs_text(row_views(rows@), rows@.len() as int) + "\nend tell\n"@,
{
    let mut out = "tell application \"Ghostty\"\n    activate".to_string();
    let ghost all = row_views(rows@);
    for i in 0..rows.len()
        invariant
            all == row_views(rows@),
            out@ == plain_tabs_text(all, i as int),
    {
        let row = &rows[i];
        let n: usize = i + 1;
        let name = usize_string(n);
        assert(all[i as int] == (row.working_dir@, row.title@));
        let mut tab = "\n\n    set cfg".to_string();
        tab.append(name.as_str());
        tab.append(" to new surface configuration\n    set initial working directory of cfg");
        tab.append(name.as_str());
        tab.append(" to \"");
        tab.append(apple_escape(row.working_dir.as_str()).as_str());
        tab.append("\"\n");
        if i == 0 {
            tab.append("    set win to new window with configuration cfg");
            tab.append(name.as_str());
            tab.append("\n    set term");
            tab.append(name.as_str());
            tab.append(" to focused terminal of selected tab of win");
        } else {
            tab.append("    set tab");
            tab.append(name.as_str());
            tab.append(" to new tab in win with configuration cfg");
            tab.append(name.as_str());
            tab.append("\n    set term");
            tab.append(name.as_str());
            tab.append(" to focused terminal of tab");
            tab.append(name.as_str());
        }
        if !is_empty_str(row.title.as_str()) && !looks_like_shell_default_title(
            row.title.as_str(),
        ) {
            tab.append("\n    perform action \"set_tab_title:");
            tab.append(apple_escape(row.title.as_str()).as_str());
            tab.append("\" on term");
            tab.append(name.as_str());
        }
        out.append(tab.as_str());
    }
    out.append("\nend tell\n");
    out
}

// What a script says of its tabs.
/// Each line speaks of one tab: it sets the directory or the title of the tab that it
/// names, in the place of what was said of it before, and leaves the other tabs alone. Tabs
/// of which nothing was said have neither.
pub proof fn each_line_speaks_of_one_tab(lines: Seq<Seq<char>>, line: Seq<char>, other: int)
    requires
        fact_numbered(tab_fact(line)),
    ensures
        ({
            let before = tab_slots(lines);
            let after = tab_slots(lines.push(line));
            match tab_fact(line) {
                TabFact::Dir(n, dir) => {
                    &&& after.len() == crate::geometry::max(before.len() as int, n)
                    &&& after[n - 1].working_dir == Some(dir)
                    &&& n <= before.len() ==> after[n - 1].title == before[n - 1].title
                    &&& n > before.len() ==> after[n - 1].title is None
                    &&& 0 <= other < before.len() && other != n - 1 ==> after[other]
                        == before[other]
                    &&& before.len() <= other < n - 1 ==> after[other].title is None
                        && after[other].working_dir is None
                },
                TabFact::Title(n, title) => {
                    &&& after.len() == crate::geometry::max(before.len() as int, n)
                    &&& after[n - 1].title == Some(title)
                    &&& n <= before.len() ==> after[n - 1].working_dir == before[n - 1].working_dir
                    &&& n > before.len() ==> after[n - 1].working_dir is None
                    &&& 0 <= other < before.len() && other != n - 1 ==> after[other]
                        == before[other]
                    &&& before.len() <= other < n - 1 ==> after[other].title is None
                        && after[other].working_dir is None
                },
                TabFact::Nothing => after == before,
            }
        }),
{
    assert(lines.push(line).drop_last() =~= lines);
}

/// The rows of a script start where their tabs were, or in the home directory where nothing
/// is known of that, and there is one row for each tab.
pub proof fn rows_start_where_tabs_were(lines: Seq<Seq<char>>, home: Seq<char>, i: int)
    requires
        0 <= i < tab_slots(lines).len(),
    ensures
        ({
            let slot = tab_slots(lines)[i];
            let row = rows_of(lines, home)[i];
            &&& rows_of(lines, home).len() == tab_slots(lines).len()
            &&& slot.working_dir is Some && slot.working_dir->0.len() > 0 ==> row.0
                == slot.working_dir->0
            &&& slot.working_dir is None || slot.working_dir->0.len() == 0 ==> row.0 == home
        }),
{
}

/// In a preview a tab has the title that the script sets, and otherwise a name after its
/// directory.
pub proof fn previews_show_titles(slot: TabSlot, i: int, home: Seq<char>)
    ensures
        ({
            let shown = preview_of(slot, i, home);
            let titled = slot.title is Some && slot.title->0.len() > 0;
            &&& titled ==> shown.0 == slot.title->0
            &&& !titled ==> shown.0 == fallback_name((i + 1) as nat, slot.working_dir, home)
            &&& slot.working_dir is Some && slot.working_dir->0.len() > 0 ==> shown.1
                == slot.working_dir
            &&& slot.working_dir is None || slot.working_dir->0.len() == 0 ==> shown.1 is None
        }),
{
}

/// A tab without a title is called `~` in the home directory, else by the last name of its
/// directory, whether or not a slash follows it; and by its number where no directory is
/// known.
pub proof fn tabs_are_called_after_their_directory(
    index: nat,
    parent: Seq<char>,
    name: Seq<char>,
    home: Seq<char>,
)
    requires
        crate::path::plain_name(name),
        name != seq!['.', '.'],
        !crate::text::white_space(name.last()),
        parent.len() > 0 ==> !crate::text::white_space(parent[0]),
    ensures
        parent + seq!['/'] + name != home ==> fallback_name(
            index,
            Some(parent + seq!['/'] + name),
            home,
        ) == name,
        parent + seq!['/'] + name + seq!['/'] != home ==> fallback_name(
            index,
            Some(parent + seq!['/'] + name + seq!['/']),
            home,
        ) == name,
        home.len() > 0 && !crate::text::white_space(home[0]) && !crate::text::white_space(
            home.last(),
        ) ==> fallback_name(index, Some(home), home) == seq!['~'],
        fallback_name(index, None, home) == seq!['T', 'a', 'b', ' '] + crate::number::decimal(index),
        fallback_name(index, Some(seq![]), home) == seq!['T', 'a', 'b', ' ']
            + crate::number::decimal(index),
{
    reveal_strlit("~");
    reveal_strlit("Tab ");
    reveal_strlit(".");
    reveal_strlit("..");
    assert("~"@ =~= seq!['~']);
    assert("Tab "@ =~= seq!['T', 'a', 'b', ' ']);
    assert("."@ =~= seq!['.']);
    assert(".."@ =~= seq!['.', '.']);
    let sl = seq!['/'];
    let a = parent + sl + name;
    let b = a + sl;
    let none = Seq::<char>::empty();
    crate::text::lemma_trimmed(none);
    if home.len() > 0 && !crate::text::white_space(home[0]) && !crate::text::white_space(
        home.last(),
    ) {
        crate::text::lemma_trimmed(home);
    }
    assert(a[0] == if parent.len() > 0 {
        parent[0]
    } else {
        '/'
    });
    assert(a.last() == name.last());
    assert(b[0] == a[0] && b.last() == '/');
    crate::text::lemma_trimmed(a);
    crate::text::lemma_trimmed(b);
    lemma_split_back(parent, name);
    lemma_split_back(a, none);
    let p = crate::text::split(parent, '/');
    assert(!crate::text::has_char(none, '/'));
    assert(p.push(name).last() == name);
    assert(crate::text::split(b, '/') =~= crate::text::split(a, '/').push(none));
    assert(crate::text::split(a, '/').push(none).drop_last() =~= crate::text::split(a, '/'));
    assert(b =~= a + sl + none);
    assert(file_name(a) == Some(name));
    assert(file_name(b) == Some(name));
}

/// The part behind the last slash is the last part.
pub proof fn lemma_split_back(a: Seq<char>, b: Seq<char>)
    requires
        !crate::text::has_char(b, '/'),
    ensures
        crate::text::split(a + seq!['/'] + b, '/') == crate::text::split(a, '/').push(b),
    decreases a.len(),
{
    let sl = seq!['/'];
    let at = crate::text::first_index(a, '/');
    crate::text::lemma_first_index(a, '/');
    if at < a.len() {
        let front = a.take(at);
        let rest = a.skip(at + 1);
        assert(!crate::text::has_char(front, '/')) by {
            if crate::text::has_char(front, '/') {
                let i = choose|i: int| 0 <= i < front.len() && front[i] == '/';
                assert(a[i] == '/');
            }
        }
        lemma_split_back(rest, b);
        assert(a + sl + b =~= front + sl + (rest + sl + b));
        crate::text::lemma_split_front(front, '/', rest + sl + b);
        assert(seq![front] + crate::text::split(rest, '/').push(b) =~= (seq![front]
            + crate::text::split(rest, '/')).push(b));
    } else {
        assert(!crate::text::has_char(a, '/')) by {
            if crate::text::has_char(a, '/') {
                let i = choose|i: int| 0 <= i < a.len() && a[i] == '/';
            }
        }
        crate::text::lemma_split_front(a, '/', b);
        crate::text::lemma_split_whole(a, '/');
        crate::text::lemma_split_whole(b, '/');
        assert(seq![a] + seq![b] =~= seq![a].push(b));
    }
}

/// A script with a line that gives a configuration a command, an input, a wait or variables
/// is launched as it is; any other script is reconstructed, if it has rows or says that it
/// restores several windows.
pub proof fn custom_lines_decide_the_launch(script: Seq<char>, rows: nat)
    ensures
        ({
            let custom = exists|i: int|
                0 <= i < crate::text::lines(script).len() && {
                    let line = crate::text::trim(#[trigger] crate::text::lines(script)[i]);
                    ||| crate::text::starts_with(line, "set command of cfg"@)
                    ||| crate::text::starts_with(line, "set initial input of cfg"@)
                    ||| crate::text::starts_with(line, "set wait after command of cfg"@)
                    ||| crate::text::starts_with(line, "set environment variables of cfg"@)
                };
            let mode = launch_mode(script, rows);
            &&& mode == WorkspaceLaunchMode::DirectLegacy <==> custom
            &&& mode == WorkspaceLaunchMode::DirectFallback <==> !custom && rows == 0
                && !has_multiple_windows(script)
        }),
{
    let lines = crate::text::lines(script);
    if requires_legacy(script) {
        let i = choose|i: int|
            0 <= i < lines.len() && is_custom_line(#[trigger] crate::text::lines(script)[i]);
        let line = crate::text::trim(lines[i]);
    }
}

/// Whether a script restores several windows is told by its first three lines alone.
pub proof fn first_lines_tell_the_windows(a: Seq<char>, b: Seq<char>)
    requires
        crate::geometry::min(crate::text::lines(a).len() as int, 3) == crate::geometry::min(
            crate::text::lines(b).len() as int,
            3,
        ),
        forall|i: int|
            0 <= i < 3 && i < crate::text::lines(a).len() ==> #[trigger] crate::text::lines(a)[i]
                == crate::text::lines(b)[i],
    ensures
        has_multiple_windows(a) == has_multiple_windows(b),
{
    if has_multiple_windows(a) {
        let i = choose|i: int|
            0 <= i < 3 && i < crate::text::lines(a).len() && is_multi_header(
                #[trigger] crate::text::lines(a)[i],
            );
        assert(is_multi_header(crate::text::lines(b)[i]));
    }
    if has_multiple_windows(b) {
        let i = choose|i: int|
            0 <= i < 3 && i < crate::text::lines(b).len() && is_multi_header(
                #[trigger] crate::text::lines(b)[i],
            );
        assert(crate::text::lines(a)[i] == crate::text::lines(b)[i]);
        assert(is_multi_header(crate::text::lines(a)[i]));
    }
}

/// Of several titles that are set on one `term` the last one counts, whatever stands
/// between them that is not about it.
pub proof fn last_title_counts(
    before: Seq<Seq<char>>,
    line: Seq<char>,
    index: int,
    title: Seq<char>,
    other: Seq<char>,
)
    requires
        crate::applescript::term_title(crate::text::trim(line)) == Some((index, title)),
        match crate::applescript::term_title(crate::text::trim(other)) {
            Some((number, _)) => number != index,
            None => true,
        },
    ensures
        last_term_title(before.push(line), index) == title,
        last_term_title(before.push(line).push(other), index) == title,
        last_term_title(before.push(other), index) == last_term_title(before, index),
{
    let a = before.push(line);
    assert(a.drop_last() =~= before);
    assert(a.push(other).drop_last() =~= a);
    assert(before.push(other).drop_last() =~= before);
    assert(last_term_title(a, index) == title);
}

} // verus!
