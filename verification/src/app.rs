//! The state of the browser: what is listed, what is selected, which dialog is open.

use vstd::prelude::*;

use crate::env::AppEnv;
use crate::geometry::Rect;
use crate::text::{chars_of, has, is_empty_str, same_str, to_lowercase};
use crate::workspace::{SavedDirectory, Workspace};

verus! {

/// Two clicks this close, in milliseconds, are a double click.
pub const DOUBLE_CLICK_MS: u64 = 350;

/// How long a status line is shown, in milliseconds.
pub const STATUS_MS: u64 = 4000;

/// The least width of a directory's cell.
pub const DIRECTORY_CELL_MIN_WIDTH: u16 = 14;

/// The greatest width of a directory's cell.
pub const DIRECTORY_CELL_MAX_WIDTH: u16 = 26;

/// The space between two cells.
pub const DIRECTORY_CELL_GAP: u16 = 2;

/// What is left to do once the browser is closed.
#[derive(Clone, Debug, PartialEq, Eq)]
pub enum TuiExit {
    Nothing,
    /// Change to a directory.
    Cd(String),
    /// Put a shell in a directory where the focused split was.
    ReplaceSplit(String),
}

/// What is listed.
#[derive(Clone, Copy, Debug, PartialEq, Eq, Structural)]
pub enum BrowserMode {
    Workspace,
    Directory,
}

/// The dialog that is open.
#[derive(Clone, Copy, Debug, PartialEq, Eq, Structural)]
pub enum Dialog {
    /// None is.
    Closed,
    SaveWorkspace,
    SaveDirectory,
    RenameWorkspace,
    RenameDirectory,
    ConfirmDeleteWorkspace,
    ConfirmDeleteDirectory,
    Settings,
    EditGhosttyShortcut,
    Help,
}

/// The kind of a status line.
#[derive(Clone, Copy, Debug, PartialEq, Eq, Structural)]
pub enum StatusKind {
    Info,
    Success,
    Error,
}

/// What is said at the bottom of the screen.
#[derive(Clone, Debug)]
pub struct StatusLine {
    pub kind: StatusKind,
    pub text: String,
}

/// A click: on which item, and when.
#[derive(Clone, Copy, Debug)]
pub struct ClickState {
    pub index: usize,
    pub at: u64,
}

/// How the directories are laid out: the items of a row, the rows of a page, the width of
/// a cell.
#[derive(Clone, Copy, Debug)]
pub struct DirectoryGridMetrics {
    pub columns: usize,
    pub rows_per_page: usize,
    pub cell_width: u16,
}

/// The browser. Times are milliseconds of a clock that never goes back.
#[derive(Debug)]
pub struct App {
    pub workspaces: Vec<Workspace>,
    pub directories: Vec<SavedDirectory>,
    pub mode: BrowserMode,
    pub selected: usize,
    pub list_offset: usize,
    pub list_area: Rect,
    pub shortcut_area: Rect,
    pub last_click: Option<ClickState>,
    pub filter: String,
    pub search_before_edit: Option<String>,
    pub dialog: Dialog,
    pub save_input: String,
    pub rename_input: String,
    pub rename_original: Option<String>,
    pub shortcut_input: String,
    pub shortcut_return_dialog: Dialog,
    pub status: Option<StatusLine>,
    pub status_expiry: Option<u128>,
}

/// What the browser's state is.
#[verifier::ext_equal]
pub struct AppState {
    pub workspaces: Seq<Workspace>,
    pub directories: Seq<SavedDirectory>,
    pub mode: BrowserMode,
    /// The selected item, counted among the visible ones.
    pub selected: int,
    /// The first item, or row of items, that is shown.
    pub list_offset: int,
    pub list_area: Rect,
    pub shortcut_area: Rect,
    /// The item that was clicked last, and when.
    pub last_click: Option<(int, int)>,
    pub filter: Seq<char>,
    /// While a filter is typed: the one before.
    pub search_before_edit: Option<Seq<char>>,
    pub dialog: Dialog,
    pub save_input: Seq<char>,
    pub rename_input: Seq<char>,
    pub rename_original: Option<Seq<char>>,
    pub shortcut_input: Seq<char>,
    /// The dialog from which the shortcut is edited.
    pub shortcut_return_dialog: Dialog,
    pub status: Option<(StatusKind, Seq<char>)>,
    /// When the status line goes.
    pub status_expiry: Option<int>,
}

impl View for App {
    type V = AppState;

    open spec fn view(&self) -> AppState {
        AppState {
            workspaces: self.workspaces@,
            directories: self.directories@,
            mode: self.mode,
            selected: self.selected as int,
            list_offset: self.list_offset as int,
            list_area: self.list_area,
            shortcut_area: self.shortcut_area,
            last_click: match self.last_click {
                Some(click) => Some((click.index as int, click.at as int)),
                None => None,
            },
            filter: self.filter@,
            search_before_edit: crate::text::opt_view(self.search_before_edit),
            dialog: self.dialog,
            save_input: self.save_input@,
            rename_input: self.rename_input@,
            rename_original: crate::text::opt_view(self.rename_original),
            shortcut_input: self.shortcut_input@,
            shortcut_return_dialog: self.shortcut_return_dialog,
            status: match self.status {
                Some(status) => Some((status.kind, status.text@)),
                None => None,
            },
            status_expiry: match self.status_expiry {
                Some(expiry) => Some(expiry as int),
                None => None,
            },
        }
    }
}

/// The same indices as numbers.
pub open spec fn ints(v: Seq<usize>) -> Seq<int> {
    v.map_values(|i: usize| i as int)
}

/// The rows that `len` items take.
pub open spec fn rows_of(len: int, columns: int) -> int {
    let per_row = crate::geometry::max(columns, 1);
    if len == 0 {
        0
    } else {
        (len + per_row - 1) / per_row
    }
}

impl AppState {
    // What is listed.
    /// How many items there are.
    pub open spec fn item_count(self) -> nat {
        match self.mode {
            BrowserMode::Workspace => self.workspaces.len(),
            BrowserMode::Directory => self.directories.len(),
        }
    }

    /// The name of an item.
    pub open spec fn name_at(self, i: int) -> Seq<char> {
        match self.mode {
            BrowserMode::Workspace => self.workspaces[i].name@,
            BrowserMode::Directory => self.directories[i].name@,
        }
    }

    /// An item passes the filter: its name holds the filter, case aside.
    pub open spec fn passes(self, i: int) -> bool {
        self.filter.len() == 0 || crate::text::contains(
            crate::text::lowercase(self.name_at(i)),
            crate::text::lowercase(self.filter),
        )
    }

    /// Which of the first `n` items are listed.
    pub open spec fn visible_upto(self, n: nat) -> Seq<int>
        decreases n,
    {
        if n == 0 {
            seq![]
        } else {
            let before = self.visible_upto((n - 1) as nat);
            if self.passes(n - 1) {
                before.push(n - 1)
            } else {
                before
            }
        }
    }

    /// Which items are listed.
    pub open spec fn visible(self) -> Seq<int> {
        self.visible_upto(self.item_count())
    }

    /// The selected item.
    pub open spec fn selected_index(self) -> Option<int> {
        if 0 <= self.selected < self.visible().len() {
            Some(self.visible()[self.selected])
        } else {
            None
        }
    }

    /// The selected workspace.
    pub open spec fn selected_workspace(self) -> Option<Workspace> {
        match self.selected_index() {
            Some(i) if self.mode == BrowserMode::Workspace => Some(self.workspaces[i]),
            _ => None,
        }
    }

    /// The selected directory.
    pub open spec fn selected_directory(self) -> Option<SavedDirectory> {
        match self.selected_index() {
            Some(i) if self.mode == BrowserMode::Directory => Some(self.directories[i]),
            _ => None,
        }
    }

    /// The name of the selected item.
    pub open spec fn selected_name(self) -> Option<Seq<char>> {
        match self.selected_index() {
            Some(i) => Some(self.name_at(i)),
            None => None,
        }
    }

    /// The selection is a listed item, or the first place where nothing is listed.
    pub open spec fn selection_valid(self) -> bool {
        0 <= self.selected && (self.selected == 0 || self.selected < self.visible().len())
    }

    /// The first listed item with a name, from place `k` on.
    pub open spec fn place_of(self, name: Seq<char>, k: int) -> Option<int>
        decreases self.visible().len() - k,
    {
        if k < 0 || k >= self.visible().len() {
            None
        } else if self.name_at(self.visible()[k]) == name {
            Some(k)
        } else {
            self.place_of(name, k + 1)
        }
    }

    // The grid of directories.
    /// The longest of the first `k` labels. Lengths wrap at 65536.
    pub open spec fn longest_label(self, k: nat) -> int
        decreases k,
    {
        if k == 0 || self.mode != BrowserMode::Directory {
            0
        } else {
            crate::geometry::max(
                self.longest_label((k - 1) as nat),
                (self.name_at(self.visible()[k - 1]).len() as int + 2) % 65536,
            )
        }
    }

    /// The width of the list, one cell at least.
    pub open spec fn grid_width(self) -> int {
        crate::geometry::max(self.list_area.width as int, 1)
    }

    /// The width of a directory's cell.
    pub open spec fn cell_width(self) -> int {
        crate::geometry::min(
            crate::geometry::clamp(self.longest_label(self.visible().len()), 14, 26),
            self.grid_width(),
        )
    }

    /// How many directories stand in a row.
    pub open spec fn columns(self) -> int {
        crate::geometry::max(
            crate::geometry::min(self.grid_width() + 2, 65535) / (self.cell_width() + 2),
            1,
        )
    }

    /// How many rows of directories are shown.
    pub open spec fn rows_per_page(self) -> int {
        crate::geometry::max(self.list_area.height as int, 1)
    }

    /// The last row from which the directories can be shown.
    pub open spec fn max_offset(self) -> int {
        crate::geometry::max(
            rows_of(self.visible().len() as int, self.columns()) - self.rows_per_page(),
            0,
        )
    }

    /// How far a page goes.
    pub open spec fn page_step(self) -> int {
        match self.mode {
            BrowserMode::Workspace => crate::geometry::max(self.list_area.height - 1, 5),
            BrowserMode::Directory => self.columns() * self.rows_per_page(),
        }
    }

    // Steps.
    /// No click is pending.
    pub open spec fn without_click(self) -> AppState {
        AppState { last_click: None, ..self }
    }

    /// Another item is selected.
    pub open spec fn at(self, selected: int) -> AppState {
        AppState { selected, last_click: None, ..self }
    }

    /// The selection, moved back to the last item where it lies behind.
    pub open spec fn clamped(self) -> AppState {
        AppState {
            selected: if self.visible().len() == 0 {
                0
            } else {
                crate::geometry::min(self.selected, self.visible().len() - 1)
            },
            ..self
        }
    }

    /// The selection moves, and stops at the ends.
    pub open spec fn moved(self, delta: int) -> AppState {
        self.at(
            if self.visible().len() == 0 {
                0
            } else {
                crate::geometry::clamp(self.selected + delta, 0, self.visible().len() - 1)
            },
        )
    }

    /// The selection moves, and goes round at the ends.
    pub open spec fn moved_round(self, delta: int) -> AppState {
        self.at(
            if self.visible().len() == 0 {
                0
            } else {
                (self.selected + delta) % (self.visible().len() as int)
            },
        )
    }

    /// The selection moves by rows.
    pub open spec fn moved_rows(self, rows: int) -> AppState {
        match self.mode {
            BrowserMode::Workspace => self.moved(rows),
            BrowserMode::Directory => self.moved(rows * self.columns()),
        }
    }

    /// The last item is selected.
    pub open spec fn at_end(self) -> AppState {
        self.at(
            if self.visible().len() > 0 {
                self.visible().len() - 1
            } else {
                self.selected
            },
        )
    }

    /// The item with a name is selected, or the first one.
    pub open spec fn at_name(self, name: Seq<char>) -> AppState {
        self.at(
            match self.place_of(name, 0) {
                Some(k) => k,
                None => 0,
            },
        )
    }

    /// Another filter, with the first item selected.
    pub open spec fn filtered(self, filter: Seq<char>) -> AppState {
        AppState { filter, selected: 0, last_click: None, ..self }
    }

    /// A status line that goes after a while.
    pub open spec fn saying(self, kind: StatusKind, text: Seq<char>, now: u64) -> AppState {
        AppState { status: Some((kind, text)), status_expiry: Some(now + STATUS_MS), ..self }
    }

    /// No dialog is open, and nothing typed.
    pub open spec fn without_dialog(self) -> AppState {
        AppState {
            dialog: Dialog::Closed,
            save_input: seq![],
            rename_input: seq![],
            rename_original: None,
            shortcut_input: seq![],
            shortcut_return_dialog: Dialog::Closed,
            ..self
        }
    }

    /// The shortcut is being edited.
    pub open spec fn editing_shortcut(self, shortcut: Seq<char>, back: Dialog) -> AppState {
        AppState {
            shortcut_return_dialog: back,
            dialog: Dialog::EditGhosttyShortcut,
            shortcut_input: shortcut,
            ..self
        }
    }

    /// A name is being edited.
    pub open spec fn renaming(self, dialog: Dialog, name: Seq<char>) -> AppState {
        AppState { dialog, rename_input: name, rename_original: Some(name), ..self }
    }

    /// The other kind of item is listed, without a filter.
    pub open spec fn listing(self, mode: BrowserMode, now: u64) -> AppState {
        (AppState {
            mode,
            search_before_edit: None,
            list_offset: 0,
            ..self.filtered(seq![])
        }).saying(
            StatusKind::Info,
            match mode {
                BrowserMode::Workspace => "Switched to workspace space"@,
                BrowserMode::Directory => "Switched to directory space"@,
            },
            now,
        )
    }

    /// A filter is being typed.
    pub open spec fn searching(self, initial: Option<char>) -> AppState {
        let began = AppState {
            search_before_edit: match self.search_before_edit {
                Some(before) => Some(before),
                None => Some(self.filter),
            },
            ..self
        };
        match initial {
            Some(c) => began.filtered(self.filter.push(c)),
            None => began,
        }
    }

    /// The filter that was typed is kept.
    pub open spec fn search_committed(self) -> AppState {
        AppState { search_before_edit: None, last_click: None, ..self }
    }

    /// The filter that was typed is dropped for the one before.
    pub open spec fn search_cancelled(self) -> AppState {
        match self.search_before_edit {
            Some(before) => AppState { search_before_edit: None, ..self.filtered(before) },
            None => self,
        }
    }

    /// The offset moves until the selected directory is shown.
    pub open spec fn scrolled(self) -> AppState {
        if self.mode != BrowserMode::Directory {
            self
        } else if self.visible().len() == 0 {
            AppState { list_offset: 0, ..self }
        } else {
            let row = self.selected / self.columns();
            let rows = self.rows_per_page();
            AppState {
                list_offset: crate::geometry::min(
                    if row < self.list_offset {
                        row
                    } else if row >= self.list_offset + rows {
                        row - (rows - 1)
                    } else {
                        self.list_offset
                    },
                    self.max_offset(),
                ),
                ..self
            }
        }
    }

    /// The offset, moved back where it lies behind the last page.
    pub open spec fn offset_clamped(self) -> AppState {
        if self.mode != BrowserMode::Directory {
            self
        } else {
            AppState {
                list_offset: crate::geometry::min(self.list_offset, self.max_offset()),
                ..self
            }
        }
    }

    /// What is said where nothing is selected.
    pub open spec fn no_selection_message(self) -> Seq<char> {
        match self.mode {
            BrowserMode::Workspace => "No workspace selected"@,
            BrowserMode::Directory => "No directory selected"@,
        }
    }

    /// What the items are called.
    pub open spec fn item_label_plural(self) -> Seq<char> {
        match self.mode {
            BrowserMode::Workspace => "workspaces"@,
            BrowserMode::Directory => "directories"@,
        }
    }

    // The mouse.
    /// The listed item at a cell of the screen.
    pub open spec fn item_at(self, column: u16, row: u16) -> Option<int> {
        if !crate::geometry::contains_cell(self.list_area, column, row) {
            None
        } else {
            let dx = column - self.list_area.x;
            let dy = row - self.list_area.y;
            let span = self.cell_width() + 2;
            let index = match self.mode {
                BrowserMode::Workspace => self.list_offset + dy,
                BrowserMode::Directory => (self.list_offset + dy) * self.columns() + dx / span,
            };
            if self.mode == BrowserMode::Directory && (dx % span >= self.cell_width() || dx / span
                >= self.columns()) {
                None
            } else if index < self.visible().len() {
                Some(index)
            } else {
                None
            }
        }
    }

    /// A click on an item now is the second of two.
    pub open spec fn clicked_before(self, index: int, now: u64) -> bool {
        match self.last_click {
            Some((last, at)) => last == index && now - at <= DOUBLE_CLICK_MS,
            None => false,
        }
    }
}

/// The listed items are those that pass the filter, each once, in order.
pub proof fn visible_lists_matches(s: AppState)
    ensures
        forall|k: int|
            0 <= k < s.visible().len() ==> 0 <= #[trigger] s.visible()[k] < s.item_count()
                && s.passes(s.visible()[k]),
        forall|j: int, k: int|
            0 <= j < k < s.visible().len() ==> #[trigger] s.visible()[j]
                < #[trigger] s.visible()[k],
        forall|i: int|
            0 <= i < s.item_count() && #[trigger] s.passes(i) ==> s.visible().contains(i),
{
    lemma_visible_upto(s, s.item_count());
}

/// What the listed items among the first `n` are.
pub proof fn lemma_visible_upto(s: AppState, n: nat)
    ensures
        s.visible_upto(n).len() <= n,
        forall|k: int|
            0 <= k < s.visible_upto(n).len() ==> 0 <= #[trigger] s.visible_upto(n)[k] < n
                && s.passes(s.visible_upto(n)[k]),
        forall|j: int, k: int|
            0 <= j < k < s.visible_upto(n).len() ==> #[trigger] s.visible_upto(n)[j]
                < #[trigger] s.visible_upto(n)[k],
        forall|i: int| 0 <= i < n && #[trigger] s.passes(i) ==> s.visible_upto(n).contains(i),
    decreases n,
{
    if n > 0 {
        let m = (n - 1) as nat;
        lemma_visible_upto(s, m);
        let before = s.visible_upto(m);
        assert forall|i: int| 0 <= i < n && #[trigger] s.passes(i) implies s.visible_upto(
            n,
        ).contains(i) by {
            if i == n - 1 {
                assert(s.visible_upto(n)[before.len() as int] == i);
            } else {
                let k = choose|k: int| 0 <= k < before.len() && before[k] == i;
                assert(s.visible_upto(n)[k] == i);
            }
        }
    }
}

/// The listed items depend on the items, the mode and the filter alone.
pub proof fn lemma_visible_same(s: AppState, t: AppState, n: nat)
    requires
        s.workspaces == t.workspaces,
        s.directories == t.directories,
        s.mode == t.mode,
        s.filter == t.filter,
    ensures
        s.visible_upto(n) == t.visible_upto(n),
        s.item_count() == t.item_count(),
    decreases n,
{
    if n > 0 {
        lemma_visible_same(s, t, (n - 1) as nat);
        assert(s.passes(n - 1) == t.passes(n - 1));
    }
}

/// Without a filter every item is listed.
pub proof fn everything_is_listed_without_filter(s: AppState)
    requires
        s.filter.len() == 0,
    ensures
        s.visible() == Seq::new(s.item_count(), |i: int| i),
{
    lemma_unfiltered(s, s.item_count());
}

proof fn lemma_unfiltered(s: AppState, n: nat)
    requires
        s.filter.len() == 0,
    ensures
        s.visible_upto(n) == Seq::new(n, |i: int| i),
    decreases n,
{
    if n > 0 {
        lemma_unfiltered(s, (n - 1) as nat);
        assert(s.visible_upto(n) =~= Seq::new(n, |i: int| i));
    } else {
        assert(s.visible_upto(0) =~= Seq::new(0, |i: int| i));
    }
}

/// The cells and columns of the grid are positive, and fit the list.
pub proof fn grid_fits_the_list(s: AppState)
    ensures
        1 <= s.cell_width() <= 26,
        s.cell_width() <= s.grid_width(),
        1 <= s.columns() <= 4096,
        s.columns() * (s.cell_width() + 2) <= s.grid_width() + 2,
{
    let w = crate::geometry::min(s.grid_width() + 2, 65535);
    let span = s.cell_width() + 2;
    assert(span * (w / span) <= w) by (nonlinear_arith)
        requires
            span > 0,
            w >= 0,
    ;
    assert(w / span >= 1) by (nonlinear_arith)
        requires
            span > 0,
            w >= span,
    ;
    if s.grid_width() < 14 {
        assert(s.cell_width() == s.grid_width());
        assert(w / span == 1) by (nonlinear_arith)
            requires
                w == span,
                span > 0,
        ;
    } else {
        assert(span >= 16);
        assert(w / span <= 4096) by (nonlinear_arith)
            requires
                span >= 16,
                0 <= w <= 65535,
        ;
    }
    assert(s.columns() * span == span * (w / span)) by (nonlinear_arith)
        requires
            s.columns() == w / span,
    ;
}

/// The grid depends on the items, the mode, the filter and the list's area alone.
pub proof fn lemma_grid_same(s: AppState, t: AppState)
    requires
        s.workspaces == t.workspaces,
        s.directories == t.directories,
        s.mode == t.mode,
        s.filter == t.filter,
        s.list_area == t.list_area,
    ensures
        s.cell_width() == t.cell_width(),
        s.columns() == t.columns(),
{
    lemma_visible_same(s, t, s.item_count());
    lemma_longest_same(s, t, s.visible().len());
}

proof fn lemma_longest_same(s: AppState, t: AppState, k: nat)
    requires
        s.directories == t.directories,
        s.workspaces == t.workspaces,
        s.mode == t.mode,
        s.visible() == t.visible(),
    ensures
        s.longest_label(k) == t.longest_label(k),
    decreases k,
{
    if k > 0 && s.mode == BrowserMode::Directory {
        lemma_longest_same(s, t, (k - 1) as nat);
    }
}

/// Once scrolled, the row of the selected directory is one of the rows shown.
pub proof fn scrolling_shows_selection(s: AppState)
    requires
        s.mode == BrowserMode::Directory,
        s.selection_valid(),
        s.list_offset >= 0,
        s.visible().len() > 0,
    ensures
        ({
            let t = s.scrolled();
            let row = s.selected / s.columns();
            &&& 0 <= t.list_offset <= row < t.list_offset + s.rows_per_page()
            &&& t.list_offset <= s.max_offset()
        }),
{
    grid_fits_the_list(s);
    let c = s.columns();
    let n = s.visible().len() as int;
    let row = s.selected / c;
    let rows = rows_of(n, c);
    assert(0 <= row < rows) by (nonlinear_arith)
        requires
            c >= 1,
            0 <= s.selected < n,
            row == s.selected / c,
            rows == (n + c - 1) / c,
    ;
}

/// A click in the cell of a directory that is shown is a click on that directory.
pub proof fn cells_are_clickable(s: AppState, place: int, inside: int, column: u16, row: u16)
    requires
        s.mode == BrowserMode::Directory,
        0 <= place < s.visible().len(),
        s.list_offset >= 0,
        0 <= inside < s.cell_width(),
        row == s.list_area.y + place / s.columns() - s.list_offset,
        column == s.list_area.x + (place % s.columns()) * (s.cell_width() + 2) + inside,
        crate::geometry::contains_cell(s.list_area, column, row),
    ensures
        s.item_at(column, row) == Some(place),
{
    grid_fits_the_list(s);
    let c = s.columns();
    let span = s.cell_width() + 2;
    let k = place % c;
    let dx = column - s.list_area.x;
    assert(0 <= k < c) by (nonlinear_arith)
        requires
            c >= 1,
            k == place % c,
    ;
    assert(dx / span == k && dx % span == inside) by {
        vstd::arithmetic::div_mod::lemma_fundamental_div_mod_converse(dx, span, k, inside);
    }
    assert((s.list_offset + row - s.list_area.y) * c + k == place) by {
        vstd::arithmetic::div_mod::lemma_fundamental_div_mod(place, c);
        assert((place / c) * c == c * (place / c)) by (nonlinear_arith);
    }
}

impl App {
    /// A browser that lists the workspaces.
    pub fn new(workspaces: Vec<Workspace>, directories: Vec<SavedDirectory>) -> (r: Self)
        ensures
            r@ == (AppState {
                workspaces: workspaces@,
                directories: directories@,
                mode: BrowserMode::Workspace,
                selected: 0,
                list_offset: 0,
                list_area: Rect { x: 0, y: 0, width: 0, height: 0 },
                shortcut_area: Rect { x: 0, y: 0, width: 0, height: 0 },
                last_click: None,
                filter: seq![],
                search_before_edit: None,
                dialog: Dialog::Closed,
                save_input: seq![],
                rename_input: seq![],
                rename_original: None,
                shortcut_input: seq![],
                shortcut_return_dialog: Dialog::Closed,
                status: Some(
                    (StatusKind::Info, "Enter launch  f directories  / filter  ? help"@),
                ),
                status_expiry: None,
            }),
            r@.selection_valid(),
    {
        App {
            workspaces,
            directories,
            mode: BrowserMode::Workspace,
            selected: 0,
            list_offset: 0,
            list_area: Rect::empty(),
            shortcut_area: Rect::empty(),
            last_click: None,
            filter: String::new(),
            search_before_edit: None,
            dialog: Dialog::Closed,
            save_input: String::new(),
            rename_input: String::new(),
            rename_original: None,
            shortcut_input: String::new(),
            shortcut_return_dialog: Dialog::Closed,
            status: Some(
                StatusLine {
                    kind: StatusKind::Info,
                    text: "Enter launch  f directories  / filter  ? help".to_string(),
                },
            ),
            status_expiry: None,
        }
    }

    /// Lists other workspaces.
    pub fn reload_workspaces(&mut self, workspaces: Vec<Workspace>)
        ensures
            final(self)@ == (AppState {
                workspaces: workspaces@,
                last_click: None,
                ..old(self)@
            }).clamped(),
    {
        self.workspaces = workspaces;
        self.clear_pending_click();
        self.clamp_selection();
    }

    /// Lists other directories.
    pub fn reload_directories(&mut self, directories: Vec<SavedDirectory>)
        ensures
            final(self)@ == (AppState {
                directories: directories@,
                last_click: None,
                ..old(self)@
            }).clamped(),
    {
        self.directories = directories;
        self.clear_pending_click();
        self.clamp_selection();
    }

    /// Closes the dialog.
    pub fn reset_dialogs(&mut self)
        ensures
            final(self)@ == old(self)@.without_dialog(),
    {
        self.dialog = Dialog::Closed;
        self.save_input = String::new();
        self.rename_input = String::new();
        self.rename_original = None;
        self.shortcut_input = String::new();
        self.shortcut_return_dialog = Dialog::Closed;
    }

    /// Opens the settings.
    pub fn open_settings(&mut self)
        ensures
            final(self)@ == (AppState { dialog: Dialog::Settings, ..old(self)@ }),
    {
        self.dialog = Dialog::Settings;
    }

    /// Opens the shortcut's editor.
    pub fn open_shortcut_editor(&mut self, env: &AppEnv, return_dialog: Dialog)
        ensures
            final(self)@ == old(self)@.editing_shortcut(
                env.config.ghostty_shortcut@,
                return_dialog,
            ),
    {
        self.shortcut_return_dialog = return_dialog;
        self.dialog = Dialog::EditGhosttyShortcut;
        self.shortcut_input = env.ghostty_shortcut_display().to_string();
    }

    /// Opens the dialog that renames a workspace.
    pub fn open_rename_workspace(&mut self, name: String)
        ensures
            final(self)@ == old(self)@.renaming(Dialog::RenameWorkspace, name@),
    {
        self.dialog = Dialog::RenameWorkspace;
        self.rename_input = name.clone();
        self.rename_original = Some(name);
    }

    /// Opens the dialog that renames a directory.
    pub fn open_rename_directory(&mut self, name: String)
        ensures
            final(self)@ == old(self)@.renaming(Dialog::RenameDirectory, name@),
    {
        self.dialog = Dialog::RenameDirectory;
        self.rename_input = name.clone();
        self.rename_original = Some(name);
    }

    /// Lists the other kind of item.
    pub fn switch_mode(&mut self, mode: BrowserMode, now: u64)
        ensures
            final(self)@ == old(self)@.listing(mode, now),
    {
        self.mode = mode;
        self.filter = String::new();
        self.search_before_edit = None;
        self.list_offset = 0;
        self.reset_visible_selection();
        match mode {
            BrowserMode::Workspace => self.set_info("Switched to workspace space", now),
            BrowserMode::Directory => self.set_info("Switched to directory space", now),
        }
    }

    /// Which items are listed.
    pub fn visible_indices(&self) -> (r: Vec<usize>)
        ensures
            ints(r@) == self@.visible(),
            r@.len() == self@.visible().len(),
            forall|k: int|
                #![trigger r@[k]]
                0 <= k < r@.len() ==> r@[k] == self@.visible()[k] && 0 <= r@[k]
                    < self@.item_count(),
    {
        let mut out: Vec<usize> = Vec::new();
        let n: usize = match self.mode {
            BrowserMode::Workspace => self.workspaces.len(),
            BrowserMode::Directory => self.directories.len(),
        };
        let everything = is_empty_str(&self.filter);
        let lower = to_lowercase(&self.filter);
        let needle = chars_of(&lower);
        for i in 0..n
            invariant
                n == self@.item_count(),
                everything == (self.filter@.len() == 0),
                needle@ == crate::text::lowercase(self.filter@),
                ints(out@) == self@.visible_upto(i as nat),
        {
            let name = match self.mode {
                BrowserMode::Workspace => &self.workspaces[i].name,
                BrowserMode::Directory => &self.directories[i].name,
            };
            let lower_name = to_lowercase(name);
            let hay = chars_of(&lower_name);
            let ghost before = out@;
            assert(name@ == self@.name_at(i as int));
            if everything || has(hay.as_slice(), needle.as_slice()) {
                out.push(i);
                assert(ints(out@) =~= ints(before).push(i as int));
            }
        }
        proof {
            lemma_visible_upto(self@, n as nat);
            assert(ints(out@).len() == out@.len());
            assert forall|k: int| #![trigger out@[k]] 0 <= k < out@.len() implies out@[k]
                == self@.visible()[k] && 0 <= out@[k] < self@.item_count() by {
                assert(ints(out@)[k] == out@[k]);
            }
        }
        out
    }

    /// The listed workspaces.
    pub fn visible_workspaces(&self) -> (r: Vec<&Workspace>)
        ensures
            self.mode != BrowserMode::Workspace ==> r@.len() == 0,
            self.mode == BrowserMode::Workspace ==> r@.len() == self@.visible().len(),
            forall|k: int|
                0 <= k < r@.len() ==> *#[trigger] r@[k]
                    == self@.workspaces[self@.visible()[k]],
    {
        let mut out: Vec<&Workspace> = Vec::new();
        match self.mode {
            BrowserMode::Directory => {
                return out;
            },
            BrowserMode::Workspace => {},
        }
        let indices = self.visible_indices();
        for k in 0..indices.len()
            invariant
                self.mode == BrowserMode::Workspace,
                indices@.len() == self@.visible().len(),
                forall|k: int|
                    #![trigger indices@[k]]
                    0 <= k < indices@.len() ==> indices@[k] == self@.visible()[k] && 0
                        <= indices@[k] < self@.item_count(),
                out@.len() == k,
                forall|j: int|
                    0 <= j < out@.len() ==> *#[trigger] out@[j]
                        == self@.workspaces[self@.visible()[j]],
        {
            out.push(&self.workspaces[indices[k]]);
        }
        out
    }

    /// The listed directories.
    pub fn visible_directories(&self) -> (r: Vec<&SavedDirectory>)
        ensures
            self.mode != BrowserMode::Directory ==> r@.len() == 0,
            self.mode == BrowserMode::Directory ==> r@.len() == self@.visible().len(),
            forall|k: int|
                0 <= k < r@.len() ==> *#[trigger] r@[k]
                    == self@.directories[self@.visible()[k]],
    {
        let mut out: Vec<&SavedDirectory> = Vec::new();
        match self.mode {
            BrowserMode::Workspace => {
                return out;
            },
            BrowserMode::Directory => {},
        }
        let indices = self.visible_indices();
        for k in 0..indices.len()
            invariant
                self.mode == BrowserMode::Directory,
                indices@.len() == self@.visible().len(),
                forall|k: int|
                    #![trigger indices@[k]]
                    0 <= k < indices@.len() ==> indices@[k] == self@.visible()[k] && 0
                        <= indices@[k] < self@.item_count(),
                out@.len() == k,
                forall|j: int|
                    0 <= j < out@.len() ==> *#[trigger] out@[j]
                        == self@.directories[self@.visible()[j]],
        {
            out.push(&self.directories[indices[k]]);
        }
        out
    }

    /// The selected workspace.
    pub fn selected_workspace(&self) -> (r: Option<&Workspace>)
        ensures
            match r {
                Some(w) => self@.selected_workspace() == Some(*w),
                None => self@.selected_workspace() is None,
            },
    {
        match self.mode {
            BrowserMode::Directory => {
                return None;
            },
            BrowserMode::Workspace => {},
        }
        let indices = self.visible_indices();
        if self.selected < indices.len() {
            Some(&self.workspaces[indices[self.selected]])
        } else {
            None
        }
    }

    /// The selected directory.
    pub fn selected_directory(&self) -> (r: Option<&SavedDirectory>)
        ensures
            match r {
                Some(d) => self@.selected_directory() == Some(*d),
                None => self@.selected_directory() is None,
            },
    {
        match self.mode {
            BrowserMode::Workspace => {
                return None;
            },
            BrowserMode::Directory => {},
        }
        let indices = self.visible_indices();
        if self.selected < indices.len() {
            Some(&self.directories[indices[self.selected]])
        } else {
            None
        }
    }

    /// The name of the selected item.
    pub fn selected_name(&self) -> (r: Option<String>)
        ensures
            crate::text::opt_view(r) == self@.selected_name(),
    {
        match self.mode {
            BrowserMode::Workspace => match self.selected_workspace() {
                Some(w) => Some(w.name.clone()),
                None => None,
            },
            BrowserMode::Directory => match self.selected_directory() {
                Some(d) => Some(d.name.clone()),
                None => None,
            },
        }
    }

    /// Selects the item with a name, or the first one.
    pub fn select_name(&mut self, name: &str)
        ensures
            final(self)@ == old(self)@.at_name(name@),
    {
        let indices = self.visible_indices();
        let mut k: usize = 0;
        while k < indices.len()
            invariant
                *self == *old(self),
                indices@.len() == self@.visible().len(),
                forall|k: int|
                    #![trigger indices@[k]]
                    0 <= k < indices@.len() ==> indices@[k] == self@.visible()[k] && 0
                        <= indices@[k] < self@.item_count(),
                k <= indices@.len(),
                self@.place_of(name@, 0) == self@.place_of(name@, k as int),
            decreases indices.len() - k,
        {
            let index = indices[k];
            let found = match self.mode {
                BrowserMode::Workspace => same_str(&self.workspaces[index].name, name),
                BrowserMode::Directory => same_str(&self.directories[index].name, name),
            };
            if found {
                self.selected = k;
                self.clear_pending_click();
                return;
            }
            k += 1;
        }
        self.selected = 0;
        self.clear_pending_click();
    }

    /// What is said where nothing is selected.
    pub fn no_selection_message(&self) -> (r: &'static str)
        ensures
            r@ == self@.no_selection_message(),
    {
        match self.mode {
            BrowserMode::Workspace => "No workspace selected",
            BrowserMode::Directory => "No directory selected",
        }
    }

    /// What the items are called.
    pub fn item_label_plural(&self) -> (r: &'static str)
        ensures
            r@ == self@.item_label_plural(),
    {
        match self.mode {
            BrowserMode::Workspace => "workspaces",
            BrowserMode::Directory => "directories",
        }
    }

    /// Moves the selection back to the last item where it lies behind.
    pub fn clamp_selection(&mut self)
        ensures
            final(self)@ == old(self)@.clamped(),
    {
        let len: usize = self.visible_indices().len();
        if len == 0 {
            self.selected = 0;
        } else if self.selected > len - 1 {
            self.selected = len - 1;
        }
    }

    /// Selects the first item.
    pub fn reset_visible_selection(&mut self)
        ensures
            final(self)@ == old(self)@.at(0),
    {
        self.selected = 0;
        self.clear_pending_click();
        self.clamp_selection();
    }

    /// Moves the selection, up to the ends.
    pub fn move_selection(&mut self, delta: i64)
        ensures
            final(self)@ == old(self)@.moved(delta as int),
    {
        let len: usize = self.visible_indices().len();
        if len == 0 {
            self.selected = 0;
            self.clear_pending_click();
            return;
        }
        let next: i128 = self.selected as i128 + delta as i128;
        if next < 0 {
            self.selected = 0;
        } else if next > (len - 1) as i128 {
            self.selected = len - 1;
        } else {
            self.selected = next as usize;
        }
        self.clear_pending_click();
    }

    /// Moves the selection, and round at the ends.
    pub fn move_selection_wrapping(&mut self, delta: i64)
        ensures
            final(self)@ == old(self)@.moved_round(delta as int),
    {
        let len: usize = self.visible_indices().len();
        if len == 0 {
            self.selected = 0;
            self.clear_pending_click();
            return;
        }
        let n: u128 = len as u128;
        let from: u128 = self.selected as u128 % n;
        let step: u128 = if delta >= 0 {
            delta as u128 % n
        } else {
            n - ((-(delta as i128)) as u128 % n)
        };
        let next: u128 = (from + step) % n;
        proof {
            let m = n as int;
            let s = self.selected as int;
            let d = delta as int;
            assert((s + d) % m == next as int) by {
                if d >= 0 {
                    vstd::arithmetic::div_mod::lemma_add_mod_noop(s, d, m);
                } else {
                    vstd::arithmetic::div_mod::lemma_sub_mod_noop(s, -d, m);
                    let x = s % m - (-d) % m;
                    vstd::arithmetic::div_mod::lemma_mod_add_multiples_vanish(x, m);
                    assert(x + m == from + step);
                }
            }
        }
        self.selected = next as usize;
        self.clear_pending_click();
    }

    /// Selects the first item.
    pub fn move_to_start(&mut self)
        ensures
            final(self)@ == old(self)@.at(0),
    {
        self.selected = 0;
        self.clear_pending_click();
    }

    /// Selects the last item.
    pub fn move_to_end(&mut self)
        ensures
            final(self)@ == old(self)@.at_end(),
    {
        let len: usize = self.visible_indices().len();
        if len > 0 {
            self.selected = len - 1;
        }
        self.clear_pending_click();
    }

    /// How far a page goes.
    pub fn page_step(&self) -> (r: i64)
        ensures
            r == self@.page_step(),
            0 <= r <= 4096 * 65535,
    {
        match self.mode {
            BrowserMode::Workspace => {
                if self.list_area.height > 6 {
                    (self.list_area.height - 1) as i64
                } else {
                    5
                }
            },
            BrowserMode::Directory => {
                let metrics = self.directory_grid_metrics();
                proof {
                    grid_fits_the_list(self@);
                    assert(self@.columns() * self@.rows_per_page() <= 4096 * 65535)
                        by (nonlinear_arith)
                        requires
                            1 <= self@.columns() <= 4096,
                            1 <= self@.rows_per_page() <= 65535,
                    ;
                    assert(self@.columns() * self@.rows_per_page() >= 0) by (nonlinear_arith)
                        requires
                            1 <= self@.columns() <= 4096,
                            1 <= self@.rows_per_page() <= 65535,
                    ;
                }
                metrics.columns as i64 * metrics.rows_per_page as i64
            },
        }
    }

    /// Moves the selection by a row, up or down.
    pub fn move_vertical_selection(&mut self, direction: i8)
        ensures
            final(self)@ == old(self)@.moved_rows(direction as int),
    {
        match self.mode {
            BrowserMode::Workspace => self.move_selection(direction as i64),
            BrowserMode::Directory => {
                let metrics = self.directory_grid_metrics();
                proof {
                    grid_fits_the_list(self@);
                    let c = self@.columns();
                    assert(-128 * 4096 <= direction * c <= 127 * 4096) by (nonlinear_arith)
                        requires
                            -128 <= direction <= 127,
                            1 <= c <= 4096,
                    ;
                }
                self.move_selection(direction as i64 * metrics.columns as i64);
            },
        }
    }

    /// Moves the offset until the selected directory is shown.
    pub fn ensure_directory_selection_visible(&mut self)
        ensures
            final(self)@ == old(self)@.scrolled(),
    {
        match self.mode {
            BrowserMode::Workspace => {
                return;
            },
            BrowserMode::Directory => {},
        }
        let len: usize = self.visible_indices().len();
        if len == 0 {
            self.list_offset = 0;
            return;
        }
        let metrics = self.directory_grid_metrics();
        proof {
            grid_fits_the_list(self@);
        }
        let row: usize = self.selected / metrics.columns;
        let rows: usize = metrics.rows_per_page;
        let all: usize = total_directory_rows(len, metrics.columns);
        let max_offset: usize = if all > rows {
            all - rows
        } else {
            0
        };
        if row < self.list_offset {
            self.list_offset = row;
        } else if row - self.list_offset >= rows {
            self.list_offset = row - (rows - 1);
        }
        if self.list_offset > max_offset {
            self.list_offset = max_offset;
        }
    }

    /// Moves the offset back where it lies behind the last page.
    pub fn clamp_directory_offset(&mut self)
        ensures
            final(self)@ == old(self)@.offset_clamped(),
    {
        match self.mode {
            BrowserMode::Workspace => {
                return;
            },
            BrowserMode::Directory => {},
        }
        let len: usize = self.visible_indices().len();
        let metrics = self.directory_grid_metrics();
        let rows: usize = metrics.rows_per_page;
        let all: usize = total_directory_rows(len, metrics.columns);
        let max_offset: usize = if all > rows {
            all - rows
        } else {
            0
        };
        if self.list_offset > max_offset {
            self.list_offset = max_offset;
        }
    }

    /// How the directories are laid out.
    pub fn directory_grid_metrics(&self) -> (r: DirectoryGridMetrics)
        ensures
            r.columns == self@.columns(),
            r.rows_per_page == self@.rows_per_page(),
            r.cell_width == self@.cell_width(),
    {
        let available: u16 = if self.list_area.width > 1 {
            self.list_area.width
        } else {
            1
        };
        let visible = self.visible_directories();
        let mut longest: u16 = 0;
        for k in 0..visible.len()
            invariant
                self.mode != BrowserMode::Directory ==> visible@.len() == 0,
                self.mode == BrowserMode::Directory ==> visible@.len()
                    == self@.visible().len(),
                forall|k: int|
                    0 <= k < visible@.len() ==> *#[trigger] visible@[k]
                        == self@.directories[self@.visible()[k]],
                longest == self@.longest_label(k as nat),
        {
            let chars = chars_of(&visible[k].name);
            let label: u16 = ((chars.len() as u128 + 2) % 65536) as u16;
            if label > longest {
                longest = label;
            }
        }
        assert(longest == self@.longest_label(self@.visible().len()));
        let mut cell_width: u16 = if longest < DIRECTORY_CELL_MIN_WIDTH {
            DIRECTORY_CELL_MIN_WIDTH
        } else if longest > DIRECTORY_CELL_MAX_WIDTH {
            DIRECTORY_CELL_MAX_WIDTH
        } else {
            longest
        };
        if available < cell_width {
            cell_width = available;
        }
        let span: u16 = cell_width + DIRECTORY_CELL_GAP;
        let columns: u16 = available.saturating_add(DIRECTORY_CELL_GAP) / span;
        DirectoryGridMetrics {
            columns: if columns > 1 {
                columns as usize
            } else {
                1
            },
            rows_per_page: if self.list_area.height > 1 {
                self.list_area.height as usize
            } else {
                1
            },
            cell_width,
        }
    }

    /// Forgets the last click.
    pub fn clear_pending_click(&mut self)
        ensures
            final(self)@ == old(self)@.without_click(),
    {
        self.last_click = None;
    }

    /// Whether a click now is the second of two.
    pub fn is_double_click(&self, index: usize, clicked_at: u64) -> (r: bool)
        ensures
            r == self@.clicked_before(index as int, clicked_at),
    {
        match self.last_click {
            Some(last) => last.index == index && (clicked_at <= last.at || clicked_at - last.at
                <= DOUBLE_CLICK_MS),
            None => false,
        }
    }

    /// Whether a filter is being typed.
    pub fn search_active(&self) -> (r: bool)
        ensures
            r == (self@.search_before_edit is Some),
    {
        self.search_before_edit.is_some()
    }

    /// Begins to type a filter.
    pub fn begin_search(&mut self, initial: Option<char>)
        ensures
            final(self)@ == old(self)@.searching(initial),
    {
        if self.search_before_edit.is_none() {
            self.search_before_edit = Some(self.filter.clone());
        }
        match initial {
            Some(c) => {
                self.filter.push(c);
                self.reset_visible_selection();
            },
            None => {},
        }
    }

    /// Keeps the filter.
    pub fn commit_search(&mut self)
        ensures
            final(self)@ == old(self)@.search_committed(),
    {
        self.search_before_edit = None;
        self.clear_pending_click();
    }

    /// Goes back to the filter before.
    pub fn cancel_search(&mut self)
        ensures
            final(self)@ == old(self)@.search_cancelled(),
    {
        let previous = self.search_before_edit.take();
        match previous {
            Some(previous) => {
                self.filter = previous;
                self.reset_visible_selection();
            },
            None => {},
        }
    }

    /// Selects the first item that passes a changed filter.
    pub fn update_filter_after_edit(&mut self)
        ensures
            final(self)@ == old(self)@.at(0),
    {
        self.reset_visible_selection();
    }

    /// Sets the status line.
    pub fn set_status(&mut self, kind: StatusKind, text: &str, now: u64)
        ensures
            final(self)@ == old(self)@.saying(kind, text@, now),
    {
        self.status = Some(StatusLine { kind, text: text.to_string() });
        self.status_expiry = Some(now as u128 + STATUS_MS as u128);
    }

    /// Says that something was done.
    pub fn set_success(&mut self, text: &str, now: u64)
        ensures
            final(self)@ == old(self)@.saying(StatusKind::Success, text@, now),
    {
        self.set_status(StatusKind::Success, text, now);
    }

    /// Says something.
    pub fn set_info(&mut self, text: &str, now: u64)
        ensures
            final(self)@ == old(self)@.saying(StatusKind::Info, text@, now),
    {
        self.set_status(StatusKind::Info, text, now);
    }

    /// Says that something failed.
    pub fn set_error(&mut self, text: &str, now: u64)
        ensures
            final(self)@ == old(self)@.saying(StatusKind::Error, text@, now),
    {
        self.set_status(StatusKind::Error, text, now);
    }

    /// Removes the status line.
    pub fn clear_status(&mut self)
        ensures
            final(self)@ == (AppState { status: None, status_expiry: None, ..old(self)@ }),
    {
        self.status = None;
        self.status_expiry = None;
    }

    /// Removes the status line once it has been shown long enough.
    pub fn expire_status(&mut self, now: u64)
        ensures
            final(self)@ == (match old(self)@.status_expiry {
                Some(expiry) if now >= expiry => AppState {
                    status: None,
                    status_expiry: None,
                    ..old(self)@
                },
                _ => old(self)@,
            }),
    {
        match self.status_expiry {
            Some(expiry) => {
                if now as u128 >= expiry {
                    self.clear_status();
                }
            },
            None => {},
        }
    }

    /// Whether a cell of the screen belongs to the list.
    pub fn list_contains(&self, column: u16, row: u16) -> (r: bool)
        ensures
            r == crate::geometry::contains_cell(self@.list_area, column, row),
    {
        self.list_area.holds(column, row)
    }

    /// Whether a cell of the screen belongs to the shortcut.
    pub fn shortcut_contains(&self, column: u16, row: u16) -> (r: bool)
        ensures
            r == crate::geometry::contains_cell(self@.shortcut_area, column, row),
    {
        self.shortcut_area.holds(column, row)
    }

    /// The listed item at a cell of the screen.
    pub fn list_index_at(&self, column: u16, row: u16) -> (r: Option<usize>)
        ensures
            match r {
                Some(index) => self@.item_at(column, row) == Some(index as int),
                None => self@.item_at(column, row) is None,
            },
    {
        if !self.list_contains(column, row) {
            return None;
        }
        let len: usize = self.visible_indices().len();
        let down: u128 = self.list_offset as u128 + (row - self.list_area.y) as u128;
        let index: u128 = match self.mode {
            BrowserMode::Workspace => down,
            BrowserMode::Directory => {
                let metrics = self.directory_grid_metrics();
                proof {
                    grid_fits_the_list(self@);
                }
                let dx: u16 = column - self.list_area.x;
                let span: u16 = metrics.cell_width + DIRECTORY_CELL_GAP;
                let place: u16 = dx / span;
                if dx % span >= metrics.cell_width || place as usize >= metrics.columns {
                    return None;
                }
                let ghost c = self@.columns();
                assert(0 <= down * c <= 0x2_0000_0000_0000_0000 * 4096) by (nonlinear_arith)
                    requires
                        0 <= down <= 0x2_0000_0000_0000_0000,
                        1 <= c <= 4096,
                ;
                down * metrics.columns as u128 + place as u128
            },
        };
        if index < len as u128 {
            Some(index as usize)
        } else {
            None
        }
    }
}

/// The rows that `len` items take.
pub fn total_directory_rows(len: usize, columns: usize) -> (r: usize)
    ensures
        r == rows_of(len as int, columns as int),
{
    if len == 0 {
        return 0;
    }
    let per_row: u128 = if columns > 1 {
        columns as u128
    } else {
        1
    };
    let all: u128 = (len as u128 + per_row - 1) / per_row;
    assert(all <= len) by (nonlinear_arith)
        requires
            per_row >= 1,
            len >= 1,
            all == (len + per_row - 1) / (per_row as int),
    ;
    all as usize
}

// What a filter lists.
/// The name of an item of the list, by its place among all.
pub open spec fn item_name(s: AppState, i: int) -> Seq<char> {
    if s.mode == BrowserMode::Workspace {
        s.workspaces[i].name@
    } else {
        s.directories[i].name@
    }
}

/// An item is listed exactly if no filter is set, or its name, in lower case, holds the
/// filter, in lower case, at some position.
pub proof fn filter_lists_what_holds_it(s: AppState, i: int)
    ensures
        s.visible().contains(i) <==> 0 <= i < (if s.mode == BrowserMode::Workspace {
            s.workspaces.len()
        } else {
            s.directories.len()
        }) && (s.filter.len() == 0 || exists|at: int|
            0 <= at && at + crate::text::lowercase(s.filter).len() <= crate::text::lowercase(
                item_name(s, i),
            ).len() && #[trigger] crate::text::lowercase(item_name(s, i)).subrange(
                at,
                at + crate::text::lowercase(s.filter).len(),
            ) == crate::text::lowercase(s.filter)),
{
    let name = crate::text::lowercase(item_name(s, i));
    let f = crate::text::lowercase(s.filter);
    visible_lists_matches(s);
    if s.visible().contains(i) {
        let k = choose|k: int| 0 <= k < s.visible().len() && s.visible()[k] == i;
        assert(s.passes(s.visible()[k]));
        if s.filter.len() > 0 {
            let at = choose|at: int| crate::text::occurs_at(name, f, at);
            assert(name.subrange(at, at + f.len()) == f);
        }
    }
    if 0 <= i < s.item_count() {
        if s.filter.len() == 0 {
            assert(s.passes(i));
        } else if exists|at: int|
            0 <= at && at + f.len() <= name.len() && #[trigger] name.subrange(at, at + f.len())
                == f {
            let at = choose|at: int|
                0 <= at && at + f.len() <= name.len() && #[trigger] name.subrange(at, at + f.len())
                    == f;
            assert(crate::text::occurs_at(name, f, at));
            assert(s.passes(i));
        }
    }
}

/// A name that holds the filter between any two texts, case aside, is listed.
pub proof fn names_around_the_filter_are_listed(
    s: AppState,
    i: int,
    before: Seq<char>,
    after: Seq<char>,
)
    requires
        0 <= i < (if s.mode == BrowserMode::Workspace {
            s.workspaces.len()
        } else {
            s.directories.len()
        }),
        crate::text::lowercase(item_name(s, i)) == before + crate::text::lowercase(s.filter)
            + after,
    ensures
        s.visible().contains(i),
{
    let name = crate::text::lowercase(item_name(s, i));
    let f = crate::text::lowercase(s.filter);
    let at = before.len() as int;
    assert(name.subrange(at, at + f.len()) =~= f);
    filter_lists_what_holds_it(s, i);
}

/// The list shows the items in their order, none twice.
pub proof fn list_keeps_the_order(s: AppState, j: int, k: int)
    requires
        0 <= j < k < s.visible().len(),
    ensures
        s.visible()[j] < s.visible()[k],
{
    visible_lists_matches(s);
}

// What is selected and shown.
/// The selected item is the listed one at the selected place: the workspace, the directory
/// and the name that are acted on are that item's.
pub proof fn selection_is_the_marked_line(s: AppState)
    ensures
        ({
            let here = s.visible()[s.selected];
            let some = 0 <= s.selected < s.visible().len();
            &&& s.selected_index() == if some {
                Some(here)
            } else {
                None
            }
            &&& s.selected_name() == if some {
                Some(item_name(s, here))
            } else {
                None
            }
            &&& s.selected_workspace() == if some && s.mode == BrowserMode::Workspace {
                Some(s.workspaces[here])
            } else {
                None
            }
            &&& s.selected_directory() == if some && s.mode == BrowserMode::Directory {
                Some(s.directories[here])
            } else {
                None
            }
        }),
{
}

/// The selection stays where it is unless it lies behind the last listed item, to which it
/// then goes.
pub proof fn selection_goes_back_to_the_last_item(s: AppState)
    requires
        s.selected >= 0,
    ensures
        s.selected < s.visible().len() ==> s.clamped() == s,
        s.selected >= s.visible().len() > 0 ==> s.clamped().selected == s.visible().len() - 1,
        s.visible().len() == 0 ==> s.clamped().selected == 0,
        s.at_end().selected == if s.visible().len() > 0 {
            s.visible().len() - 1
        } else {
            s.selected
        },
{
}

/// A status line says what it is given, and is shown for four seconds; nothing else
/// changes.
pub proof fn status_lines_are_shown_for_a_while(
    s: AppState,
    kind: StatusKind,
    text: Seq<char>,
    now: u64,
)
    ensures
        s.saying(kind, text, now).status == Some((kind, text)),
        s.saying(kind, text, now).status_expiry == Some(now + 4000),
        s.saying(kind, text, now).visible() == s.visible(),
        (AppState { status: s.status, status_expiry: s.status_expiry, ..s.saying(kind, text, now) })
            == s,
{
    lemma_visible_same(s, s.saying(kind, text, now), s.item_count());
}

/// A cell of the grid is as wide as the longest label, the name and two characters, within
/// fourteen and twenty-six, and never wider than the list; and as many cells stand in a row
/// as fit, with two columns between them.
pub proof fn cells_are_as_wide_as_labels(s: AppState, i: int)
    requires
        s.mode == BrowserMode::Directory,
        0 <= i < s.visible().len(),
        forall|k: int|
            0 <= k < s.visible().len() ==> s.directories[#[trigger] s.visible()[k]].name@.len()
                + 2 < 65536,
        s.list_area.width >= 1,
    ensures
        ({
            let w = s.cell_width();
            let name = s.directories[s.visible()[i]].name@;
            &&& w >= name.len() + 2 || w == 26 || w == s.list_area.width
            &&& w >= 14 || w == s.list_area.width
            &&& w <= 26 && w <= s.list_area.width
            &&& (s.columns() + 1) * (w + 2) > s.list_area.width + 2 || s.list_area.width > 65533
            &&& w > 14 ==> exists|k: int|
                0 <= k < s.visible().len() && s.directories[#[trigger] s.visible()[k]].name@.len()
                    + 2 >= w
        }),
{
    lemma_longest(s, s.visible().len(), i);
    grid_fits_the_list(s);
    let span = s.cell_width() + 2;
    let room = crate::geometry::min(s.grid_width() + 2, 65535);
    assert((room / span + 1) * span > room) by (nonlinear_arith)
        requires
            span > 0,
            room >= 0,
    ;
    assert(s.columns() == room / span) by {
        assert(room / span >= 1) by (nonlinear_arith)
            requires
                span > 0,
                room >= span,
        ;
    }
}

/// The longest label is at least as long as any, and as long as one of them.
proof fn lemma_longest(s: AppState, k: nat, i: int)
    requires
        s.mode == BrowserMode::Directory,
        0 <= i < k <= s.visible().len(),
        forall|k: int|
            0 <= k < s.visible().len() ==> s.directories[#[trigger] s.visible()[k]].name@.len()
                + 2 < 65536,
    ensures
        s.longest_label(k) >= s.directories[s.visible()[i]].name@.len() + 2,
        exists|j: int|
            0 <= j < k && s.directories[#[trigger] s.visible()[j]].name@.len() + 2
                == s.longest_label(k),
    decreases k,
{
    let last = s.directories[s.visible()[k - 1]].name@;
    assert((last.len() as int + 2) % 65536 == last.len() + 2);
    if k == 1 {
        assert(s.longest_label(0) == 0);
        assert(s.directories[s.visible()[0]].name@.len() + 2 == s.longest_label(k));
    } else {
        let before = (k - 1) as nat;
        lemma_longest(s, before, if i < k - 1 {
            i
        } else {
            0
        });
        let j = choose|j: int|
            0 <= j < before && s.directories[#[trigger] s.visible()[j]].name@.len() + 2
                == s.longest_label(before);
        if s.longest_label(before) >= last.len() + 2 {
            assert(s.directories[s.visible()[j]].name@.len() + 2 == s.longest_label(k));
        } else {
            assert(s.directories[s.visible()[k - 1]].name@.len() + 2 == s.longest_label(k));
        }
    }
}

/// Scrolling moves no further than it must: a row that is shown already stays where it is,
/// unless the list would end above the last line.
pub proof fn scrolling_stays_where_it_can(s: AppState)
    requires
        s.mode == BrowserMode::Directory,
        s.visible().len() > 0,
    ensures
        ({
            let row = s.selected / s.columns();
            let t = s.scrolled();
            &&& s.list_offset <= row < s.list_offset + s.rows_per_page() && s.list_offset
                <= s.max_offset() ==> t.list_offset == s.list_offset
            &&& row < s.list_offset && row <= s.max_offset() ==> t.list_offset == row
            &&& row >= s.list_offset + s.rows_per_page() && row - s.rows_per_page() + 1
                <= s.max_offset() ==> t.list_offset == row - s.rows_per_page() + 1
            &&& t.selected == s.selected && t.visible() == s.visible()
        }),
{
    lemma_visible_same(s, s.scrolled(), s.item_count());
}

/// Pages go as far as the list is high: a line less than that in the list of workspaces,
/// five lines at least, and all the shown directories in the grid.
pub proof fn pages_are_as_high_as_the_list(s: AppState)
    ensures
        s.mode == BrowserMode::Workspace && s.list_area.height > 6 ==> s.page_step()
            == s.list_area.height - 1,
        s.mode == BrowserMode::Workspace && s.list_area.height <= 6 ==> s.page_step() == 5,
        s.mode == BrowserMode::Directory && s.list_area.height > 0 ==> s.page_step() == s.columns()
            * s.list_area.height,
{
}

/// The rows of a grid hold all its items, and one row fewer would not.
pub proof fn rows_hold_all_items(len: int, columns: int)
    requires
        len >= 0,
        columns >= 1,
    ensures
        rows_of(len, columns) * columns >= len,
        len > 0 ==> (rows_of(len, columns) - 1) * columns < len,
        len == 0 ==> rows_of(len, columns) == 0,
{
    if len > 0 {
        let r = (len + columns - 1) / columns;
        assert(r * columns >= len && (r - 1) * columns < len) by (nonlinear_arith)
            requires
                columns >= 1,
                len > 0,
                r == (len + columns - 1) / columns,
        ;
    }
}

/// The first row that is shown stays, unless the list would end above the last line.
pub proof fn offsets_stay_where_they_can(s: AppState)
    requires
        s.mode == BrowserMode::Directory,
    ensures
        s.list_offset <= s.max_offset() ==> s.offset_clamped() == s,
        s.list_offset > s.max_offset() ==> s.offset_clamped().list_offset == s.max_offset(),
        s.max_offset() == if rows_of(s.visible().len() as int, s.columns())
            > s.rows_per_page() {
            rows_of(s.visible().len() as int, s.columns()) - s.rows_per_page()
        } else {
            0
        },
        s.list_area.height > 0 ==> s.rows_per_page() == s.list_area.height,
{
}

} // verus!
