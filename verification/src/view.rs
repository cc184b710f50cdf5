//! The texts of the screen.

use vstd::prelude::*;

use crate::app::{App, AppState, BrowserMode, Dialog, StatusKind};
use crate::env::AppEnv;
use crate::layout::WorkspaceTabLayout;
use crate::lines::{
    fit_directory_cell, fit_text, joined_line, section_line, Line, Span, SpanView, Text, Theme,
};
use crate::number::decimal_string;
use crate::preview::render_tab_layout_ascii;
use crate::text::{chars_of, is_empty_str, repeated};
use crate::workspace::WorkspaceTab;

verus! {

/// The least width of the screen.
pub const MIN_WIDTH: u16 = 52;

/// The least height of the screen.
pub const MIN_HEIGHT: u16 = 15;

// The directories.
/// The label of an item.
pub open spec fn label_of(name: Seq<char>) -> Seq<char> {
    "["@ + name + "]"@
}

/// The label of an item.
pub fn directory_label(name: &str) -> (r: String)
    ensures
        r@ == label_of(name@),
{
    let mut out = "[".to_string();
    out.append(name);
    out.append("]");
    out
}

/// The cell of a listed directory.
pub open spec fn grid_cell(s: AppState, theme: Theme, index: int) -> SpanView {
    crate::lines::span(
        crate::lines::cell_text(label_of(s.name_at(s.visible()[index])), s.cell_width()),
        if index == s.selected {
            theme.selection
        } else {
            theme.emphasis
        },
    )
}

/// The cells of a row up to `to`, with gaps between them.
pub open spec fn grid_row(s: AppState, theme: Theme, from: int, to: int, end: int) -> Seq<SpanView>
    decreases to - from,
{
    if to <= from {
        seq![]
    } else {
        let with_cell = grid_row(s, theme, from, to - 1, end).push(grid_cell(s, theme, to - 1));
        if to < end {
            with_cell.push(
                crate::lines::span(crate::text::repeat(' ', 2), crate::lines::plain()),
            )
        } else {
            with_cell
        }
    }
}

/// The first directory that is shown.
pub open spec fn grid_start(s: AppState) -> int {
    s.list_offset * s.columns()
}

/// The first directory behind those that are shown.
pub open spec fn grid_end(s: AppState) -> int {
    crate::geometry::min(
        s.visible().len() as int,
        grid_start(s) + s.columns() * s.rows_per_page(),
    )
}

/// A row of directories.
pub open spec fn grid_line(s: AppState, theme: Theme, k: int) -> Seq<SpanView> {
    let from = grid_start(s) + k * s.columns();
    let to = crate::geometry::min(grid_end(s), from + s.columns());
    grid_row(s, theme, from, to, to)
}

/// How many rows of directories are shown.
pub open spec fn grid_rows(s: AppState) -> int {
    if grid_end(s) <= grid_start(s) {
        0
    } else {
        crate::app::rows_of(grid_end(s) - grid_start(s), s.columns())
    }
}

/// The directories that are shown.
pub open spec fn grid_text(s: AppState, theme: Theme) -> Seq<Seq<SpanView>> {
    Seq::new(grid_rows(s) as nat, |k: int| grid_line(s, theme, k))
}

/// One row of directories.
fn directory_grid_line(app: &App, from: usize, to: usize, cell_width: u16, theme: &Theme) -> (r:
    Line)
    requires
        app.mode == BrowserMode::Directory,
        from <= to <= app@.visible().len(),
        cell_width == app@.cell_width(),
    ensures
        r@ == grid_row(app@, *theme, from as int, to as int, to as int),
{
    let visible = app.visible_directories();
    let mut line = Line::empty();
    for index in from..to
        invariant
            app.mode == BrowserMode::Directory,
            visible@.len() == app@.visible().len(),
            forall|k: int|
                0 <= k < visible@.len() ==> *#[trigger] visible@[k]
                    == app@.directories[app@.visible()[k]],
            to <= visible@.len(),
            cell_width == app@.cell_width(),
            line@ == grid_row(app@, *theme, from as int, index as int, to as int),
    {
        let label = directory_label(visible[index].name.as_str());
        let cell = fit_directory_cell(label.as_str(), cell_width);
        let style = if index == app.selected {
            theme.selection
        } else {
            theme.emphasis
        };
        line.push(Span::styled(cell.as_str(), style));
        if index + 1 < to {
            line.push(Span::raw(repeated(' ', 2).as_str()));
        }
    }
    line
}

/// The directories that are shown.
pub fn directory_grid_text(app: &App, theme: &Theme) -> (r: Text)
    requires
        app.mode == BrowserMode::Directory,
    ensures
        r@ == grid_text(app@, *theme),
{
    let metrics = app.directory_grid_metrics();
    let len: usize = app.visible_indices().len();
    let mut text = Text::empty();
    let ghost c = app@.columns();
    let ghost s = app@;
    proof {
        crate::app::grid_fits_the_list(app@);
        assert(0 <= app.list_offset * c <= 0x1_0000_0000_0000_0000 * 4096) by (nonlinear_arith)
            requires
                0 <= app.list_offset <= 0x1_0000_0000_0000_0000,
                1 <= c <= 4096,
        ;
        assert(0 <= c * s.rows_per_page() <= 4096 * 65535) by (nonlinear_arith)
            requires
                1 <= c <= 4096,
                1 <= s.rows_per_page() <= 65535,
        ;
    }
    let start: u128 = app.list_offset as u128 * metrics.columns as u128;
    let last: u128 = start + metrics.columns as u128 * metrics.rows_per_page as u128;
    let end: u128 = if (len as u128) < last {
        len as u128
    } else {
        last
    };
    if end <= start {
        assert(text@ =~= grid_text(s, *theme));
        return text;
    }
    let mut at: u128 = start;
    let ghost mut k: int = 0;
    while at < end
        invariant
            app.mode == BrowserMode::Directory,
            s == app@,
            c == s.columns(),
            1 <= c <= 4096,
            metrics.columns == c,
            metrics.cell_width == s.cell_width(),
            start == grid_start(s),
            end == grid_end(s),
            start < end <= len,
            len == s.visible().len(),
            k >= 0,
            at == start + k * c,
            k > 0 ==> start + (k - 1) * c < end,
            text@ == Seq::new(k as nat, |i: int| grid_line(s, *theme, i)),
        decreases end + 4096 - at,
    {
        let next: u128 = at + metrics.columns as u128;
        let to: u128 = if end < next {
            end
        } else {
            next
        };
        let line = directory_grid_line(app, at as usize, to as usize, metrics.cell_width, theme);
        text.push(line);
        proof {
            assert((k + 1) * c == k * c + c) by (nonlinear_arith);
            assert((k + 1 - 1) * c == k * c);
            k = k + 1;
            assert(text@ =~= Seq::new(k as nat, |i: int| grid_line(s, *theme, i)));
        }
        at = next;
    }
    proof {
        let n = grid_end(s) - grid_start(s);
        assert(k == (n + c - 1) / c) by (nonlinear_arith)
            requires
                c >= 1,
                n >= 1,
                k >= 1,
                (k - 1) * c < n,
                n <= k * c,
        ;
        assert(text@ =~= grid_text(s, *theme));
    }
    text
}

/// No more rows of directories are shown than a page has.
pub proof fn grid_fits_page(s: AppState, theme: Theme)
    requires
        s.list_offset >= 0,
    ensures
        grid_text(s, theme).len() <= s.rows_per_page(),
{
    crate::app::grid_fits_the_list(s);
    let c = s.columns();
    let n = grid_end(s) - grid_start(s);
    let rows = s.rows_per_page();
    if n > 0 {
        assert((n + c - 1) / c <= rows && (n + c - 1) / c >= 0) by (nonlinear_arith)
            requires
                c >= 1,
                0 < n <= c * rows,
        ;
    }
}

/// What the list of directories says.
pub open spec fn directories_text(s: AppState, theme: Theme) -> Seq<Seq<SpanView>> {
    if s.visible().len() == 0 {
        seq![seq![crate::lines::span("no matches"@, theme.muted)]]
    } else {
        grid_text(s, theme)
    }
}

/// What the list of directories says.
pub fn directory_list_text(app: &App, theme: &Theme) -> (r: Text)
    requires
        app.mode == BrowserMode::Directory,
    ensures
        r@ == directories_text(app@, *theme),
{
    if app.visible_indices().len() == 0 {
        let mut text = Text::empty();
        text.push(Line::styled("no matches", theme.muted));
        assert(text@ =~= directories_text(app@, *theme));
        return text;
    }
    directory_grid_text(app, theme)
}

// The workspaces.
/// An item of the list of workspaces.
pub open spec fn workspace_item(s: AppState, theme: Theme, k: int) -> SpanView {
    crate::lines::span(label_of(s.workspaces[s.visible()[k]].name@), theme.emphasis)
}

/// The items of the list of workspaces.
pub open spec fn workspace_items_view(s: AppState, theme: Theme) -> Seq<SpanView> {
    if s.visible().len() == 0 {
        seq![crate::lines::span("no matches"@, theme.muted)]
    } else {
        Seq::new(s.visible().len(), |k: int| workspace_item(s, theme, k))
    }
}

/// The items of the list of workspaces.
pub fn workspace_items(app: &App, theme: &Theme) -> (r: Vec<Span>)
    requires
        app.mode == BrowserMode::Workspace,
    ensures
        crate::lines::span_views(r@) == workspace_items_view(app@, *theme),
{
    let visible = app.visible_workspaces();
    let mut items: Vec<Span> = Vec::new();
    if visible.len() == 0 {
        items.push(Span::styled("no matches", theme.muted));
        assert(crate::lines::span_views(items@) =~= workspace_items_view(app@, *theme));
        return items;
    }
    for k in 0..visible.len()
        invariant
            visible@.len() == app@.visible().len(),
            forall|j: int|
                0 <= j < visible@.len() ==> *#[trigger] visible@[j]
                    == app@.workspaces[app@.visible()[j]],
            items@.len() == k,
            forall|j: int|
                0 <= j < k ==> (#[trigger] items@[j])@ == workspace_item(app@, *theme, j),
    {
        let label = directory_label(visible[k].name.as_str());
        items.push(Span::styled(label.as_str(), theme.emphasis));
    }
    assert(crate::lines::span_views(items@) =~= workspace_items_view(app@, *theme));
    items
}

/// The line above the list in which a filter is typed.
pub open spec fn prompt_view(s: AppState, width: int, theme: Theme) -> Seq<SpanView> {
    let w = crate::geometry::max(width, 1);
    let available = if w >= 2 {
        w - 2
    } else {
        0
    };
    let text = if s.filter.len() > 0 {
        s.filter
    } else if s.search_before_edit is Some {
        "type to filter"@
    } else {
        seq![]
    };
    seq![
        crate::lines::span(
            if w >= 2 {
                "/ "@
            } else {
                "/"@
            },
            theme.accent,
        ),
        crate::lines::span(
            if available == 0 {
                seq![]
            } else {
                crate::lines::fitted(text, available)
            },
            if s.filter.len() == 0 {
                theme.muted
            } else {
                theme.emphasis
            },
        ),
    ]
}

/// The line above the list in which a filter is typed.
pub fn prompt_line(app: &App, width: u16, theme: &Theme) -> (r: Line)
    ensures
        r@ == prompt_view(app@, width as int, *theme),
{
    let empty = is_empty_str(&app.filter);
    let text = if !empty {
        app.filter.clone()
    } else if app.search_active() {
        "type to filter".to_string()
    } else {
        String::new()
    };
    let shown = if width > 2 {
        fit_text(text.as_str(), width as usize - 2)
    } else {
        String::new()
    };
    let mut line = Line::empty();
    line.push(
        Span::styled(
            if width >= 2 {
                "/ "
            } else {
                "/"
            },
            theme.accent,
        ),
    );
    line.push(
        Span::styled(
            shown.as_str(),
            if empty {
                theme.muted
            } else {
                theme.emphasis
            },
        ),
    );
    assert(line@ =~= prompt_view(app@, width as int, *theme));
    line
}

/// Tabs in a row.
pub open spec fn tabs_line(tabs: Seq<WorkspaceTab>, theme: Theme) -> Seq<SpanView>
    decreases tabs.len(),
{
    if tabs.len() == 0 {
        seq![]
    } else {
        tabs_line(tabs.drop_last(), theme).push(
            crate::lines::span("「"@ + tabs.last().title@ + "」"@, theme.accent),
        ).push(crate::lines::span(" "@, crate::lines::plain()))
    }
}

/// The selected workspace's tabs in one line.
pub open spec fn tabs_text(s: AppState, theme: Theme) -> Seq<Seq<SpanView>> {
    match s.selected_workspace() {
        Some(w) if w.tabs@.len() > 0 => seq![tabs_line(w.tabs@, theme)],
        _ => seq![],
    }
}

/// The selected workspace's tabs in one line.
pub fn workspace_tabs_text(app: &App, theme: &Theme) -> (r: Text)
    ensures
        r@ == tabs_text(app@, *theme),
{
    let mut text = Text::empty();
    let workspace = match app.selected_workspace() {
        Some(workspace) => workspace,
        None => {
            return text;
        },
    };
    if workspace.tabs.len() == 0 {
        return text;
    }
    let mut line = Line::empty();
    for i in 0..workspace.tabs.len()
        invariant
            line@ == tabs_line(workspace.tabs@.take(i as int), *theme),
    {
        let mut title = "「".to_string();
        title.append(workspace.tabs[i].title.as_str());
        title.append("」");
        line.push(Span::styled(title.as_str(), theme.accent));
        line.push(Span::raw(" "));
        assert(workspace.tabs@.take(i + 1).drop_last() =~= workspace.tabs@.take(i as int));
    }
    assert(workspace.tabs@.take(workspace.tabs@.len() as int) =~= workspace.tabs@);
    text.push(line);
    assert(text@ =~= tabs_text(app@, *theme));
    text
}

/// A tab's number, in two columns at least.
pub open spec fn tab_number(n: nat) -> Seq<char> {
    let digits = crate::number::decimal(n);
    if digits.len() < 2 {
        " "@ + digits + ". "@
    } else {
        digits + ". "@
    }
}

/// The line above a tab's picture.
pub open spec fn tab_header(tab: WorkspaceTabLayout, k: int, theme: Theme) -> Seq<SpanView> {
    seq![
        crate::lines::span(tab_number((k + 1) as nat), theme.dim),
        crate::lines::span(tab.title@, theme.emphasis),
    ]
}

/// A tab's picture, five rows high.
pub open spec fn picture_lines(tab: WorkspaceTabLayout, width: int, theme: Theme) -> Seq<
    Seq<SpanView>,
> {
    crate::preview::tab_picture(crate::layout::pane_tree(tab.root), width, 5).map_values(
        |row: Seq<char>| seq![crate::lines::span(row, theme.dim)],
    )
}

/// The tabs from number `k` on in the lines that are left: a header each, a picture where
/// there is room for one, and a blank line.
pub open spec fn previews(
    tabs: Seq<WorkspaceTabLayout>,
    k: int,
    left: int,
    width: int,
    theme: Theme,
) -> Seq<Seq<SpanView>>
    decreases tabs.len() - k,
{
    if k < 0 || k >= tabs.len() || left <= 0 {
        seq![]
    } else {
        let pictured = left >= 6;
        let shown = seq![tab_header(tabs[k], k, theme)] + if pictured {
            picture_lines(tabs[k], width, theme)
        } else {
            seq![]
        };
        let rest = if pictured {
            left - 6
        } else {
            left - 1
        };
        if rest == 0 {
            shown
        } else {
            shown + seq![Seq::<SpanView>::empty()] + previews(tabs, k + 1, rest - 1, width, theme)
        }
    }
}

/// The selected workspace's tabs.
pub open spec fn preview_text(s: AppState, width: int, height: int, theme: Theme) -> Seq<
    Seq<SpanView>,
> {
    match s.selected_workspace() {
        Some(w) => if w.layout@.len() == 0 {
            tabs_text(s, theme)
        } else {
            previews(w.layout@, 0, height, crate::geometry::max(width, 12), theme)
        },
        None => seq![],
    }
}

/// The previews take no more lines than there are.
pub proof fn previews_fit_height(
    tabs: Seq<WorkspaceTabLayout>,
    k: int,
    left: int,
    width: int,
    theme: Theme,
)
    requires
        left >= 0,
    ensures
        previews(tabs, k, left, width, theme).len() <= left,
    decreases tabs.len() - k,
{
    if 0 <= k < tabs.len() && left > 0 {
        let rest = if left >= 6 {
            left - 6
        } else {
            left - 1
        };
        if rest > 0 {
            previews_fit_height(tabs, k + 1, rest - 1, width, theme);
        }
    }
}

/// A tab's number, in two columns at least.
fn tab_number_text(n: u128) -> (r: String)
    ensures
        r@ == tab_number(n as nat),
{
    let digits = decimal_string(n);
    let mut out = String::new();
    if chars_of(digits.as_str()).len() < 2 {
        out.append(" ");
    }
    out.append(digits.as_str());
    out.append(". ");
    assert(out@ =~= tab_number(n as nat));
    out
}

/// Appends a tab's picture.
fn push_picture(text: &mut Text, tab: &WorkspaceTabLayout, width: usize, theme: &Theme)
    requires
        width >= 8,
    ensures
        final(text)@ == old(text)@ + picture_lines(*tab, width as int, *theme),
{
    let rows = render_tab_layout_ascii(tab, width, 5);
    let ghost all = picture_lines(*tab, width as int, *theme);
    let ghost before = text@;
    proof {
        assert(crate::text::string_views(rows@).len() == rows@.len());
    }
    for i in 0..rows.len()
        invariant
            all == picture_lines(*tab, width as int, *theme),
            all.len() == rows@.len(),
            crate::text::string_views(rows@) == crate::preview::tab_picture(
                crate::layout::pane_tree(tab.root),
                width as int,
                5,
            ),
            text@ == before + all.take(i as int),
    {
        proof {
            assert(crate::text::string_views(rows@)[i as int] == rows@[i as int]@);
        }
        let line = Line::styled(rows[i].as_str(), theme.dim);
        assert(line@ == all[i as int]);
        text.push(line);
        assert(text@ =~= before + all.take(i + 1));
    }
    assert(all.take(all.len() as int) =~= all);
}

/// The selected workspace's tabs.
pub fn workspace_tabs_preview_text(app: &App, width: u16, height: u16, theme: &Theme) -> (r: Text)
    ensures
        r@ == preview_text(app@, width as int, height as int, *theme),
{
    let workspace = match app.selected_workspace() {
        Some(workspace) => workspace,
        None => {
            return Text::empty();
        },
    };
    if workspace.layout.len() == 0 {
        return workspace_tabs_text(app, theme);
    }
    let map_width: usize = if width > 12 {
        width as usize
    } else {
        12
    };
    let mut text = Text::empty();
    let mut left: usize = height as usize;
    let ghost all = previews(workspace.layout@, 0, height as int, map_width as int, *theme);
    let mut k: usize = 0;
    assert(text@ + all =~= all);
    while k < workspace.layout.len() && left > 0
        invariant
            k <= workspace.layout@.len(),
            map_width >= 8,
            text@ + previews(workspace.layout@, k as int, left as int, map_width as int, *theme)
                == all,
        decreases workspace.layout.len() - k,
    {
        let tab = &workspace.layout[k];
        let ghost before = text@;
        let mut header = Line::empty();
        header.push(Span::styled(tab_number_text(k as u128 + 1).as_str(), theme.dim));
        header.push(Span::styled(tab.title.as_str(), theme.emphasis));
        assert(header@ =~= tab_header(*tab, k as int, *theme));
        text.push(header);
        left -= 1;
        if left >= 5 {
            push_picture(&mut text, tab, map_width, theme);
            left -= 5;
        }
        k += 1;
        if left > 0 {
            text.push(Line::empty());
            left -= 1;
        }
        assert(text@ + previews(
            workspace.layout@,
            k as int,
            left as int,
            map_width as int,
            *theme,
        ) =~= all);
    }
    assert(text@ =~= all);
    text
}

/// The settings beside the tabs.
pub open spec fn quick_text(shortcut: Seq<char>, width: int, theme: Theme) -> Seq<Seq<SpanView>> {
    seq![
        crate::lines::section(width, "Quick Settings"@, theme),
        crate::lines::joined(
            width,
            "shortcut "@ + shortcut,
            "click / g"@,
            theme.warning,
            theme.dim,
        ),
        Seq::<SpanView>::empty(),
        crate::lines::section(width, "Status"@, theme),
        seq![crate::lines::span("same-shell in Ghostty"@, theme.warning)],
        crate::lines::plain_line("Ghostty-local only"@),
        Seq::<SpanView>::empty(),
        seq![
            crate::lines::span("t"@, theme.accent),
            crate::lines::span(" full settings"@, crate::lines::plain()),
        ],
    ]
}

/// The settings beside the tabs.
pub fn quick_settings_text(env: &AppEnv, width: u16, theme: &Theme) -> (r: Text)
    ensures
        r@ == quick_text(env.config.ghostty_shortcut@, width as int, *theme),
{
    let mut text = Text::empty();
    text.push(section_line(width, "Quick Settings", theme));
    let mut shortcut = "shortcut ".to_string();
    shortcut.append(env.ghostty_shortcut_display());
    text.push(
        joined_line(width, shortcut.as_str(), "click / g", theme.warning, theme.dim),
    );
    text.push(Line::empty());
    text.push(section_line(width, "Status", theme));
    text.push(Line::styled("same-shell in Ghostty", theme.warning));
    text.push(Line::raw("Ghostty-local only"));
    text.push(Line::empty());
    let mut more = Line::styled("t", theme.accent);
    more.push(Span::raw(" full settings"));
    assert(more@ =~= seq![
        crate::lines::span("t"@, theme.accent),
        crate::lines::span(" full settings"@, crate::lines::plain()),
    ]);
    text.push(more);
    assert(text@ =~= quick_text(env.config.ghostty_shortcut@, width as int, *theme));
    text
}

// The footer.
/// The status line.
pub open spec fn status_view(s: AppState, theme: Theme) -> Seq<SpanView> {
    match s.status {
        Some((kind, text)) => seq![
            match kind {
                StatusKind::Info => crate::lines::span("[i] "@, theme.muted),
                StatusKind::Success => crate::lines::span("[ok] "@, theme.success),
                StatusKind::Error => crate::lines::span("[!!] "@, theme.error),
            },
            crate::lines::span(text, crate::lines::plain()),
        ],
        None => seq![crate::lines::span("[ ] ready"@, theme.muted)],
    }
}

/// The status line.
pub fn status_line(app: &App, theme: &Theme) -> (r: Line)
    ensures
        r@ == status_view(app@, *theme),
{
    match &app.status {
        Some(status) => {
            let mut line = match status.kind {
                StatusKind::Info => Line::styled("[i] ", theme.muted),
                StatusKind::Success => Line::styled("[ok] ", theme.success),
                StatusKind::Error => Line::styled("[!!] ", theme.error),
            };
            line.push(Span::raw(status.text.as_str()));
            assert(line@ =~= status_view(app@, *theme));
            line
        },
        None => Line::styled("[ ] ready", theme.muted),
    }
}

/// A key, and what it does.
pub type Hint = (&'static str, &'static str);

/// What hints hold.
pub open spec fn hint_views(hints: Seq<Hint>) -> Seq<(Seq<char>, Seq<char>)> {
    hints.map_values(|h: Hint| (h.0@, h.1@))
}

/// Keys and what they do, in a line.
pub open spec fn hints_line_view(hints: Seq<(Seq<char>, Seq<char>)>, theme: Theme) -> Seq<SpanView>
    decreases hints.len(),
{
    if hints.len() == 0 {
        seq![]
    } else {
        hints_line_view(hints.drop_last(), theme).push(
            crate::lines::span(hints.last().0, theme.accent),
        ).push(crate::lines::span(hints.last().1, crate::lines::plain()))
    }
}

/// The keys that do something now.
pub open spec fn key_hints(dialog: Dialog, searching: bool, mode: BrowserMode) -> Seq<
    (Seq<char>, Seq<char>),
> {
    match dialog {
        Dialog::Help => seq![("Esc"@, " close  "@), ("q"@, " close"@)],
        Dialog::SaveWorkspace => seq![("Enter"@, " save  "@), ("Esc"@, " cancel"@)],
        Dialog::SaveDirectory => seq![("Enter"@, " save  "@), ("Esc"@, " cancel"@)],
        Dialog::RenameWorkspace => seq![("Enter"@, " rename  "@), ("Esc"@, " cancel"@)],
        Dialog::RenameDirectory => seq![("Enter"@, " rename  "@), ("Esc"@, " cancel"@)],
        Dialog::ConfirmDeleteWorkspace => seq![("y"@, " confirm  "@), ("n"@, " cancel"@)],
        Dialog::ConfirmDeleteDirectory => seq![("y"@, " confirm  "@), ("n"@, " cancel"@)],
        Dialog::Settings => seq![
            ("c"@, " toggle  "@),
            ("g"@, " ghostty shortcut  "@),
            ("Esc"@, " close"@),
        ],
        Dialog::EditGhosttyShortcut => seq![("Enter"@, " save  "@), ("Esc"@, " back"@)],
        Dialog::Closed => if searching {
            seq![("type"@, " filter  "@), ("Enter"@, " keep  "@), ("Esc"@, " revert"@)]
        } else {
            match mode {
                BrowserMode::Workspace => seq![
                    ("Enter"@, " launch  "@),
                    ("f"@, " directories  "@),
                    ("/"@, " filter  "@),
                    ("a"@, " save  "@),
                    ("n"@, " rename  "@),
                    ("d"@, " remove  "@),
                    ("e"@, " edit  "@),
                    ("t"@, " settings  "@),
                    ("g"@, " shortcut  "@),
                    ("?"@, " help  "@),
                    ("q"@, " quit"@),
                ],
                BrowserMode::Directory => seq![
                    ("Enter"@, " open  "@),
                    ("f"@, " workspaces  "@),
                    ("/"@, " filter  "@),
                    ("a"@, " save  "@),
                    ("n"@, " rename  "@),
                    ("d"@, " remove  "@),
                    ("?"@, " help  "@),
                    ("q"@, " quit"@),
                ],
            }
        },
    }
}

/// The keys that do something now.
fn hints_for(dialog: Dialog, searching: bool, mode: BrowserMode) -> (r: Vec<Hint>)
    ensures
        hint_views(r@) == key_hints(dialog, searching, mode),
{
    let hints: Vec<Hint> = match dialog {
        Dialog::Help => vec![("Esc", " close  "), ("q", " close")],
        Dialog::SaveWorkspace => vec![("Enter", " save  "), ("Esc", " cancel")],
        Dialog::SaveDirectory => vec![("Enter", " save  "), ("Esc", " cancel")],
        Dialog::RenameWorkspace => vec![("Enter", " rename  "), ("Esc", " cancel")],
        Dialog::RenameDirectory => vec![("Enter", " rename  "), ("Esc", " cancel")],
        Dialog::ConfirmDeleteWorkspace => vec![("y", " confirm  "), ("n", " cancel")],
        Dialog::ConfirmDeleteDirectory => vec![("y", " confirm  "), ("n", " cancel")],
        Dialog::Settings => vec![("c", " toggle  "), ("g", " ghostty shortcut  "), ("Esc", " close")],
        Dialog::EditGhosttyShortcut => vec![("Enter", " save  "), ("Esc", " back")],
        Dialog::Closed => if searching {
            vec![("type", " filter  "), ("Enter", " keep  "), ("Esc", " revert")]
        } else {
            match mode {
                BrowserMode::Workspace => vec![
                    ("Enter", " launch  "),
                    ("f", " directories  "),
                    ("/", " filter  "),
                    ("a", " save  "),
                    ("n", " rename  "),
                    ("d", " remove  "),
                    ("e", " edit  "),
                    ("t", " settings  "),
                    ("g", " shortcut  "),
                    ("?", " help  "),
                    ("q", " quit"),
                ],
                BrowserMode::Directory => vec![
                    ("Enter", " open  "),
                    ("f", " workspaces  "),
                    ("/", " filter  "),
                    ("a", " save  "),
                    ("n", " rename  "),
                    ("d", " remove  "),
                    ("?", " help  "),
                    ("q", " quit"),
                ],
            }
        },
    };
    assert(hint_views(hints@) =~= key_hints(dialog, searching, mode));
    hints
}

/// The line of keys.
pub fn hints_line(app: &App, theme: &Theme) -> (r: Line)
    ensures
        r@ == hints_line_view(
            key_hints(app@.dialog, app@.search_before_edit is Some, app@.mode),
            *theme,
        ),
{
    let hints = hints_for(app.dialog, app.search_active(), app.mode);
    let ghost all = hint_views(hints@);
    let mut line = Line::empty();
    for i in 0..hints.len()
        invariant
            all == hint_views(hints@),
            line@ == hints_line_view(all.take(i as int), *theme),
    {
        line.push(Span::styled(hints[i].0, theme.accent));
        line.push(Span::raw(hints[i].1));
        assert(all.take(i + 1).drop_last() =~= all.take(i as int));
    }
    assert(all.take(hints@.len() as int) =~= all);
    line
}

/// What is shown where the screen is too small.
pub open spec fn too_small_view(width: u16, height: u16, theme: Theme) -> Seq<Seq<SpanView>> {
    seq![
        seq![
            crate::lines::span("gtab"@, theme.accent),
            crate::lines::span(" needs more room"@, crate::lines::plain()),
        ],
        Seq::<SpanView>::empty(),
        crate::lines::plain_line(
            "Current terminal: "@ + crate::number::decimal(width as nat) + "x"@
                + crate::number::decimal(height as nat),
        ),
        crate::lines::plain_line(
            "Recommended minimum: "@ + crate::number::decimal(MIN_WIDTH as nat) + "x"@
                + crate::number::decimal(MIN_HEIGHT as nat),
        ),
        Seq::<SpanView>::empty(),
        crate::lines::plain_line("Resize the terminal to show the dialog layout."@),
    ]
}

/// A size, behind a text.
fn size_text(before: &str, width: u16, height: u16) -> (r: String)
    ensures
        r@ == before@ + crate::number::decimal(width as nat) + "x"@ + crate::number::decimal(
            height as nat,
        ),
{
    let mut out = before.to_string();
    out.append(decimal_string(width as u128).as_str());
    out.append("x");
    out.append(decimal_string(height as u128).as_str());
    out
}

/// What is shown where the screen is too small.
pub fn too_small_text(width: u16, height: u16, theme: &Theme) -> (r: Text)
    ensures
        r@ == too_small_view(width, height, *theme),
{
    let mut text = Text::empty();
    let mut title = Line::styled("gtab", theme.accent);
    title.push(Span::raw(" needs more room"));
    assert(title@ =~= seq![
        crate::lines::span("gtab"@, theme.accent),
        crate::lines::span(" needs more room"@, crate::lines::plain()),
    ]);
    text.push(title);
    text.push(Line::empty());
    text.push(Line::raw(size_text("Current terminal: ", width, height).as_str()));
    text.push(Line::raw(size_text("Recommended minimum: ", MIN_WIDTH, MIN_HEIGHT).as_str()));
    text.push(Line::empty());
    text.push(Line::raw("Resize the terminal to show the dialog layout."));
    assert(text@ =~= too_small_view(width, height, *theme));
    text
}

// What the lists show.
/// The list of workspaces shows the name of each workspace that passes the filter, in
/// brackets, in order.
pub proof fn lists_show_names(s: AppState, theme: Theme, k: int)
    requires
        s.mode == BrowserMode::Workspace,
        0 <= k < s.visible().len(),
    ensures
        workspace_items_view(s, theme).len() == s.visible().len(),
        workspace_items_view(s, theme)[k].content == seq!['[']
            + s.workspaces[s.visible()[k]].name@ + seq![']'],
{
    reveal_strlit("[");
    reveal_strlit("]");
    assert("["@ =~= seq!['[']);
    assert("]"@ =~= seq![']']);
}

/// The cells of a row, with gaps between them.
proof fn lemma_grid_row(s: AppState, theme: Theme, from: int, to: int, end: int, i: int)
    requires
        from <= i < to <= end,
    ensures
        grid_row(s, theme, from, to, end).len() == 2 * (to - from) - (if to < end {
            0int
        } else {
            1int
        }),
        grid_row(s, theme, from, to, end)[2 * (i - from)] == grid_cell(s, theme, i),
    decreases to - from,
{
    let before = grid_row(s, theme, from, to - 1, end);
    let cell = grid_cell(s, theme, to - 1);
    let gap = crate::lines::span(crate::text::repeat(' ', 2), crate::lines::plain());
    let row = grid_row(s, theme, from, to, end);
    assert(row == if to < end {
        before.push(cell).push(gap)
    } else {
        before.push(cell)
    });
    if from < to - 1 {
        lemma_grid_row(s, theme, from, to - 1, end, if i < to - 1 {
            i
        } else {
            from
        });
    } else {
        assert(before.len() == 0);
    }
    assert(before.len() == 2 * (to - 1 - from));
    if i == to - 1 {
        assert(row[before.len() as int] == cell);
    } else {
        assert(row[2 * (i - from)] == before[2 * (i - from)]);
    }
}

/// The grid shows each directory of the page in its row and column, by its name in
/// brackets, and marks the selected one and no other.
pub proof fn grid_shows_names(s: AppState, theme: Theme, place: int)
    requires
        s.mode == BrowserMode::Directory,
        s.list_offset >= 0,
        grid_start(s) <= place < grid_end(s),
    ensures
        ({
            let row = place / s.columns() - s.list_offset;
            let column = place % s.columns();
            let shown = grid_text(s, theme)[row][2 * column];
            let label = seq!['['] + s.directories[s.visible()[place]].name@ + seq![']'];
            &&& 0 <= row < grid_text(s, theme).len()
            &&& 0 <= 2 * column < grid_text(s, theme)[row].len()
            &&& shown.content == crate::lines::cell_text(label, s.cell_width())
            &&& shown.style == if place == s.selected {
                theme.selection
            } else {
                theme.emphasis
            }
        }),
{
    reveal_strlit("[");
    reveal_strlit("]");
    assert("["@ =~= seq!['[']);
    assert("]"@ =~= seq![']']);
    crate::app::grid_fits_the_list(s);
    let c = s.columns();
    let start = s.list_offset * c;
    let end = grid_end(s);
    let q = place / c;
    let column = place % c;
    let row = q - s.list_offset;
    assert(place == q * c + column && 0 <= column < c) by {
        vstd::arithmetic::div_mod::lemma_fundamental_div_mod(place, c);
        assert(q * c == c * q) by (nonlinear_arith);
    }
    assert(row >= 0) by (nonlinear_arith)
        requires
            place >= s.list_offset * c,
            place == q * c + column,
            0 <= column < c,
            row == q - s.list_offset,
    ;
    assert(start + row * c == q * c) by (nonlinear_arith)
        requires
            start == s.list_offset * c,
            row == q - s.list_offset,
    ;
    let n = end - start;
    assert(row < (n + c - 1) / c) by (nonlinear_arith)
        requires
            c >= 1,
            row >= 0,
            row * c < n,
    ;
    let from = grid_start(s) + row * c;
    let to = crate::geometry::min(end, from + c);
    lemma_grid_row(s, theme, from, to, to, place);
    assert(place - from == column);
}

/// Tabs in a row are named by their titles, in order.
pub proof fn tabs_are_shown_by_title(tabs: Seq<WorkspaceTab>, theme: Theme, i: int)
    requires
        0 <= i < tabs.len(),
    ensures
        tabs_line(tabs, theme).len() == 2 * tabs.len(),
        tabs_line(tabs, theme)[2 * i].content == "「"@ + tabs[i].title@ + "」"@,
    decreases tabs.len(),
{
    if tabs.len() > 1 {
        let front = tabs.drop_last();
        if i < front.len() {
            tabs_are_shown_by_title(front, theme, i);
            assert(front[i] == tabs[i]);
        } else {
            tabs_are_shown_by_title(front, theme, 0);
        }
    } else {
        assert(tabs.drop_last() =~= Seq::<WorkspaceTab>::empty());
        assert(tabs_line(Seq::<WorkspaceTab>::empty(), theme).len() == 0);
    }
}

/// The tabs of a preview come in order, each with its number and its title above its
/// picture, as many as there is room for.
pub proof fn previews_come_in_order(
    tabs: Seq<WorkspaceTabLayout>,
    k: int,
    left: int,
    width: int,
    theme: Theme,
    i: int,
)
    requires
        0 <= k,
        0 <= i,
        k + i < tabs.len(),
        left - 7 * i >= 1,
        width >= 0,
    ensures
        ({
            let shown = previews(tabs, k, left, width, theme);
            &&& 7 * i < shown.len()
            &&& shown[7 * i][1].content == tabs[k + i].title@
            &&& shown[7 * i][0].content == tab_number((k + i + 1) as nat)
            &&& left - 7 * i >= 6 ==> 7 * i + 5 < shown.len() && forall|r: int|
                0 <= r < 5 ==> (#[trigger] shown[7 * i + 1 + r])[0].content
                    == crate::preview::tab_picture(
                    crate::layout::pane_tree(tabs[k + i].root),
                    width,
                    5,
                )[r]
        }),
    decreases i,
{
    let shown = previews(tabs, k, left, width, theme);
    let head = seq![tab_header(tabs[k], k, theme)];
    let pictures = picture_lines(tabs[k], width, theme);
    assert(pictures.len() == 5);
    if i == 0 {
        if left >= 6 {
            assert forall|r: int| 0 <= r < 5 implies (#[trigger] shown[7 * i + 1 + r])[0].content
                == crate::preview::tab_picture(
                crate::layout::pane_tree(tabs[k + i].root),
                width,
                5,
            )[r] by {
                assert(shown[1 + r] == pictures[r]);
            }
        }
    } else {
        previews_come_in_order(tabs, k + 1, left - 7, width, theme, i - 1);
        let rest = previews(tabs, k + 1, left - 7, width, theme);
        let front = head + pictures + seq![Seq::<SpanView>::empty()];
        assert(front.len() == 7);
        assert(shown =~= front + rest);
        assert(shown[7 * i] == rest[7 * (i - 1)]);
        if left - 7 * i >= 6 {
            assert forall|r: int| 0 <= r < 5 implies (#[trigger] shown[7 * i + 1 + r])[0].content
                == crate::preview::tab_picture(
                crate::layout::pane_tree(tabs[k + i].root),
                width,
                5,
            )[r] by {
                assert(shown[7 * i + 1 + r] == rest[7 * (i - 1) + 1 + r]);
            }
        }
    }
}

/// The preview is that of the selected workspace.
pub proof fn previews_are_of_the_selection(s: AppState, width: int, height: int, theme: Theme)
    requires
        s.mode == BrowserMode::Workspace,
        0 <= s.selected < s.visible().len(),
        height >= 1,
    ensures
        ({
            let w = s.workspaces[s.visible()[s.selected]];
            let shown = preview_text(s, width, height, theme);
            &&& w.layout@.len() > 0 ==> shown.len() > 0 && shown[0][1].content
                == w.layout@[0].title@
            &&& w.layout@.len() == 0 && w.tabs@.len() > 0 ==> shown.len() == 1
                && shown[0][0].content == "「"@ + w.tabs@[0].title@ + "」"@
        }),
{
    let w = s.workspaces[s.visible()[s.selected]];
    if w.layout@.len() > 0 {
        previews_come_in_order(
            w.layout@,
            0,
            height,
            crate::geometry::max(width, 12),
            theme,
            0,
        );
    } else if w.tabs@.len() > 0 {
        tabs_are_shown_by_title(w.tabs@, theme, 0);
    }
}

/// A tab's number is written with a dot and a space, and takes four columns at least.
pub proof fn tab_numbers_are_written_out(n: nat)
    ensures
        tab_number(n).len() >= 4,
        n < 10 ==> tab_number(n) == seq![' '] + crate::number::decimal(n) + seq!['.', ' '],
        n >= 10 ==> tab_number(n) == crate::number::decimal(n) + seq!['.', ' '],
{
    reveal_strlit(" ");
    reveal_strlit(". ");
    assert(" "@ =~= seq![' ']);
    assert(". "@ =~= seq!['.', ' ']);
    crate::number::decimal_reads_back(n);
    if n >= 10 {
        crate::number::decimal_reads_back(n / 10);
        assert(crate::number::decimal(n / 10).len() > 0);
    }
}

/// What is typed, what is said and what is set is shown: the filter above the list, the
/// status line with its text, and the shortcut beside the tabs, where there is room.
pub proof fn texts_are_shown(s: AppState, shortcut: Seq<char>, width: int, theme: Theme)
    ensures
        s.filter.len() > 0 && s.filter.len() + 2 <= width ==> prompt_view(s, width, theme)[1].content
            == s.filter,
        s.status is Some ==> status_view(s, theme)[1].content == (s.status->0).1,
        shortcut.len() + 19 <= width ==> quick_text(shortcut, width, theme)[1][0].content
            == "shortcut "@ + shortcut,
{
    reveal_strlit("shortcut ");
    reveal_strlit("click / g");
    if shortcut.len() + 19 <= width {
        crate::lines::both_ends_are_shown(width, "shortcut "@ + shortcut, "click / g"@);
    }
}

/// A key that the footer names, and that is one character, does something in the list: it
/// asks for something, or it changes what is shown.
pub proof fn named_keys_do_something(
    s: AppState,
    key: crate::key::KeyEvent,
    shortcut: Seq<char>,
    current_dir: Option<Seq<char>>,
    now: u64,
    i: int,
)
    requires
        s.dialog == Dialog::Closed,
        s.search_before_edit is None,
        crate::input::has_selection(s),
        0 <= i < key_hints(s.dialog, false, s.mode).len(),
        key_hints(s.dialog, false, s.mode)[i].0.len() == 1,
        key.code == crate::key::KeyCode::Char(key_hints(s.dialog, false, s.mode)[i].0[0]),
        !key.modifiers.control,
    ensures
        match crate::input::any_key(s, key, shortcut, current_dir, now) {
            Some((t, action)) => !(action is Nothing) || t.dialog != s.dialog || t.mode != s.mode
                || t.search_before_edit != s.search_before_edit,
            None => false,
        },
{
    reveal_strlit("Enter");
    reveal_strlit("f");
    reveal_strlit("/");
    reveal_strlit("a");
    reveal_strlit("n");
    reveal_strlit("d");
    reveal_strlit("e");
    reveal_strlit("t");
    reveal_strlit("g");
    reveal_strlit("?");
    reveal_strlit("q");
}

/// Where the screen is too small, its size and the size that it needs are told.
pub proof fn sizes_are_told(width: u16, height: u16, theme: Theme)
    ensures
        ({
            let shown = too_small_view(width, height, theme);
            &&& shown[2][0].content == "Current terminal: "@ + crate::number::decimal(width as nat)
                + "x"@ + crate::number::decimal(height as nat)
            &&& shown[3][0].content == "Recommended minimum: "@ + crate::number::decimal(52)
                + "x"@ + crate::number::decimal(15)
        }),
{
}

} // verus!
