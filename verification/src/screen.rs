//! The screen: where everything is drawn, and what is drawn there.

use vstd::prelude::*;

use crate::app::{App, AppState, BrowserMode, Dialog};
use crate::dialogs::{dialog_keys, dialog_size, dialog_text, dialog_title, Places};
use crate::env::AppEnv;
use crate::geometry::{
    centered_rect, inner_area, inner_columns, shell_rect, split_in_three, split_in_two, Borders,
    Constraint, Direction, Rect,
};
use crate::lines::{joined_line, Line, Span, SpanView, Style, Text, Theme};
use crate::text::is_empty_str;
use crate::view::{
    directory_list_text, hints_line, prompt_line, quick_settings_text, status_line,
    too_small_text, workspace_items, workspace_tabs_preview_text, MIN_HEIGHT, MIN_WIDTH,
};

verus! {

/// How long lines are broken.
#[derive(Clone, Copy, Debug, PartialEq, Eq, Structural)]
pub enum Wrap {
    /// They are cut.
    No,
    /// They are broken as they are.
    Keep,
    /// They are broken, without white space at the start of a line.
    Trim,
}

/// Something that is drawn.
#[derive(Clone, Debug)]
pub enum Widget {
    /// What was drawn before is removed.
    Clear { area: Rect },
    /// A frame.
    Block { area: Rect, borders: Borders, style: Style, title: Option<&'static str> },
    /// A text.
    Paragraph { area: Rect, text: Text, style: Style, wrap: Wrap, centered: bool },
    /// A list.
    List {
        area: Rect,
        items: Vec<Span>,
        highlight: Style,
        selected: Option<usize>,
        offset: usize,
    },
}

/// What is drawn.
pub enum WidgetView {
    Clear { area: Rect },
    Block { area: Rect, borders: Borders, style: Style, title: Option<Seq<char>> },
    Paragraph { area: Rect, text: Seq<Seq<SpanView>>, style: Style, wrap: Wrap, centered: bool },
    List {
        area: Rect,
        items: Seq<SpanView>,
        highlight: Style,
        selected: Option<int>,
        offset: int,
    },
}

impl View for Widget {
    type V = WidgetView;

    open spec fn view(&self) -> WidgetView {
        match self {
            Widget::Clear { area } => WidgetView::Clear { area: *area },
            Widget::Block { area, borders, style, title } => WidgetView::Block {
                area: *area,
                borders: *borders,
                style: *style,
                title: match title {
                    Some(text) => Some(text@),
                    None => None,
                },
            },
            Widget::Paragraph { area, text, style, wrap, centered } => WidgetView::Paragraph {
                area: *area,
                text: text@,
                style: *style,
                wrap: *wrap,
                centered: *centered,
            },
            Widget::List { area, items, highlight, selected, offset } => WidgetView::List {
                area: *area,
                items: crate::lines::span_views(items@),
                highlight: *highlight,
                selected: match selected {
                    Some(k) => Some(*k as int),
                    None => None,
                },
                offset: *offset as int,
            },
        }
    }
}

/// What is drawn.
pub open spec fn widget_views(widgets: Seq<Widget>) -> Seq<WidgetView> {
    widgets.map_values(|w: Widget| w@)
}

// Areas.
/// The areas of a dialog.
#[derive(Clone, Copy, Debug, PartialEq, Eq, Structural)]
pub struct DialogAreas {
    pub frame: Rect,
    pub title: Rect,
    pub content: Rect,
    pub rule: Rect,
    pub keys: Rect,
}

/// The areas inside the frame of the body.
#[derive(Clone, Copy, Debug, PartialEq, Eq, Structural)]
pub enum BodyAreas {
    Workspaces { panel: Rect, prompt: Option<Rect>, list: Rect, tabs: Rect, quick: Rect },
    Directories { list: Rect },
}

/// The areas of the screen.
#[derive(Clone, Copy, Debug, PartialEq, Eq, Structural)]
pub enum Areas {
    TooSmall { message: Rect },
    Full {
        shell: Rect,
        body: Rect,
        parts: BodyAreas,
        footer: Rect,
        status: Rect,
        hints: Rect,
        dialog: Option<DialogAreas>,
    },
}

/// The list of workspaces, its filter and its tabs are laid out in this way.
pub open spec fn body_laid_out(body: Rect, mode: BrowserMode, prompted: bool, parts: BodyAreas) -> bool {
    let inner = crate::geometry::inside(Borders::All, body);
    match parts {
        BodyAreas::Directories { list } => mode == BrowserMode::Directory && list == inner,
        BodyAreas::Workspaces { panel, prompt, list, tabs, quick } => {
            let column = crate::geometry::inside(Borders::Right, panel);
            &&& mode == BrowserMode::Workspace
            &&& exists|detail: Rect|
                {
                    &&& #[trigger] crate::geometry::splits_in_two(
                        Direction::Horizontal,
                        Constraint::Length(24),
                        Constraint::Min(24),
                        inner,
                        panel,
                        detail,
                    )
                    &&& crate::geometry::splits_in_two(
                        Direction::Horizontal,
                        Constraint::Percentage(50),
                        Constraint::Percentage(50),
                        detail,
                        tabs,
                        quick,
                    )
                }
            &&& match prompt {
                Some(line) => prompted && crate::geometry::splits_in_two(
                    Direction::Vertical,
                    Constraint::Length(1),
                    Constraint::Min(1),
                    column,
                    line,
                    list,
                ),
                None => !prompted && list == column,
            }
        },
    }
}

/// A dialog is laid out in this way.
pub open spec fn dialog_laid_out(area: Rect, dialog: Dialog, parts: DialogAreas) -> bool {
    let (percent_x, percent_y) = crate::dialogs::size_of_dialog(dialog);
    &&& crate::geometry::is_centered(percent_x, percent_y, area, parts.frame)
    &&& exists|bottom: Rect|
        {
            &&& #[trigger] crate::geometry::splits_in_three(
                Direction::Vertical,
                Constraint::Length(1),
                Constraint::Min(3),
                Constraint::Length(2),
                crate::geometry::inside(Borders::All, parts.frame),
                parts.title,
                parts.content,
                bottom,
            )
            &&& crate::geometry::splits_in_two(
                Direction::Vertical,
                Constraint::Length(1),
                Constraint::Length(1),
                bottom,
                parts.rule,
                parts.keys,
            )
        }
}

/// The screen is too small.
pub open spec fn too_small(area: Rect) -> bool {
    area.width < MIN_WIDTH || area.height < MIN_HEIGHT
}

/// The screen is laid out in this way.
pub open spec fn laid_out(
    area: Rect,
    mode: BrowserMode,
    prompted: bool,
    dialog: Dialog,
    areas: Areas,
) -> bool {
    match areas {
        Areas::TooSmall { message } => too_small(area) && crate::geometry::is_centered(
            58,
            40,
            area,
            message,
        ),
        Areas::Full { shell, body, parts, footer, status, hints, dialog: open } => {
            &&& !too_small(area)
            &&& shell == crate::geometry::shell_area(area)
            &&& crate::geometry::splits_in_two(
                Direction::Vertical,
                Constraint::Min(10),
                Constraint::Length(3),
                crate::geometry::inside(Borders::All, shell),
                body,
                footer,
            )
            &&& body_laid_out(body, mode, prompted, parts)
            &&& crate::geometry::splits_in_two(
                Direction::Vertical,
                Constraint::Length(1),
                Constraint::Length(1),
                crate::geometry::inside(Borders::Top, footer),
                status,
                hints,
            )
            &&& match open {
                Some(parts) => dialog != Dialog::Closed && dialog_laid_out(area, dialog, parts),
                None => dialog == Dialog::Closed,
            }
        },
    }
}

/// The areas of a dialog lie in an area.
pub open spec fn dialog_within(parts: DialogAreas, area: Rect) -> bool {
    &&& crate::geometry::lies_in(parts.frame, area)
    &&& crate::geometry::lies_in(parts.title, area)
    &&& crate::geometry::lies_in(parts.content, area)
    &&& crate::geometry::lies_in(parts.rule, area)
    &&& crate::geometry::lies_in(parts.keys, area)
}

/// The areas of the body lie in an area.
pub open spec fn body_within(parts: BodyAreas, area: Rect) -> bool {
    match parts {
        BodyAreas::Workspaces { panel, prompt, list, tabs, quick } => {
            &&& crate::geometry::lies_in(panel, area)
            &&& prompt matches Some(line) ==> crate::geometry::lies_in(line, area)
            &&& crate::geometry::lies_in(list, area)
            &&& crate::geometry::lies_in(tabs, area)
            &&& crate::geometry::lies_in(quick, area)
        },
        BodyAreas::Directories { list } => crate::geometry::lies_in(list, area),
    }
}

/// The areas of the screen lie in an area.
pub open spec fn areas_within(areas: Areas, area: Rect) -> bool {
    match areas {
        Areas::TooSmall { message } => crate::geometry::lies_in(message, area),
        Areas::Full { shell, body, parts, footer, status, hints, dialog } => {
            &&& crate::geometry::lies_in(shell, area)
            &&& crate::geometry::lies_in(body, area)
            &&& body_within(parts, area)
            &&& crate::geometry::lies_in(footer, area)
            &&& crate::geometry::lies_in(status, area)
            &&& crate::geometry::lies_in(hints, area)
            &&& dialog matches Some(open) ==> dialog_within(open, area)
        },
    }
}

/// Lays out the body.
fn lay_out_body(body: Rect, mode: BrowserMode, prompted: bool) -> (r: BodyAreas)
    ensures
        body_laid_out(body, mode, prompted, r),
        body_within(r, body),
{
    let inner = inner_area(Borders::All, body);
    proof {
        crate::geometry::lemma_parts_lie_in(body, Borders::All);
    }
    match mode {
        BrowserMode::Directory => BodyAreas::Directories { list: inner },
        BrowserMode::Workspace => {
            let (panel, detail) = split_in_two(
                Direction::Horizontal,
                Constraint::Length(24),
                Constraint::Min(24),
                inner,
            );
            let column = inner_area(Borders::Right, panel);
            proof {
                crate::geometry::lemma_parts_lie_in(panel, Borders::Right);
            }
            let (prompt, list) = if prompted {
                let (line, below) = split_in_two(
                    Direction::Vertical,
                    Constraint::Length(1),
                    Constraint::Min(1),
                    column,
                );
                (Some(line), below)
            } else {
                (None, column)
            };
            let (tabs, quick) = split_in_two(
                Direction::Horizontal,
                Constraint::Percentage(50),
                Constraint::Percentage(50),
                detail,
            );
            assert(crate::geometry::splits_in_two(
                Direction::Horizontal,
                Constraint::Length(24),
                Constraint::Min(24),
                crate::geometry::inside(Borders::All, body),
                panel,
                detail,
            ));
            let r = BodyAreas::Workspaces { panel, prompt, list, tabs, quick };
            proof {
                crate::geometry::lies_in_is_transitive(panel, inner, body);
                crate::geometry::lies_in_is_transitive(detail, inner, body);
                crate::geometry::lies_in_is_transitive(tabs, detail, body);
                crate::geometry::lies_in_is_transitive(quick, detail, body);
                crate::geometry::lies_in_is_transitive(column, panel, body);
                match prompt {
                    Some(line) => {
                        crate::geometry::lies_in_is_transitive(line, column, body);
                        crate::geometry::lies_in_is_transitive(list, column, body);
                    },
                    None => {},
                }
            }
            assert(body_laid_out(body, mode, prompted, r));
            r
        },
    }
}

/// Lays out a dialog.
fn lay_out_dialog(area: Rect, dialog: Dialog) -> (r: DialogAreas)
    ensures
        dialog_laid_out(area, dialog, r),
        dialog_within(r, area),
{
    let (percent_x, percent_y) = dialog_size(dialog);
    let frame = centered_rect(percent_x, percent_y, area);
    let inner = inner_area(Borders::All, frame);
    proof {
        crate::geometry::lemma_parts_lie_in(frame, Borders::All);
    }
    let (title, content, bottom) = split_in_three(
        Direction::Vertical,
        Constraint::Length(1),
        Constraint::Min(3),
        Constraint::Length(2),
        inner,
    );
    let (rule, keys) = split_in_two(
        Direction::Vertical,
        Constraint::Length(1),
        Constraint::Length(1),
        bottom,
    );
    let r = DialogAreas { frame, title, content, rule, keys };
    proof {
        crate::geometry::lies_in_is_transitive(inner, frame, area);
        crate::geometry::lies_in_is_transitive(title, inner, area);
        crate::geometry::lies_in_is_transitive(content, inner, area);
        crate::geometry::lies_in_is_transitive(bottom, inner, area);
        crate::geometry::lies_in_is_transitive(rule, bottom, area);
        crate::geometry::lies_in_is_transitive(keys, bottom, area);
    }
    assert(crate::geometry::splits_in_three(
        Direction::Vertical,
        Constraint::Length(1),
        Constraint::Min(3),
        Constraint::Length(2),
        crate::geometry::inside(Borders::All, r.frame),
        r.title,
        r.content,
        bottom,
    ));
    r
}

proof fn lemma_body_within(parts: BodyAreas, body: Rect, area: Rect)
    requires
        body_within(parts, body),
        crate::geometry::lies_in(body, area),
    ensures
        body_within(parts, area),
{
    match parts {
        BodyAreas::Workspaces { panel, prompt, list, tabs, quick } => {
            crate::geometry::lies_in_is_transitive(panel, body, area);
            crate::geometry::lies_in_is_transitive(list, body, area);
            crate::geometry::lies_in_is_transitive(tabs, body, area);
            crate::geometry::lies_in_is_transitive(quick, body, area);
            match prompt {
                Some(line) => {
                    crate::geometry::lies_in_is_transitive(line, body, area);
                },
                None => {},
            }
        },
        BodyAreas::Directories { list } => {
            crate::geometry::lies_in_is_transitive(list, body, area);
        },
    }
}

/// Lays out the screen.
pub fn lay_out(area: Rect, mode: BrowserMode, prompted: bool, dialog: Dialog) -> (r: Areas)
    ensures
        laid_out(area, mode, prompted, dialog, r),
        areas_within(r, area),
{
    if area.width < MIN_WIDTH || area.height < MIN_HEIGHT {
        return Areas::TooSmall { message: centered_rect(58, 40, area) };
    }
    let shell = shell_rect(area);
    proof {
        crate::geometry::lemma_parts_lie_in(area, Borders::All);
        crate::geometry::lemma_parts_lie_in(shell, Borders::All);
    }
    let inner = inner_area(Borders::All, shell);
    let (body, footer) = split_in_two(
        Direction::Vertical,
        Constraint::Min(10),
        Constraint::Length(3),
        inner,
    );
    let parts = lay_out_body(body, mode, prompted);
    let footer_inner = inner_area(Borders::Top, footer);
    let (status, hints) = split_in_two(
        Direction::Vertical,
        Constraint::Length(1),
        Constraint::Length(1),
        footer_inner,
    );
    proof {
        crate::geometry::lies_in_is_transitive(inner, shell, area);
        crate::geometry::lies_in_is_transitive(body, inner, area);
        crate::geometry::lies_in_is_transitive(footer, inner, area);
        lemma_body_within(parts, body, area);
        crate::geometry::lemma_parts_lie_in(footer, Borders::Top);
        crate::geometry::lies_in_is_transitive(footer_inner, footer, area);
        crate::geometry::lies_in_is_transitive(status, footer_inner, area);
        crate::geometry::lies_in_is_transitive(hints, footer_inner, area);
    }
    let open = if dialog == Dialog::Closed {
        None
    } else {
        Some(lay_out_dialog(area, dialog))
    };
    Areas::Full { shell, body, parts, footer, status, hints, dialog: open }
}

// Widgets.
/// A frame without a title.
pub open spec fn frame_view(area: Rect, borders: Borders, style: Style) -> WidgetView {
    WidgetView::Block { area, borders, style, title: None }
}

/// A text that is not aligned.
pub open spec fn text_view(
    area: Rect,
    text: Seq<Seq<SpanView>>,
    style: Style,
    wrap: Wrap,
) -> WidgetView {
    WidgetView::Paragraph { area, text, style, wrap, centered: false }
}

/// A line.
pub open spec fn line_view(area: Rect, line: Seq<SpanView>, style: Style) -> WidgetView {
    text_view(area, seq![line], style, Wrap::No)
}

/// The area in which a widget is drawn.
pub open spec fn widget_area(widget: WidgetView) -> Rect {
    match widget {
        WidgetView::Clear { area } => area,
        WidgetView::Block { area, borders, style, title } => area,
        WidgetView::Paragraph { area, text, style, wrap, centered } => area,
        WidgetView::List { area, items, highlight, selected, offset } => area,
    }
}

/// The area of the shortcut beside the tabs.
pub open spec fn shortcut_area_in(quick: Rect) -> Rect {
    let inner = crate::geometry::without_edges(quick);
    crate::geometry::rect(
        inner.x as int,
        crate::geometry::min(inner.y + 1, 65535),
        inner.width as int,
        1,
    )
}

impl AppState {
    /// A filter is shown above the list.
    pub open spec fn prompted(self) -> bool {
        self.search_before_edit is Some || self.filter.len() > 0
    }

    /// The state once the screen is laid out: where the list and the shortcut are, and
    /// which directories are shown.
    pub open spec fn placed(self, areas: Areas) -> AppState {
        match areas {
            Areas::TooSmall { message } => self,
            Areas::Full { shell, body, parts, footer, status, hints, dialog } => match parts {
                BodyAreas::Workspaces { panel, prompt, list, tabs, quick } => AppState {
                    list_area: list,
                    shortcut_area: shortcut_area_in(quick),
                    ..self
                },
                BodyAreas::Directories { list } => (AppState {
                    list_area: list,
                    shortcut_area: Rect { x: 0, y: 0, width: 0, height: 0 },
                    ..self
                }).offset_clamped().scrolled(),
            },
        }
    }
}

/// What is drawn inside the frame of the body.
pub open spec fn body_widgets(
    s: AppState,
    shortcut: Seq<char>,
    parts: BodyAreas,
    theme: Theme,
) -> Seq<WidgetView> {
    match parts {
        BodyAreas::Directories { list } => seq![
            text_view(
                list,
                crate::view::directories_text(s, theme),
                crate::lines::plain(),
                Wrap::Keep,
            ),
        ],
        BodyAreas::Workspaces { panel, prompt, list, tabs, quick } => {
            let tabs_inner = crate::geometry::without_edges(tabs);
            let quick_inner = crate::geometry::without_edges(quick);
            seq![frame_view(panel, Borders::Right, theme.border)] + (match prompt {
                Some(line) => seq![
                    line_view(
                        line,
                        crate::view::prompt_view(s, line.width as int, theme),
                        crate::lines::plain(),
                    ),
                ],
                None => seq![],
            }) + seq![
                WidgetView::List {
                    area: list,
                    items: crate::view::workspace_items_view(s, theme),
                    highlight: theme.selection,
                    selected: if s.visible().len() == 0 {
                        None
                    } else {
                        Some(s.selected)
                    },
                    offset: s.list_offset,
                },
                frame_view(tabs, Borders::Right, theme.border),
                text_view(
                    tabs_inner,
                    crate::view::preview_text(
                        s,
                        tabs_inner.width as int,
                        tabs_inner.height as int,
                        theme,
                    ),
                    crate::lines::plain(),
                    Wrap::No,
                ),
                text_view(
                    quick_inner,
                    crate::view::quick_text(shortcut, quick_inner.width as int, theme),
                    crate::lines::plain(),
                    Wrap::Keep,
                ),
            ]
        },
    }
}

/// What is drawn of a dialog.
pub open spec fn dialog_widgets(
    s: AppState,
    settings: crate::config::Settings,
    current_dir: Option<Seq<char>>,
    home: Option<Seq<char>>,
    parts: DialogAreas,
    theme: Theme,
) -> Seq<WidgetView> {
    seq![
        WidgetView::Clear { area: parts.frame },
        frame_view(parts.frame, Borders::All, theme.border_active),
        line_view(
            parts.title,
            crate::lines::joined(
                parts.title.width as int,
                crate::dialogs::title_of(s.dialog),
                "x"@,
                theme.titlebar,
                theme.titlebar_dim,
            ),
            theme.titlebar,
        ),
        frame_view(parts.rule, Borders::Top, theme.border),
        line_view(
            parts.keys,
            crate::lines::plain_line(crate::dialogs::keys_of(s.dialog)),
            theme.dim,
        ),
        text_view(
            parts.content,
            crate::dialogs::dialog_view(
                s,
                settings,
                current_dir,
                home,
                parts.content.width as int,
                theme,
            ),
            crate::lines::plain(),
            Wrap::Trim,
        ),
    ]
}

/// What is drawn, in this order.
pub open spec fn screen_widgets(
    s: AppState,
    settings: crate::config::Settings,
    current_dir: Option<Seq<char>>,
    home: Option<Seq<char>>,
    area: Rect,
    areas: Areas,
    theme: Theme,
) -> Seq<WidgetView> {
    match areas {
        Areas::TooSmall { message } => seq![
            WidgetView::Block {
                area: message,
                borders: Borders::All,
                style: theme.border_active,
                title: Some("Resize Required"@),
            },
            WidgetView::Paragraph {
                area: crate::geometry::inside(Borders::All, message),
                text: crate::view::too_small_view(area.width, area.height, theme),
                style: crate::lines::plain(),
                wrap: Wrap::No,
                centered: true,
            },
        ],
        Areas::Full { shell, body, parts, footer, status, hints, dialog } => seq![
            frame_view(shell, Borders::All, theme.border_active),
            frame_view(body, Borders::All, theme.border),
        ] + body_widgets(s, settings.shortcut, parts, theme) + seq![
            frame_view(footer, Borders::Top, theme.border),
            line_view(status, crate::view::status_view(s, theme), crate::lines::plain()),
            line_view(
                hints,
                crate::view::hints_line_view(
                    crate::view::key_hints(s.dialog, s.search_before_edit is Some, s.mode),
                    theme,
                ),
                crate::lines::plain(),
            ),
        ] + (match dialog {
            Some(parts) => dialog_widgets(s, settings, current_dir, home, parts, theme),
            None => seq![],
        }),
    }
}

/// A frame without a title.
fn block(area: Rect, borders: Borders, style: Style) -> (r: Widget)
    ensures
        r@ == frame_view(area, borders, style),
{
    Widget::Block { area, borders, style, title: None }
}

/// A text.
fn paragraph(area: Rect, text: Text, style: Style, wrap: Wrap) -> (r: Widget)
    ensures
        r@ == text_view(area, text@, style, wrap),
{
    Widget::Paragraph { area, text, style, wrap, centered: false }
}

/// A line.
fn single_line(area: Rect, line: Line, style: Style) -> (r: Widget)
    ensures
        r@ == line_view(area, line@, style),
{
    let ghost view = line@;
    let mut text = Text::empty();
    text.push(line);
    assert(text@ =~= seq![view]);
    paragraph(area, text, style, Wrap::No)
}

/// Appends a widget.
fn add_widget(out: &mut Vec<Widget>, widget: Widget)
    ensures
        widget_views(final(out)@) == widget_views(old(out)@).push(widget@),
{
    out.push(widget);
    assert(widget_views(out@) =~= widget_views(old(out)@).push(widget@));
}

/// Draws what is inside the frame of the body.
fn draw_body(app: &App, env: &AppEnv, parts: BodyAreas, theme: &Theme, out: &mut Vec<Widget>)
    requires
        parts is Workspaces <==> app.mode == BrowserMode::Workspace,
    ensures
        widget_views(final(out)@) == widget_views(old(out)@) + body_widgets(
            app@,
            env.config.ghostty_shortcut@,
            parts,
            *theme,
        ),
{
    let ghost before = widget_views(out@);
    match parts {
        BodyAreas::Directories { list } => {
            add_widget(
                out,
                paragraph(list, directory_list_text(app, theme), Style::plain(), Wrap::Keep),
            );
        },
        BodyAreas::Workspaces { panel, prompt, list, tabs, quick } => {
            add_widget(out, block(panel, Borders::Right, theme.border));
            match prompt {
                Some(line) => {
                    add_widget(
                        out,
                        single_line(line, prompt_line(app, line.width, theme), Style::plain()),
                    );
                },
                None => {},
            }
            let items = workspace_items(app, theme);
            let selected = if app.visible_indices().len() == 0 {
                None
            } else {
                Some(app.selected)
            };
            add_widget(
                out,
                Widget::List {
                    area: list,
                    items,
                    highlight: theme.selection,
                    selected,
                    offset: app.list_offset,
                },
            );
            add_widget(out, block(tabs, Borders::Right, theme.border));
            let tabs_inner = inner_columns(tabs);
            add_widget(
                out,
                paragraph(
                    tabs_inner,
                    workspace_tabs_preview_text(
                        app,
                        tabs_inner.width,
                        tabs_inner.height,
                        theme,
                    ),
                    Style::plain(),
                    Wrap::No,
                ),
            );
            let quick_inner = inner_columns(quick);
            add_widget(
                out,
                paragraph(
                    quick_inner,
                    quick_settings_text(env, quick_inner.width, theme),
                    Style::plain(),
                    Wrap::Keep,
                ),
            );
        },
    }
    assert(widget_views(out@) =~= before + body_widgets(
        app@,
        env.config.ghostty_shortcut@,
        parts,
        *theme,
    ));
}

/// Draws a dialog.
fn draw_dialog(
    app: &App,
    env: &AppEnv,
    places: Places,
    parts: DialogAreas,
    theme: &Theme,
    out: &mut Vec<Widget>,
)
    ensures
        widget_views(final(out)@) == widget_views(old(out)@) + dialog_widgets(
            app@,
            env.config@,
            crate::dialogs::place_view(places.current_dir),
            crate::dialogs::place_view(places.home),
            parts,
            *theme,
        ),
{
    let ghost before = widget_views(out@);
    add_widget(out, Widget::Clear { area: parts.frame });
    add_widget(out, block(parts.frame, Borders::All, theme.border_active));
    let title = joined_line(
        parts.title.width,
        dialog_title(app.dialog),
        "x",
        theme.titlebar,
        theme.titlebar_dim,
    );
    add_widget(out, single_line(parts.title, title, theme.titlebar));
    add_widget(out, block(parts.rule, Borders::Top, theme.border));
    add_widget(out, single_line(parts.keys, Line::raw(dialog_keys(app.dialog)), theme.dim));
    add_widget(
        out,
        paragraph(
            parts.content,
            dialog_text(app, env, places, parts.content.width, theme),
            Style::plain(),
            Wrap::Trim,
        ),
    );
    assert(widget_views(out@) =~= before + dialog_widgets(
        app@,
        env.config@,
        crate::dialogs::place_view(places.current_dir),
        crate::dialogs::place_view(places.home),
        parts,
        *theme,
    ));
}

/// The areas suit what is listed.
pub open spec fn suits(areas: Areas, mode: BrowserMode) -> bool {
    match areas {
        Areas::TooSmall { message } => true,
        Areas::Full { shell, body, parts, footer, status, hints, dialog } => parts is Workspaces
            <==> mode == BrowserMode::Workspace,
    }
}

/// Draws the screen.
pub fn draw_areas(
    app: &App,
    env: &AppEnv,
    places: Places,
    area: Rect,
    areas: Areas,
    theme: &Theme,
) -> (r: Vec<Widget>)
    requires
        suits(areas, app.mode),
    ensures
        widget_views(r@) == screen_widgets(
            app@,
            env.config@,
            crate::dialogs::place_view(places.current_dir),
            crate::dialogs::place_view(places.home),
            area,
            areas,
            *theme,
        ),
{
    let mut out: Vec<Widget> = Vec::new();
    match areas {
        Areas::TooSmall { message } => {
            add_widget(
                &mut out,
                Widget::Block {
                    area: message,
                    borders: Borders::All,
                    style: theme.border_active,
                    title: Some("Resize Required"),
                },
            );
            add_widget(
                &mut out,
                Widget::Paragraph {
                    area: inner_area(Borders::All, message),
                    text: too_small_text(area.width, area.height, theme),
                    style: Style::plain(),
                    wrap: Wrap::No,
                    centered: true,
                },
            );
        },
        Areas::Full { shell, body, parts, footer, status, hints, dialog } => {
            add_widget(&mut out, block(shell, Borders::All, theme.border_active));
            add_widget(&mut out, block(body, Borders::All, theme.border));
            draw_body(app, env, parts, theme, &mut out);
            add_widget(&mut out, block(footer, Borders::Top, theme.border));
            add_widget(&mut out, single_line(status, status_line(app, theme), Style::plain()));
            add_widget(&mut out, single_line(hints, hints_line(app, theme), Style::plain()));
            match dialog {
                Some(parts) => {
                    draw_dialog(app, env, places, parts, theme, &mut out);
                },
                None => {},
            }
        },
    }
    assert(widget_views(out@) =~= screen_widgets(
        app@,
        env.config@,
        crate::dialogs::place_view(places.current_dir),
        crate::dialogs::place_view(places.home),
        area,
        areas,
        *theme,
    ));
    out
}

/// Where the areas lie on the screen, nothing is drawn beside it.
pub proof fn nothing_is_drawn_beside_the_screen(
    s: AppState,
    settings: crate::config::Settings,
    current_dir: Option<Seq<char>>,
    home: Option<Seq<char>>,
    area: Rect,
    areas: Areas,
    theme: Theme,
)
    requires
        areas_within(areas, area),
    ensures
        ({
            let widgets = screen_widgets(s, settings, current_dir, home, area, areas, theme);
            forall|k: int|
                0 <= k < widgets.len() ==> crate::geometry::lies_in(
                    widget_area(#[trigger] widgets[k]),
                    area,
                )
        }),
{
    match areas {
        Areas::TooSmall { message } => {
            crate::geometry::lemma_parts_lie_in(message, Borders::All);
            crate::geometry::lies_in_is_transitive(
                crate::geometry::inside(Borders::All, message),
                message,
                area,
            );
        },
        Areas::Full { shell, body, parts, footer, status, hints, dialog } => {
            lemma_body_drawn_within(s, settings.shortcut, parts, area, theme);
            let drawn = body_widgets(s, settings.shortcut, parts, theme);
            let all = screen_widgets(s, settings, current_dir, home, area, areas, theme);
            let n = drawn.len();
            assert forall|k: int| 0 <= k < all.len() implies crate::geometry::lies_in(
                widget_area(#[trigger] all[k]),
                area,
            ) by {
                if 2 <= k < 2 + n {
                    assert(all[k] == drawn[k - 2]);
                }
            }
        },
    }
}

proof fn lemma_body_drawn_within(
    s: AppState,
    shortcut: Seq<char>,
    parts: BodyAreas,
    area: Rect,
    theme: Theme,
)
    requires
        body_within(parts, area),
    ensures
        forall|k: int|
            0 <= k < body_widgets(s, shortcut, parts, theme).len() ==> crate::geometry::lies_in(
                widget_area(#[trigger] body_widgets(s, shortcut, parts, theme)[k]),
                area,
            ),
{
    match parts {
        BodyAreas::Workspaces { panel, prompt, list, tabs, quick } => {
            crate::geometry::lemma_parts_lie_in(tabs, Borders::All);
            crate::geometry::lemma_parts_lie_in(quick, Borders::All);
            crate::geometry::lies_in_is_transitive(
                crate::geometry::without_edges(tabs),
                tabs,
                area,
            );
            crate::geometry::lies_in_is_transitive(
                crate::geometry::without_edges(quick),
                quick,
                area,
            );
        },
        BodyAreas::Directories { list } => {},
    }
}

impl App {
    /// Notes where the list and the shortcut are, and moves the directories until the
    /// selected one is shown.
    pub fn place(&mut self, areas: Areas)
        ensures
            final(self)@ == old(self)@.placed(areas),
    {
        match areas {
            Areas::TooSmall { message: _ } => {},
            Areas::Full { shell: _, body: _, parts, footer: _, status: _, hints: _, dialog: _ } => {
                match parts {
                    BodyAreas::Workspaces { panel: _, prompt: _, list, tabs: _, quick } => {
                        let inner = inner_columns(quick);
                        self.list_area = list;
                        self.shortcut_area = Rect::new(
                            inner.x,
                            inner.y.saturating_add(1),
                            inner.width,
                            1,
                        );
                    },
                    BodyAreas::Directories { list } => {
                        self.shortcut_area = Rect::empty();
                        self.list_area = list;
                        self.clamp_directory_offset();
                        self.ensure_directory_selection_visible();
                    },
                }
            },
        }
    }

    /// Whether a filter is shown above the list.
    pub fn shows_prompt(&self) -> (r: bool)
        ensures
            r == self@.prompted(),
    {
        self.search_active() || !is_empty_str(&self.filter)
    }
}

/// Lays out the screen and draws it.
pub fn draw(app: &mut App, env: &AppEnv, places: Places, area: Rect, no_color: bool) -> (r: Vec<
    Widget,
>)
    ensures
        exists|areas: Areas|
            {
                &&& #[trigger] laid_out(
                    area,
                    old(app)@.mode,
                    old(app)@.prompted(),
                    old(app)@.dialog,
                    areas,
                )
                &&& final(app)@ == old(app)@.placed(areas)
                &&& widget_views(r@) == screen_widgets(
                    final(app)@,
                    env.config@,
                    crate::dialogs::place_view(places.current_dir),
                    crate::dialogs::place_view(places.home),
                    area,
                    areas,
                    crate::lines::theme_of(no_color),
                )
            },
        forall|k: int|
            0 <= k < r@.len() ==> crate::geometry::lies_in(
                widget_area((#[trigger] r@[k])@),
                area,
            ),
{
    let theme = Theme::detect(no_color);
    let areas = lay_out(area, app.mode, app.shows_prompt(), app.dialog);
    app.place(areas);
    let r = draw_areas(app, env, places, area, areas, &theme);
    proof {
        nothing_is_drawn_beside_the_screen(
            app@,
            env.config@,
            crate::dialogs::place_view(places.current_dir),
            crate::dialogs::place_view(places.home),
            area,
            areas,
            theme,
        );
        assert forall|k: int| 0 <= k < r@.len() implies crate::geometry::lies_in(
            widget_area((#[trigger] r@[k])@),
            area,
        ) by {
            assert(widget_views(r@)[k] == r@[k]@);
        }
    }
    assert(laid_out(
        area,
        old(app)@.mode,
        old(app)@.prompted(),
        old(app)@.dialog,
        areas,
    ));
    r
}

/// The list of workspaces is drawn with the selected one marked, from the one that is shown
/// first; the dialog is drawn last, over everything else, and says what it asks.
pub proof fn selection_and_dialog_are_drawn(
    s: AppState,
    settings: crate::config::Settings,
    current_dir: Option<Seq<char>>,
    home: Option<Seq<char>>,
    area: Rect,
    areas: Areas,
    theme: Theme,
)
    ensures
        ({
            let widgets = screen_widgets(s, settings, current_dir, home, area, areas, theme);
            match areas {
                Areas::TooSmall { message } => widgets.len() == 2,
                Areas::Full { shell, body, parts, footer, status, hints, dialog } => {
                    &&& match parts {
                        BodyAreas::Workspaces { panel, prompt, list, tabs, quick } => s.visible().len()
                            > 0 ==> widgets.contains(
                            WidgetView::List {
                                area: list,
                                items: crate::view::workspace_items_view(s, theme),
                                highlight: theme.selection,
                                selected: Some(s.selected),
                                offset: s.list_offset,
                            },
                        ),
                        BodyAreas::Directories { list } => widgets.contains(
                            text_view(
                                list,
                                crate::view::directories_text(s, theme),
                                crate::lines::plain(),
                                Wrap::Keep,
                            ),
                        ),
                    }
                    &&& dialog is Some ==> widgets.last() == text_view(
                        dialog->0.content,
                        crate::dialogs::dialog_view(
                            s,
                            settings,
                            current_dir,
                            home,
                            dialog->0.content.width as int,
                            theme,
                        ),
                        crate::lines::plain(),
                        Wrap::Trim,
                    )
                    &&& widgets.contains(
                        line_view(status, crate::view::status_view(s, theme), crate::lines::plain()),
                    )
                },
            }
        }),
{
    let widgets = screen_widgets(s, settings, current_dir, home, area, areas, theme);
    match areas {
        Areas::TooSmall { message } => {},
        Areas::Full { shell, body, parts, footer, status, hints, dialog } => {
            let drawn = body_widgets(s, settings.shortcut, parts, theme);
            let n = drawn.len() as int;
            match parts {
                BodyAreas::Workspaces { panel, prompt, list, tabs, quick } => {
                    let k: int = if prompt is Some {
                        2
                    } else {
                        1
                    };
                    assert(widgets[2 + k] == drawn[k]);
                    assert(widgets.contains(widgets[2 + k]));
                },
                BodyAreas::Directories { list } => {
                    assert(widgets[2] == drawn[0]);
                    assert(widgets.contains(widgets[2]));
                },
            }
            assert(widgets[2 + n + 1] == line_view(
                status,
                crate::view::status_view(s, theme),
                crate::lines::plain(),
            ));
            assert(widgets.contains(widgets[2 + n + 1]));
        },
    }
}

/// Once the screen is laid out, clicks find the list and the shortcut where they are drawn;
/// nothing else of what is listed, selected or typed changes.
pub proof fn placing_changes_places_alone(s: AppState, areas: Areas)
    ensures
        ({
            let t = s.placed(areas);
            &&& t.workspaces == s.workspaces && t.directories == s.directories
            &&& t.mode == s.mode && t.filter == s.filter && t.selected == s.selected
            &&& t.dialog == s.dialog && t.status == s.status && t.last_click == s.last_click
            &&& t.save_input == s.save_input && t.rename_input == s.rename_input
                && t.shortcut_input == s.shortcut_input && t.rename_original == s.rename_original
            &&& match areas {
                Areas::TooSmall { message } => t == s,
                Areas::Full { shell, body, parts, footer, status, hints, dialog } => match parts {
                    BodyAreas::Workspaces { panel, prompt, list, tabs, quick } => {
                        &&& t.list_area == list && t.list_offset == s.list_offset
                        &&& quick.x < 65000 && quick.y < 65000 && quick.width >= 2 && quick.width
                            < 500 ==> t.shortcut_area == (Rect {
                            x: (quick.x + 1) as u16,
                            y: (quick.y + 1) as u16,
                            width: (quick.width - 2) as u16,
                            height: 1,
                        })
                    },
                    BodyAreas::Directories { list } => t.list_area == list && t.shortcut_area.width
                        == 0,
                },
            }
        }),
{
}

/// The filter is shown above the list while it is typed, and as long as there is one.
pub proof fn filters_are_shown(s: AppState)
    ensures
        s.search_before_edit is Some ==> s.prompted(),
        s.filter.len() > 0 ==> s.prompted(),
        s.search_before_edit is None && s.filter.len() == 0 ==> !s.prompted(),
{
}

/// The screen is too small exactly if it has fewer than fifty-two columns or fifteen rows.
pub proof fn small_screens_are_told(area: Rect)
    ensures
        too_small(area) == (area.width < 52 || area.height < 15),
{
}

} // verus!
