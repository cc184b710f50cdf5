use gtab::app::{App, BrowserMode, Dialog, StatusKind};
use gtab::config::Config;
use gtab::dialogs::{dialog_keys, dialog_size, dialog_text, dialog_title, Places};
use gtab::env::AppEnv;
use gtab::geometry::{centered_rect, shell_rect, split_in_two, Borders, Constraint, Direction, Rect};
use gtab::layout::{WorkspacePaneLayout, WorkspaceTabLayout};
use gtab::lines::{
    fit_directory_cell, fit_text, joined_line, section_line, Color, Line, Span, Style, Text, Theme,
};
use gtab::preview::{render_tab_layout_ascii, working_dir_label};
use gtab::screen::{draw, lay_out, Areas, BodyAreas, Widget, Wrap};
use gtab::view::{
    directory_list_text, hints_line, prompt_line, status_line, too_small_text, workspace_items,
    workspace_tabs_preview_text,
};
use gtab::workspace::{SavedDirectory, Workspace, WorkspaceTab};
use ratatui::backend::TestBackend;
use ratatui::Terminal;

fn workspace(name: &str) -> Workspace {
    Workspace {
        name: name.to_string(),
        path: format!("/tmp/{name}.applescript"),
        tabs: vec![WorkspaceTab {
            title: "tab".to_string(),
            working_dir: Some("/tmp/project".to_string()),
        }],
        layout: vec![],
    }
}

fn env() -> AppEnv {
    AppEnv {
        base_dir: "/tmp/gtab".to_string(),
        config_file: "/tmp/gtab/config".to_string(),
        config: Config {
            close_tab: true,
            ghostty_shortcut: "cmd+g".to_string(),
        },
    }
}

fn places() -> Places<'static> {
    Places {
        current_dir: Some("/home/me/work"),
        home: Some("/home/me"),
    }
}

fn leaf(dir: &str) -> WorkspacePaneLayout {
    WorkspacePaneLayout::Leaf {
        working_dir: dir.to_string(),
    }
}

fn right(left: WorkspacePaneLayout, right: WorkspacePaneLayout) -> WorkspacePaneLayout {
    WorkspacePaneLayout::SplitRight {
        left: Box::new(left),
        right: Box::new(right),
    }
}

fn down(top: WorkspacePaneLayout, bottom: WorkspacePaneLayout) -> WorkspacePaneLayout {
    WorkspacePaneLayout::SplitDown {
        top: Box::new(top),
        bottom: Box::new(bottom),
    }
}

fn tab(title: &str, root: WorkspacePaneLayout) -> WorkspaceTabLayout {
    WorkspaceTabLayout {
        title: title.to_string(),
        root,
    }
}

fn line_text(line: &Line) -> String {
    line.spans.iter().map(|span| span.content.as_str()).collect()
}

fn text_lines(text: &Text) -> Vec<String> {
    text.lines.iter().map(line_text).collect()
}

// What the terminal shows of widgets.

fn shown_color(color: Color) -> ratatui::style::Color {
    match color {
        Color::Black => ratatui::style::Color::Black,
        Color::Red => ratatui::style::Color::Red,
        Color::Green => ratatui::style::Color::Green,
        Color::Yellow => ratatui::style::Color::Yellow,
        Color::Cyan => ratatui::style::Color::Cyan,
        Color::Gray => ratatui::style::Color::Gray,
        Color::DarkGray => ratatui::style::Color::DarkGray,
    }
}

fn shown_style(style: Style) -> ratatui::style::Style {
    let mut out = ratatui::style::Style::default();
    if let Some(color) = style.fg {
        out = out.fg(shown_color(color));
    }
    if let Some(color) = style.bg {
        out = out.bg(shown_color(color));
    }
    if style.bold {
        out = out.add_modifier(ratatui::style::Modifier::BOLD);
    }
    if style.dim {
        out = out.add_modifier(ratatui::style::Modifier::DIM);
    }
    out
}

fn shown_rect(area: Rect) -> ratatui::layout::Rect {
    ratatui::layout::Rect::new(area.x, area.y, area.width, area.height)
}

fn shown_span(span: &Span) -> ratatui::text::Span<'static> {
    ratatui::text::Span::styled(span.content.clone(), shown_style(span.style))
}

fn shown_text(text: &Text) -> ratatui::text::Text<'static> {
    ratatui::text::Text::from(
        text.lines
            .iter()
            .map(|line| {
                ratatui::text::Line::from(line.spans.iter().map(shown_span).collect::<Vec<_>>())
            })
            .collect::<Vec<_>>(),
    )
}

fn render(frame: &mut ratatui::Frame<'_>, app: &mut App, widget: Widget) {
    match widget {
        Widget::Clear { area } => frame.render_widget(ratatui::widgets::Clear, shown_rect(area)),
        Widget::Block {
            area,
            borders,
            style,
            title,
        } => {
            let mut block = ratatui::widgets::Block::default()
                .borders(match borders {
                    Borders::All => ratatui::widgets::Borders::ALL,
                    Borders::Right => ratatui::widgets::Borders::RIGHT,
                    Borders::Top => ratatui::widgets::Borders::TOP,
                })
                .border_style(shown_style(style));
            if let Some(title) = title {
                block = block.title(title);
            }
            frame.render_widget(block, shown_rect(area));
        }
        Widget::Paragraph {
            area,
            text,
            style,
            wrap,
            centered,
        } => {
            let mut paragraph =
                ratatui::widgets::Paragraph::new(shown_text(&text)).style(shown_style(style));
            if wrap != Wrap::No {
                paragraph = paragraph.wrap(ratatui::widgets::Wrap {
                    trim: wrap == Wrap::Trim,
                });
            }
            if centered {
                paragraph = paragraph.alignment(ratatui::layout::Alignment::Center);
            }
            frame.render_widget(paragraph, shown_rect(area));
        }
        Widget::List {
            area,
            items,
            highlight,
            selected,
            offset,
        } => {
            let mut state = ratatui::widgets::ListState::default()
                .with_selected(selected)
                .with_offset(offset);
            let list = ratatui::widgets::List::new(
                items
                    .iter()
                    .map(|item| ratatui::widgets::ListItem::new(shown_span(item)))
                    .collect::<Vec<_>>(),
            )
            .highlight_style(shown_style(highlight));
            frame.render_stateful_widget(list, shown_rect(area), &mut state);
            app.list_offset = state.offset();
        }
    }
}

fn rendered(app: &mut App, width: u16, height: u16) -> ratatui::buffer::Buffer {
    let mut terminal = Terminal::new(TestBackend::new(width, height)).unwrap();
    let env = env();
    terminal
        .draw(|frame| {
            let widgets = draw(app, &env, places(), Rect::new(0, 0, width, height), false);
            for widget in widgets {
                render(frame, app, widget);
            }
        })
        .unwrap();
    terminal.backend().buffer().clone()
}

fn rows(buffer: &ratatui::buffer::Buffer) -> Vec<String> {
    (0..buffer.area.height)
        .map(|y| {
            (0..buffer.area.width)
                .map(|x| buffer.cell((x, y)).unwrap().symbol().to_string())
                .collect()
        })
        .collect()
}

#[test]
fn rendered_tui_uses_visible_foregrounds_on_light_terminals() {
    // No cell forces an absolute white foreground, which is invisible on light themes, and
    // a workspace that is not selected has the terminal's default foreground plus bold.
    let mut app = App::new(vec![workspace("alpha"), workspace("beta")], vec![]);
    let buffer = rendered(&mut app, 120, 40);

    for cell in buffer.content() {
        assert_ne!(
            cell.fg,
            ratatui::style::Color::White,
            "rendered cell {:?} forces white fg",
            cell.symbol()
        );
    }

    let target: Vec<String> = "[beta]".chars().map(|c| c.to_string()).collect();
    let width = buffer.area.width;
    let height = buffer.area.height;
    let mut checked = false;
    for y in 0..height {
        let symbols: Vec<String> = (0..width)
            .map(|x| buffer.cell((x, y)).unwrap().symbol().to_string())
            .collect();
        for start in 0..symbols.len().saturating_sub(target.len()) + 1 {
            if symbols[start..start + target.len()] == target[..] {
                for offset in 0..target.len() {
                    let cell = buffer.cell(((start + offset) as u16, y)).unwrap();
                    assert_eq!(
                        cell.fg,
                        ratatui::style::Color::Reset,
                        "name cell should use default fg"
                    );
                    assert!(
                        cell.modifier.contains(ratatui::style::Modifier::BOLD),
                        "name cell should be bold"
                    );
                }
                checked = true;
                break;
            }
        }
        if checked {
            break;
        }
    }
    assert!(checked, "expected [beta] in rendered output");
}

#[test]
fn what_is_drawn_can_be_clicked() {
    let mut app = App::new(vec![workspace("alpha"), workspace("beta")], vec![]);
    let buffer = rendered(&mut app, 100, 30);
    let rows = rows(&buffer);
    let y = rows.iter().position(|row| row.contains("[beta]")).unwrap();
    let x = rows[y].chars().collect::<Vec<_>>();
    let x = (0..x.len())
        .find(|start| x[*start..].starts_with(&['[', 'b', 'e']))
        .unwrap();
    assert_eq!(app.list_index_at(x as u16, y as u16), Some(1));
    let shortcut = rows
        .iter()
        .position(|row| row.contains("shortcut cmd+g"))
        .unwrap();
    assert_eq!(app.shortcut_area.y as usize, shortcut);
}

#[test]
fn directories_are_drawn_as_a_grid() {
    let names = ["docs", "circle", "notes"];
    let mut app = App::new(
        vec![],
        names
            .iter()
            .map(|name| SavedDirectory {
                name: name.to_string(),
                path: format!("/tmp/{name}"),
            })
            .collect(),
    );
    app.mode = BrowserMode::Directory;
    app.selected = 2;
    let rows = rows(&rendered(&mut app, 80, 24));
    assert!(rows.iter().any(|row| row.contains("[docs]          [circle]")));
    assert_eq!(app.shortcut_area, Rect::new(0, 0, 0, 0));
    assert!(rows.iter().any(|row| row.contains("Enter open  f workspaces")));
    app.filter = "zzz".to_string();
    let text = directory_list_text(&app, &Theme::detect(true));
    assert_eq!(text_lines(&text), vec!["no matches"]);
}

#[test]
fn small_screens_say_so() {
    let mut app = App::new(vec![], vec![]);
    let area = Rect::new(0, 0, 51, 40);
    let widgets = draw(&mut app, &env(), places(), area, false);
    assert_eq!(widgets.len(), 2);
    assert!(matches!(
        &widgets[0],
        Widget::Block {
            title: Some("Resize Required"),
            ..
        }
    ));
    let lines = text_lines(&too_small_text(51, 40, &Theme::detect(false)));
    assert_eq!(
        lines,
        vec![
            "gtab needs more room",
            "",
            "Current terminal: 51x40",
            "Recommended minimum: 52x15",
            "",
            "Resize the terminal to show the dialog layout.",
        ]
    );
}

#[test]
fn dialogs_are_drawn_over_the_list() {
    let mut app = App::new(vec![workspace("alpha")], vec![]);
    for dialog in [
        Dialog::SaveWorkspace,
        Dialog::SaveDirectory,
        Dialog::RenameWorkspace,
        Dialog::RenameDirectory,
        Dialog::ConfirmDeleteWorkspace,
        Dialog::ConfirmDeleteDirectory,
        Dialog::Settings,
        Dialog::EditGhosttyShortcut,
        Dialog::Help,
    ] {
        app.dialog = dialog;
        let rows = rows(&rendered(&mut app, 120, 40));
        assert!(rows.iter().any(|row| row.contains(dialog_title(dialog))));
        assert!(rows.iter().any(|row| row.contains(dialog_keys(dialog))));
    }
    assert_eq!(dialog_size(Dialog::Help), (68, 58));
}

#[test]
fn dialogs_have_texts() {
    let theme = Theme::detect(false);
    let mut app = App::new(vec![workspace("alpha")], vec![]);
    let lines = |app: &App| text_lines(&dialog_text(app, &env(), places(), 30, &theme));
    assert!(lines(&app).is_empty());
    app.dialog = Dialog::SaveDirectory;
    assert_eq!(lines(&app)[1], "~/work");
    assert_eq!(lines(&app)[4], "...");
    app.save_input = "x".to_string();
    assert_eq!(lines(&app)[4], "x");
    app.dialog = Dialog::RenameWorkspace;
    assert_eq!(lines(&app)[1], "this workspace");
    app.open_rename_directory("old".to_string());
    assert_eq!(lines(&app)[1], "old");
    app.dialog = Dialog::ConfirmDeleteWorkspace;
    assert_eq!(lines(&app)[1], "Delete \"alpha\"?");
    app.dialog = Dialog::ConfirmDeleteDirectory;
    assert_eq!(lines(&app)[1], "Delete \"this directory\"?");
    app.dialog = Dialog::Settings;
    assert_eq!(lines(&app)[1], "close_tab on");
    assert_eq!(lines(&app)[4], "ghostty   cmd+g");
    app.dialog = Dialog::EditGhosttyShortcut;
    assert_eq!(lines(&app)[1], "cmd+g");
    app.shortcut_input = "cmd+k".to_string();
    assert_eq!(lines(&app)[1], "cmd+k");
    app.dialog = Dialog::Help;
    assert_eq!(lines(&app).len(), 23);
    let nowhere = Places {
        current_dir: None,
        home: None,
    };
    app.dialog = Dialog::SaveDirectory;
    assert_eq!(
        text_lines(&dialog_text(&app, &env(), nowhere, 30, &theme))[1],
        "(unavailable)"
    );
}

#[test]
fn footer_tells_status_and_keys() {
    let theme = Theme::detect(false);
    let mut app = App::new(vec![workspace("alpha")], vec![]);
    assert_eq!(
        line_text(&status_line(&app, &theme)),
        "[i] Enter launch  f directories  / filter  ? help"
    );
    app.set_status(StatusKind::Success, "done", 0);
    assert_eq!(line_text(&status_line(&app, &theme)), "[ok] done");
    app.set_error("broken", 0);
    let line = status_line(&app, &theme);
    assert_eq!(line_text(&line), "[!!] broken");
    assert_eq!(line.spans[0].style, theme.error);
    app.clear_status();
    assert_eq!(line_text(&status_line(&app, &theme)), "[ ] ready");

    assert_eq!(
        line_text(&hints_line(&app, &theme)),
        "Enter launch  f directories  / filter  a save  n rename  d remove  e edit  t settings  g shortcut  ? help  q quit"
    );
    app.begin_search(None);
    assert_eq!(
        line_text(&hints_line(&app, &theme)),
        "type filter  Enter keep  Esc revert"
    );
    app.dialog = Dialog::Help;
    assert_eq!(line_text(&hints_line(&app, &theme)), "Esc close  q close");
}

#[test]
fn prompt_shows_the_filter() {
    let theme = Theme::detect(false);
    let mut app = App::new(vec![workspace("alpha")], vec![]);
    app.begin_search(None);
    assert_eq!(line_text(&prompt_line(&app, 20, &theme)), "/ type to filter");
    app.filter = "a long filter".to_string();
    assert_eq!(line_text(&prompt_line(&app, 10, &theme)), "/ a lon...");
    assert_eq!(line_text(&prompt_line(&app, 2, &theme)), "/ ");
    assert_eq!(line_text(&prompt_line(&app, 0, &theme)), "/");
    let items = workspace_items(&app, &theme);
    assert_eq!(items[0].content, "no matches");
    app.filter = "alp".to_string();
    let items = workspace_items(&app, &theme);
    assert_eq!(items[0].content, "[alpha]");
}

#[test]
fn texts_are_fitted() {
    assert_eq!(fit_text("workspace", 9), "workspace");
    assert_eq!(fit_text("workspace", 8), "works...");
    assert_eq!(fit_text("workspace", 3), "...");
    assert_eq!(fit_text("workspace", 0), "");
    assert_eq!(fit_directory_cell("[docs]", 8), "[docs]  ");
    assert_eq!(fit_directory_cell("[documents]", 8), "[docu...");
    assert_eq!(fit_directory_cell("[documents]", 3), "[do");
}

#[test]
fn lines_fill_their_width() {
    let theme = Theme::detect(false);
    let joined = |width, left, right| {
        line_text(&joined_line(width, left, right, theme.warning, theme.dim))
    };
    assert_eq!(joined(20, "left", "right"), "left           right");
    assert_eq!(joined(12, "a long title", "x"), "a long ... x");
    assert_eq!(joined(0, "title", "x"), ". ");
    assert_eq!(joined(12, "a long title", "x").chars().count(), 12);
    assert_eq!(
        line_text(&section_line(12, "Name", &theme)),
        "NAME ───────"
    );
    assert_eq!(
        line_text(&section_line(0, "Name", &theme)),
        "NAME ──────"
    );
    assert_eq!(
        line_text(&section_line(500, "Name", &theme)).chars().count(),
        45
    );
}

#[test]
fn panes_are_labelled_by_directory() {
    assert_eq!(working_dir_label("/"), "/");
    assert_eq!(working_dir_label(""), "/");
    assert_eq!(working_dir_label("/tmp/project/"), "project");
    assert_eq!(working_dir_label("project"), "project");
    assert_eq!(working_dir_label("/tmp/.."), "/tmp/..");
}

#[test]
fn panes_are_drawn() {
    assert_eq!(
        render_tab_layout_ascii(&tab("t", leaf("/tmp/api")), 12, 5),
        vec![
            "+----------+",
            "|          |",
            "|   api    |",
            "|          |",
            "+----------+",
        ]
    );
    assert_eq!(
        render_tab_layout_ascii(
            &tab("t", right(leaf("/tmp/a"), down(leaf("/tmp/b"), leaf("/tmp/c")))),
            13,
            5
        ),
        vec![
            "+-----------+",
            "|     |  b  |",
            "|  a  |-----|",
            "|     |  c  |",
            "+-----------+",
        ]
    );
    // No room for a second row of panes: the first is drawn.
    assert_eq!(
        render_tab_layout_ascii(&tab("t", down(leaf("/tmp/one"), leaf("/tmp/two"))), 0, 0),
        vec!["+------+", "| one  |", "+------+"]
    );
}

#[test]
fn previews_take_the_lines_that_are_there() {
    let theme = Theme::detect(false);
    let mut item = workspace("alpha");
    item.layout = vec![tab("api", leaf("/tmp/a")), tab("web", leaf("/tmp/b"))];
    let app = App::new(vec![item], vec![]);
    let lines = |height| text_lines(&workspace_tabs_preview_text(&app, 12, height, &theme));
    assert!(lines(0).is_empty());
    assert_eq!(lines(1), vec![" 1. api"]);
    assert_eq!(lines(3), vec![" 1. api", "", " 2. web"]);
    assert_eq!(lines(6).len(), 6);
    assert_eq!(lines(8)[7], " 2. web");
    assert_eq!(lines(13).len(), 13);
    assert_eq!(lines(100).len(), 14);
    let plain = App::new(vec![workspace("beta")], vec![]);
    assert_eq!(
        text_lines(&workspace_tabs_preview_text(&plain, 12, 9, &theme)),
        vec!["「tab」 "]
    );
}

#[test]
fn areas_are_divided() {
    let area = Rect::new(2, 3, 60, 20);
    let (above, below) = split_in_two(
        Direction::Vertical,
        Constraint::Min(10),
        Constraint::Length(3),
        area,
    );
    assert_eq!(above, Rect::new(2, 3, 60, 17));
    assert_eq!(below, Rect::new(2, 20, 60, 3));
    assert_eq!(centered_rect(50, 50, Rect::new(0, 0, 100, 40)), Rect::new(25, 10, 50, 20));
    assert_eq!(shell_rect(Rect::new(0, 0, 100, 40)), Rect::new(2, 1, 96, 38));
    assert_eq!(shell_rect(Rect::new(0, 0, 61, 20)), Rect::new(0, 0, 61, 20));
    assert_eq!(Rect::new(65_530, 0, 10, 1).width, 5);
}

#[test]
fn screen_is_laid_out() {
    let area = Rect::new(0, 0, 100, 40);
    match lay_out(area, BrowserMode::Workspace, true, Dialog::Closed) {
        Areas::Full {
            shell,
            body,
            parts,
            footer,
            dialog,
            ..
        } => {
            assert_eq!(shell, Rect::new(2, 1, 96, 38));
            assert_eq!(body, Rect::new(3, 2, 94, 33));
            assert_eq!(footer, Rect::new(3, 35, 94, 3));
            assert!(dialog.is_none());
            match parts {
                BodyAreas::Workspaces { panel, prompt, list, .. } => {
                    assert_eq!(panel, Rect::new(4, 3, 24, 31));
                    assert_eq!(prompt, Some(Rect::new(4, 3, 23, 1)));
                    assert_eq!(list, Rect::new(4, 4, 23, 30));
                }
                other => panic!("expected workspaces, got {other:?}"),
            }
        }
        other => panic!("expected a full screen, got {other:?}"),
    }
    match lay_out(area, BrowserMode::Directory, false, Dialog::Help) {
        Areas::Full { body, parts, dialog, .. } => {
            assert!(dialog.is_some());
            assert_eq!(
                parts,
                BodyAreas::Directories {
                    list: Rect::new(body.x + 1, body.y + 1, body.width - 2, body.height - 2)
                }
            );
        }
        other => panic!("expected a full screen, got {other:?}"),
    }
}

#[test]
fn themes_without_colour_use_weight() {
    let theme = Theme::detect(true);
    assert_eq!(theme.accent.fg, None);
    assert!(theme.accent.bold);
    assert!(theme.muted.dim);
    assert_eq!(theme.titlebar.bg, None);
    assert_eq!(Theme::detect(false).titlebar.bg, Some(Color::Cyan));
}
