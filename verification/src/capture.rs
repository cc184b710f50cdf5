//! Captures: what the capture scripts print becomes tabs and windows.
//!
//! A script prints one line for each terminal, its fields apart by tabs. Lines that do
//! not read as a terminal are skipped.

use vstd::prelude::*;

use crate::error::Error;
use crate::number::{i32_string, parse_i32, parse_usize, usize_string};
use crate::restore_script::{
    render_restore_script, CapturedPaneRect, CapturedTabSurface, CapturedWindow, CapturedWorkspace,
};
use crate::text::{
    chars_of, has_prefix, holds_char, is_text, join_strings, lines_slice, split_once_slice, split_slice,
    string_of, trim_end_char_slice, trim_slice, trim_start_slice,
};
use crate::window::WindowFrame;

verus! {

// Titles.
/// A character of the braille block, of which spinners are made.
pub open spec fn is_spinner(c: char) -> bool {
    '\u{2800}' <= c && c <= '\u{28ff}'
}

/// A title without the mark that it starts with: a spinner and white space, or a bell
/// and a space. `None` where it starts with neither.
pub open spec fn without_mark(title: Seq<char>) -> Option<Seq<char>> {
    if title.len() >= 2 && is_spinner(title[0]) && crate::text::white_space(title[1]) {
        Some(crate::text::trim_start(title.skip(1)))
    } else if title.len() >= 2 && title[0] == '\u{1f514}' && title[1] == ' ' {
        Some(crate::text::trim_start(title.skip(2)))
    } else {
        None
    }
}

/// A title without the marks that it starts with.
pub open spec fn without_marks(title: Seq<char>) -> Seq<char>
    decreases title.len(),
{
    proof {
        if title.len() > 0 {
            crate::text::lemma_trim_start(title.skip(1));
            if title.len() > 1 {
                crate::text::lemma_trim_start(title.skip(2));
            }
        }
    }
    match without_mark(title) {
        Some(rest) => without_marks(rest),
        None => title,
    }
}

/// A captured title without transient marks and white space around it.
pub open spec fn normalized_title(raw: Seq<char>) -> Seq<char> {
    crate::text::trim(without_marks(crate::text::trim(raw)))
}

/// Stripping leaves no mark, and starts without white space where the title did.
proof fn lemma_without_marks(title: Seq<char>)
    requires
        title.len() > 0 ==> !crate::text::white_space(title[0]),
    ensures
        without_mark(without_marks(title)) is None,
        without_marks(title).len() > 0 ==> !crate::text::white_space(without_marks(title)[0]),
    decreases title.len(),
{
    match without_mark(title) {
        Some(rest) => {
            crate::text::lemma_trim_start(title.skip(1));
            crate::text::lemma_trim_start(title.skip(2));
            lemma_without_marks(rest);
        },
        None => {},
    }
}

/// Normalizing a title again changes nothing: no mark and no white space is left.
pub proof fn normalized_title_is_settled(raw: Seq<char>)
    ensures
        normalized_title(normalized_title(raw)) == normalized_title(raw),
        without_mark(normalized_title(raw)) is None,
        crate::text::trim(normalized_title(raw)) == normalized_title(raw),
{
    let t = without_marks(crate::text::trim(raw));
    crate::text::lemma_trim(raw);
    lemma_without_marks(crate::text::trim(raw));
    crate::text::lemma_trim(t);
    crate::text::lemma_trim_start(t);
    crate::text::lemma_trim_end(t);
    let n = normalized_title(raw);
    assert(crate::text::trim_start(t) == t);
    assert(n == t.take(n.len() as int));
    assert(without_mark(n) is None);
    assert(without_marks(n) == n);
}

/// A captured title that a shell sets by itself: nothing, `user@host:path`, a path, or
/// the name of a shell.
pub open spec fn shell_default_title(raw: Seq<char>) -> bool {
    let title = normalized_title(raw);
    let at = crate::text::first_index(title, '@');
    ||| title.len() == 0
    ||| at < title.len() && crate::text::has_char(title.skip(at + 1), ':')
    ||| crate::text::starts_with(title, "~/"@)
    ||| title == "~"@
    ||| crate::text::starts_with(title, "\u{2026}/"@)
    ||| crate::text::starts_with(title, "/"@)
    ||| title == "zsh"@
    ||| title == "bash"@
    ||| title == "fish"@
    ||| title == "sh"@
    ||| title == "-zsh"@
    ||| title == "-bash"@
}

/// Strips one mark from the start of a title.
fn strip_mark(title: &[char]) -> (r: Option<&[char]>)
    ensures
        match r {
            Some(rest) => without_mark(title@) == Some(rest@),
            None => without_mark(title@) is None,
        },
{
    if title.len() < 2 {
        return None;
    }
    if '\u{2800}' <= title[0] && title[0] <= '\u{28ff}' && crate::text::is_white_space(title[1]) {
        return Some(trim_start_slice(&title[1..title.len()]));
    }
    if title[0] == '\u{1f514}' && title[1] == ' ' {
        return Some(trim_start_slice(&title[2..title.len()]));
    }
    None
}

/// Strips transient marks (spinners, bells) and white space from a captured title.
fn normalize_title_slice(raw: &[char]) -> (r: &[char])
    ensures
        r@ == normalized_title(raw@),
{
    let mut title = trim_slice(raw);
    loop
        invariant
            without_marks(crate::text::trim(raw@)) == without_marks(title@),
        decreases title.len(),
    {
        match strip_mark(title) {
            Some(rest) => {
                proof {
                    crate::text::lemma_trim_start(title@.skip(1));
                    crate::text::lemma_trim_start(title@.skip(2));
                }
                title = rest;
            },
            None => {
                return trim_slice(title);
            },
        }
    }
}

/// Strips transient marks (spinners, bells) and white space from a captured title.
pub fn normalize_captured_tab_title(raw: &str) -> (r: String)
    ensures
        r@ == normalized_title(raw@),
{
    string_of(normalize_title_slice(chars_of(raw).as_slice()))
}

/// Whether a captured title is one that a shell sets by itself.
pub fn looks_like_shell_default_title(raw: &str) -> (r: bool)
    ensures
        r == shell_default_title(raw@),
{
    let raw = chars_of(raw);
    let title = normalize_title_slice(raw.as_slice());
    if title.len() == 0 {
        return true;
    }
    let mut at: usize = 0;
    while at < title.len() && title[at] != '@'
        invariant
            at <= title.len(),
            forall|i: int| 0 <= i < at ==> title@[i] != '@',
        decreases title.len() - at,
    {
        at = at + 1;
    }
    proof {
        crate::text::lemma_first_index_is(title@, '@', at as int);
    }
    if at < title.len() {
        let rest = &title[at + 1..title.len()];
        assert(rest@ == title@.skip(at as int + 1));
        if holds_char(rest, ':') {
            return true;
        }
    }
    has_prefix(title, "~/") || is_text(title, "~") || has_prefix(title, "\u{2026}/") || has_prefix(
        title,
        "/",
    ) || is_text(title, "zsh") || is_text(title, "bash") || is_text(title, "fish") || is_text(
        title,
        "sh",
    ) || is_text(title, "-zsh") || is_text(title, "-bash")
}

// Lines of a capture.
/// The rectangle `x,y,width,height`; further parts are not read.
pub open spec fn captured_rect(value: Seq<char>) -> Option<CapturedPaneRect> {
    let parts = crate::text::split(value, ',');
    if parts.len() >= 4 {
        match (
            crate::number::parse_signed(crate::text::trim(parts[0])),
            crate::number::parse_signed(crate::text::trim(parts[1])),
            crate::number::parse_signed(crate::text::trim(parts[2])),
            crate::number::parse_signed(crate::text::trim(parts[3])),
        ) {
            (Some(x), Some(y), Some(width), Some(height)) => Some(
                CapturedPaneRect {
                    x: x as i32,
                    y: y as i32,
                    width: width as i32,
                    height: height as i32,
                },
            ),
            _ => None,
        }
    } else {
        None
    }
}

/// The surface that a line of a window's capture stands for: tab, pane, terminal id,
/// working directory, title and rectangle, apart by tabs.
pub open spec fn captured_surface(line: Seq<char>, window: usize) -> Option<
    crate::restore_script::Surface,
> {
    let parts = crate::text::split(line, '\t');
    if parts.len() >= 6 {
        match (
            crate::number::parse_unsigned(crate::text::trim(parts[0]), usize::MAX as int),
            crate::number::parse_unsigned(crate::text::trim(parts[1]), usize::MAX as int),
            captured_rect(parts[5]),
        ) {
            (Some(tab), Some(pane), Some(rect)) => Some(
                crate::restore_script::Surface {
                    window_index: window,
                    tab_index: tab as usize,
                    pane_index: pane as usize,
                    terminal_id: crate::text::trim(parts[2]),
                    working_dir: parts[3],
                    title: normalized_title(parts[4]),
                    rect,
                },
            ),
            _ => None,
        }
    } else {
        None
    }
}

/// The surfaces of a window's capture.
pub open spec fn captured_surfaces(lines: Seq<Seq<char>>, window: usize) -> Seq<
    crate::restore_script::Surface,
>
    decreases lines.len(),
{
    if lines.len() == 0 {
        seq![]
    } else {
        let rest = captured_surfaces(lines.drop_last(), window);
        match captured_surface(lines.last(), window) {
            Some(surface) => rest.push(surface),
            None => rest,
        }
    }
}

/// The window and frame that a line stands for: window index, x, y, width and height,
/// apart by tabs.
pub open spec fn captured_window(line: Seq<char>) -> Option<CapturedWindow> {
    let parts = crate::text::split(crate::text::trim_end_char(line, '\r'), '\t');
    if parts.len() >= 5 {
        match (
            crate::number::parse_unsigned(crate::text::trim(parts[0]), usize::MAX as int),
            crate::number::parse_signed(crate::text::trim(parts[1])),
            crate::number::parse_signed(crate::text::trim(parts[2])),
            crate::number::parse_signed(crate::text::trim(parts[3])),
            crate::number::parse_signed(crate::text::trim(parts[4])),
        ) {
            (Some(window), Some(x), Some(y), Some(width), Some(height)) => Some(
                CapturedWindow {
                    window_index: window as usize,
                    frame: WindowFrame {
                        x: x as i32,
                        y: y as i32,
                        width: width as i32,
                        height: height as i32,
                    },
                },
            ),
            _ => None,
        }
    } else {
        None
    }
}

/// The windows that lines stand for.
pub open spec fn captured_windows(lines: Seq<Seq<char>>) -> Seq<CapturedWindow>
    decreases lines.len(),
{
    if lines.len() == 0 {
        seq![]
    } else {
        let rest = captured_windows(lines.drop_last());
        match captured_window(lines.last()) {
            Some(window) => rest.push(window),
            None => rest,
        }
    }
}

/// The surface that a line of a capture of all windows stands for: the window index, a
/// tab, and what a window's capture holds.
pub open spec fn captured_row(line: Seq<char>) -> Option<crate::restore_script::Surface> {
    match crate::text::split_once(crate::text::trim_end_char(line, '\r'), "\t"@) {
        Some((window, rest)) => match crate::number::parse_unsigned(
            crate::text::trim(window),
            usize::MAX as int,
        ) {
            Some(window) => captured_surface(rest, window as usize),
            None => None,
        },
        None => None,
    }
}

/// The surfaces of a capture of all windows.
pub open spec fn captured_rows(lines: Seq<Seq<char>>) -> Seq<crate::restore_script::Surface>
    decreases lines.len(),
{
    if lines.len() == 0 {
        seq![]
    } else {
        let rest = captured_rows(lines.drop_last());
        match captured_row(lines.last()) {
            Some(surface) => rest.push(surface),
            None => rest,
        }
    }
}

/// Reads a number out of one part of a line.
fn part_usize(part: &[char]) -> (r: Option<usize>)
    ensures
        match r {
            Some(v) => crate::number::parse_unsigned(
                crate::text::trim(part@),
                usize::MAX as int,
            ) == Some(v as int),
            None => crate::number::parse_unsigned(
                crate::text::trim(part@),
                usize::MAX as int,
            ) is None,
        },
{
    parse_usize(trim_slice(part))
}

/// Reads a signed number out of one part of a line.
fn part_i32(part: &[char]) -> (r: Option<i32>)
    ensures
        match r {
            Some(v) => crate::number::parse_signed(crate::text::trim(part@)) == Some(v as int),
            None => crate::number::parse_signed(crate::text::trim(part@)) is None,
        },
{
    parse_i32(trim_slice(part))
}

/// Reads a pane's rectangle.
fn parse_captured_pane_rect(value: &[char]) -> (r: Option<CapturedPaneRect>)
    ensures
        r == captured_rect(value@),
{
    let parts = split_slice(value, ',');
    assert(crate::text::views(parts@).len() == parts.len());
    if parts.len() < 4 {
        return None;
    }
    let x = part_i32(parts[0])?;
    let y = part_i32(parts[1])?;
    let width = part_i32(parts[2])?;
    let height = part_i32(parts[3])?;
    Some(CapturedPaneRect { x, y, width, height })
}

/// Reads a line of a window's capture.
fn parse_surface_slice(line: &[char], window_index: usize) -> (r: Option<CapturedTabSurface>)
    ensures
        match r {
            Some(surface) => captured_surface(line@, window_index) == Some(surface@),
            None => captured_surface(line@, window_index) is None,
        },
{
    let parts = split_slice(line, '\t');
    assert(crate::text::views(parts@).len() == parts.len());
    if parts.len() < 6 {
        return None;
    }
    let tab_index = part_usize(parts[0])?;
    let pane_index = part_usize(parts[1])?;
    let terminal_id = string_of(trim_slice(parts[2]));
    let working_dir = string_of(parts[3]);
    let title = string_of(normalize_title_slice(parts[4]));
    let rect = parse_captured_pane_rect(parts[5])?;
    Some(
        CapturedTabSurface {
            window_index,
            tab_index,
            pane_index,
            terminal_id,
            working_dir,
            title,
            rect,
        },
    )
}

/// Reads a line of a window's capture.
pub fn parse_captured_tab_surface(line: &str, window_index: usize) -> (r: Option<
    CapturedTabSurface,
>)
    ensures
        match r {
            Some(surface) => captured_surface(line@, window_index) == Some(surface@),
            None => captured_surface(line@, window_index) is None,
        },
{
    parse_surface_slice(chars_of(line).as_slice(), window_index)
}

/// Reads a window's capture.
pub fn parse_captured_tab_surfaces(raw: &str, window_index: usize) -> (r: Vec<CapturedTabSurface>)
    ensures
        crate::restore_script::surface_views(r@) == captured_surfaces(
            crate::text::lines(raw@),
            window_index,
        ),
{
    let raw_chars = chars_of(raw);
    let lines = lines_slice(raw_chars.as_slice());
    let ghost all = crate::text::views(lines@);
    let mut out: Vec<CapturedTabSurface> = Vec::new();
    for i in 0..lines.len()
        invariant
            all == crate::text::views(lines@),
            crate::restore_script::surface_views(out@) == captured_surfaces(
                all.take(i as int),
                window_index,
            ),
    {
        let ghost before = out@;
        assert(all.take(i as int + 1).drop_last() == all.take(i as int));
        assert(all.take(i as int + 1).last() == lines@[i as int]@);
        if let Some(surface) = parse_surface_slice(lines[i], window_index) {
            out.push(surface);
            assert(crate::restore_script::surface_views(out@)
                == crate::restore_script::surface_views(before).push(surface@));
        }
    }
    assert(all.take(all.len() as int) == all);
    out
}

/// Reads a line with a window and its frame.
fn parse_captured_window(line: &[char]) -> (r: Option<CapturedWindow>)
    ensures
        r == captured_window(line@),
{
    let parts = split_slice(trim_end_char_slice(line, '\r'), '\t');
    assert(crate::text::views(parts@).len() == parts.len());
    if parts.len() < 5 {
        return None;
    }
    let window_index = part_usize(parts[0])?;
    let x = part_i32(parts[1])?;
    let y = part_i32(parts[2])?;
    let width = part_i32(parts[3])?;
    let height = part_i32(parts[4])?;
    Some(CapturedWindow { window_index, frame: WindowFrame::new(x, y, width, height) })
}

/// Reads the windows and frames of a capture.
fn parse_window_frames_slice(section: &[char]) -> (r: Vec<CapturedWindow>)
    ensures
        r@ == captured_windows(crate::text::lines(section@)),
{
    let lines = lines_slice(section);
    let ghost all = crate::text::views(lines@);
    let mut out: Vec<CapturedWindow> = Vec::new();
    for i in 0..lines.len()
        invariant
            all == crate::text::views(lines@),
            out@ == captured_windows(all.take(i as int)),
    {
        assert(all.take(i as int + 1).drop_last() == all.take(i as int));
        assert(all.take(i as int + 1).last() == lines@[i as int]@);
        if let Some(window) = parse_captured_window(lines[i]) {
            out.push(window);
        }
    }
    assert(all.take(all.len() as int) == all);
    out
}

/// Reads the windows and frames of a capture.
pub fn parse_captured_window_frames(section: &str) -> (r: Vec<CapturedWindow>)
    ensures
        r@ == captured_windows(crate::text::lines(section@)),
{
    parse_window_frames_slice(chars_of(section).as_slice())
}

/// Reads a line of a capture of all windows.
fn parse_captured_row(line: &[char]) -> (r: Option<CapturedTabSurface>)
    ensures
        match r {
            Some(surface) => captured_row(line@) == Some(surface@),
            None => captured_row(line@) is None,
        },
{
    let (window, rest) = split_once_slice(trim_end_char_slice(line, '\r'), "\t")?;
    let window_index = part_usize(window)?;
    parse_surface_slice(rest, window_index)
}

/// Reads the surfaces of a capture of all windows.
fn parse_captured_rows(section: &[char]) -> (r: Vec<CapturedTabSurface>)
    ensures
        crate::restore_script::surface_views(r@) == captured_rows(crate::text::lines(section@)),
{
    let lines = lines_slice(section);
    let ghost all = crate::text::views(lines@);
    let mut out: Vec<CapturedTabSurface> = Vec::new();
    for i in 0..lines.len()
        invariant
            all == crate::text::views(lines@),
            crate::restore_script::surface_views(out@) == captured_rows(all.take(i as int)),
    {
        let ghost before = out@;
        assert(all.take(i as int + 1).drop_last() == all.take(i as int));
        assert(all.take(i as int + 1).last() == lines@[i as int]@);
        if let Some(surface) = parse_captured_row(lines[i]) {
            out.push(surface);
            assert(crate::restore_script::surface_views(out@)
                == crate::restore_script::surface_views(before).push(surface@));
        }
    }
    assert(all.take(all.len() as int) == all);
    out
}

// Whole captures.
/// Turns what the capture of the front window printed into a workspace.
pub fn read_front_window(raw: &str) -> (r: Result<CapturedWorkspace, Error>)
    ensures
        ({
            let surfaces = captured_surfaces(crate::text::lines(raw@), 1);
            match r {
                Ok(workspace) => {
                    &&& crate::text::trim(raw@).len() > 0
                    &&& surfaces.len() > 0
                    &&& crate::restore_script::surface_views(workspace.surfaces@) == surfaces
                    &&& workspace.windows@ == seq![
                        CapturedWindow {
                            window_index: 1,
                            frame: WindowFrame { x: 0, y: 0, width: 0, height: 0 },
                        },
                    ]
                },
                Err(e) => if crate::text::trim(raw@).len() == 0 {
                    e is FrontWindowUnreadable
                } else {
                    e is FrontWindowUnparsed && surfaces.len() == 0
                },
            }
        }),
{
    let raw_chars = chars_of(raw);
    if trim_slice(raw_chars.as_slice()).len() == 0 {
        return Err(Error::FrontWindowUnreadable);
    }
    let captured = parse_captured_tab_surfaces(raw, 1);
    assert(crate::restore_script::surface_views(captured@).len() == captured.len());
    if captured.len() == 0 {
        return Err(Error::FrontWindowUnparsed);
    }
    Ok(CapturedWorkspace::single_window(captured))
}

/// Turns what the capture of all windows printed into a workspace: the frames, the line
/// `@@SURFACES@@`, and the terminals.
pub fn read_all_windows(raw: &str) -> (r: Result<CapturedWorkspace, Error>)
    ensures
        match crate::text::split_once(raw@, "@@SURFACES@@"@) {
            None => r matches Err(e) && e is WindowsUnexpected,
            Some((frames, rows)) => {
                let windows = captured_windows(crate::text::lines(frames));
                let surfaces = captured_rows(crate::text::lines(rows));
                match r {
                    Ok(workspace) => {
                        &&& windows.len() > 0
                        &&& surfaces.len() > 0
                        &&& workspace.windows@ == windows
                        &&& crate::restore_script::surface_views(workspace.surfaces@) == surfaces
                    },
                    Err(e) => if windows.len() == 0 {
                        e is WindowFramesUnreadable
                    } else {
                        e is WindowsUnparsed && surfaces.len() == 0
                    },
                }
            },
        },
{
    let raw_chars = chars_of(raw);
    match split_once_slice(raw_chars.as_slice(), "@@SURFACES@@") {
        None => Err(Error::WindowsUnexpected),
        Some((frames, rows)) => {
            let windows = parse_window_frames_slice(frames);
            if windows.len() == 0 {
                return Err(Error::WindowFramesUnreadable);
            }
            let surfaces = parse_captured_rows(rows);
            assert(crate::restore_script::surface_views(surfaces@).len() == surfaces.len());
            if surfaces.len() == 0 {
                return Err(Error::WindowsUnparsed);
            }
            Ok(CapturedWorkspace { windows, surfaces })
        },
    }
}

// Restore scripts of captures.
/// The title that is kept for a tab: none where a shell sets it by itself.
pub open spec fn kept_title(title: Seq<char>) -> Seq<char> {
    if shell_default_title(title) {
        ""@
    } else {
        title
    }
}

/// A surface with the title that is kept for it.
pub open spec fn kept_surface(
    surface: crate::restore_script::Surface,
) -> crate::restore_script::Surface {
    crate::restore_script::Surface { title: kept_title(surface.title), ..surface }
}

/// Surfaces with the titles that are kept for them.
pub open spec fn kept_surfaces(surfaces: Seq<crate::restore_script::Surface>) -> Seq<
    crate::restore_script::Surface,
> {
    surfaces.map_values(|s: crate::restore_script::Surface| kept_surface(s))
}

/// The title that is kept for a tab.
fn title_to_keep(title: &String) -> (r: String)
    ensures
        r@ == kept_title(title@),
{
    if looks_like_shell_default_title(title.as_str()) {
        "".to_string()
    } else {
        title.clone()
    }
}

/// Builds the script that recreates a captured workspace. Titles that shells set by
/// themselves are left for them to set again.
pub fn build_restore_script(workspace: &CapturedWorkspace) -> (r: String)
    ensures
        r@ == crate::restore_script::restore_script(
            workspace.windows@,
            kept_surfaces(crate::restore_script::surface_views(workspace.surfaces@)),
        ),
{
    let mut surfaces: Vec<CapturedTabSurface> = Vec::new();
    let ghost all = kept_surfaces(crate::restore_script::surface_views(workspace.surfaces@));
    for i in 0..workspace.surfaces.len()
        invariant
            all == kept_surfaces(crate::restore_script::surface_views(workspace.surfaces@)),
            crate::restore_script::surface_views(surfaces@) == all.take(i as int),
    {
        let ghost before = surfaces@;
        let row = &workspace.surfaces[i];
        let kept = CapturedTabSurface {
            window_index: row.window_index,
            tab_index: row.tab_index,
            pane_index: row.pane_index,
            terminal_id: row.terminal_id.clone(),
            working_dir: row.working_dir.clone(),
            title: title_to_keep(&row.title),
            rect: row.rect,
        };
        surfaces.push(kept);
        assert(crate::restore_script::surface_views(surfaces@)
            == crate::restore_script::surface_views(before).push(kept@));
    }
    assert(all.take(all.len() as int) == all);
    let mut windows: Vec<CapturedWindow> = Vec::new();
    for i in 0..workspace.windows.len()
        invariant
            windows@ == workspace.windows@.take(i as int),
    {
        windows.push(workspace.windows[i]);
    }
    assert(windows@ == workspace.windows@);
    render_restore_script(&CapturedWorkspace { windows, surfaces })
}

/// The fields of a surface's line: window, tab, pane, terminal id, working directory,
/// kept title and rectangle.
pub open spec fn row_fields(row: crate::restore_script::Surface) -> Seq<Seq<char>> {
    seq![
        crate::number::decimal(row.window_index as nat),
        crate::number::decimal(row.tab_index as nat),
        crate::number::decimal(row.pane_index as nat),
        row.terminal_id,
        row.working_dir,
        kept_title(row.title),
        rect_text(row.rect),
    ]
}

/// A surface as a line: its fields, apart by tabs.
pub open spec fn row_text(row: crate::restore_script::Surface) -> Seq<char> {
    crate::text::join(row_fields(row), "\t"@)
}

/// The numbers of a rectangle.
pub open spec fn rect_fields(rect: CapturedPaneRect) -> Seq<Seq<char>> {
    seq![
        crate::number::signed_decimal(rect.x as int),
        crate::number::signed_decimal(rect.y as int),
        crate::number::signed_decimal(rect.width as int),
        crate::number::signed_decimal(rect.height as int),
    ]
}

/// A rectangle as `x,y,width,height`.
pub open spec fn rect_text(rect: CapturedPaneRect) -> Seq<char> {
    crate::text::join(rect_fields(rect), ","@)
}

/// Surfaces as lines.
pub open spec fn row_texts(rows: Seq<crate::restore_script::Surface>) -> Seq<Seq<char>> {
    rows.map_values(|row: crate::restore_script::Surface| row_text(row))
}

/// Writes a rectangle.
fn rect_string(rect: &CapturedPaneRect) -> (r: String)
    ensures
        r@ == rect_text(*rect),
{
    let mut fields: Vec<String> = Vec::new();
    fields.push(i32_string(rect.x));
    fields.push(i32_string(rect.y));
    fields.push(i32_string(rect.width));
    fields.push(i32_string(rect.height));
    assert(crate::text::string_views(fields@) == rect_fields(*rect));
    join_strings(&fields, ",")
}

/// Writes a surface as a line.
fn row_string(row: &CapturedTabSurface) -> (r: String)
    ensures
        r@ == row_text(row@),
{
    let mut fields: Vec<String> = Vec::new();
    fields.push(usize_string(row.window_index));
    fields.push(usize_string(row.tab_index));
    fields.push(usize_string(row.pane_index));
    fields.push(row.terminal_id.clone());
    fields.push(row.working_dir.clone());
    fields.push(title_to_keep(&row.title));
    fields.push(rect_string(&row.rect));
    assert(crate::text::string_views(fields@) == row_fields(row@));
    join_strings(&fields, "\t")
}

/// Writes surfaces as lines, apart by line breaks.
pub fn serialize_captured_tab_surfaces(rows: &[CapturedTabSurface]) -> (r: String)
    ensures
        r@ == crate::text::join(row_texts(crate::restore_script::surface_views(rows@)), "\n"@),
{
    let mut lines: Vec<String> = Vec::new();
    let ghost all = row_texts(crate::restore_script::surface_views(rows@));
    for i in 0..rows.len()
        invariant
            all == row_texts(crate::restore_script::surface_views(rows@)),
            crate::text::string_views(lines@) == all.take(i as int),
    {
        let ghost before = lines@;
        let line = row_string(&rows[i]);
        lines.push(line);
        assert(crate::text::string_views(lines@) == crate::text::string_views(before).push(line@));
    }
    assert(all.take(all.len() as int) == all);
    join_strings(&lines, "\n")
}

/// A surface that a line can hold: no tab or line break in its fields, the terminal id
/// without white space around it, and the title normalized.
pub open spec fn writable(row: crate::restore_script::Surface) -> bool {
    &&& !crate::text::has_char(row.terminal_id, '\t')
    &&& !crate::text::has_char(row.terminal_id, '\n')
    &&& crate::text::trim(row.terminal_id) == row.terminal_id
    &&& !crate::text::has_char(row.working_dir, '\t')
    &&& !crate::text::has_char(row.working_dir, '\n')
    &&& !crate::text::has_char(row.title, '\t')
    &&& !crate::text::has_char(row.title, '\n')
    &&& normalized_title(row.title) == row.title
}

/// The decimal text of a number holds digits alone, so trimming keeps it.
proof fn lemma_decimal_plain(n: nat)
    ensures
        crate::text::trim(crate::number::decimal(n)) == crate::number::decimal(n),
        forall|c: char|
            !crate::number::is_digit(c) ==> !#[trigger] crate::text::has_char(
                crate::number::decimal(n),
                c,
            ),
        crate::number::decimal(n).len() > 0,
{
    let s = crate::number::decimal(n);
    crate::number::decimal_reads_back(n);
    assert(crate::number::is_digit(s[0]));
    assert(crate::number::is_digit(s[s.len() - 1]));
    crate::text::lemma_trimmed(s);
    assert forall|c: char|
        !crate::number::is_digit(c) implies !#[trigger] crate::text::has_char(s, c) by {
        if crate::text::has_char(s, c) {
            let i = choose|i: int| 0 <= i < s.len() && s[i] == c;
            assert(crate::number::is_digit(s[i]));
        }
    }
}

/// The decimal text of a signed number holds digits and a sign alone.
pub proof fn lemma_signed_plain(v: int)
    ensures
        crate::text::trim(crate::number::signed_decimal(v)) == crate::number::signed_decimal(v),
        forall|c: char|
            !crate::number::is_digit(c) && c != '-' ==> !#[trigger] crate::text::has_char(
                crate::number::signed_decimal(v),
                c,
            ),
        crate::number::signed_decimal(v).len() > 0,
        crate::number::is_digit(crate::number::signed_decimal(v).last()),
{
    let s = crate::number::signed_decimal(v);
    if v < 0 {
        let d = crate::number::decimal((-v) as nat);
        lemma_decimal_plain((-v) as nat);
        crate::number::decimal_reads_back((-v) as nat);
        assert(crate::number::is_digit(d[d.len() - 1]));
        assert(s.last() == d.last());
        crate::text::lemma_trimmed(s);
        assert forall|c: char|
            !crate::number::is_digit(c) && c != '-' implies !#[trigger] crate::text::has_char(
            s,
            c,
        ) by {
            if crate::text::has_char(s, c) {
                let i = choose|i: int| 0 <= i < s.len() && s[i] == c;
                assert(d[i - 1] == c);
                assert(crate::text::has_char(d, c));
            }
        }
    } else {
        lemma_decimal_plain(v as nat);
        crate::number::decimal_reads_back(v as nat);
        assert(crate::number::is_digit(s[s.len() - 1]));
    }
}

/// The numbers of a rectangle hold digits and signs alone.
proof fn lemma_rect_fields_absent(rect: CapturedPaneRect, c: char)
    requires
        !crate::number::is_digit(c),
        c != '-',
    ensures
        forall|i: int|
            0 <= i < rect_fields(rect).len() ==> !crate::text::has_char(
                #[trigger] rect_fields(rect)[i],
                c,
            ),
{
    lemma_signed_plain(rect.x as int);
    lemma_signed_plain(rect.y as int);
    lemma_signed_plain(rect.width as int);
    lemma_signed_plain(rect.height as int);
    let fields = rect_fields(rect);
    assert(!crate::text::has_char(fields[0], c));
    assert(!crate::text::has_char(fields[1], c));
    assert(!crate::text::has_char(fields[2], c));
    assert(!crate::text::has_char(fields[3], c));
}

/// A rectangle's text is read back.
proof fn lemma_rect_reads_back(rect: CapturedPaneRect)
    ensures
        captured_rect(rect_text(rect)) == Some(rect),
{
    reveal_strlit(",");
    assert(","@ == seq![',']);
    let fields = rect_fields(rect);
    lemma_rect_fields_absent(rect, ',');
    crate::text::split_of_join(fields, ',');
    lemma_signed_plain(rect.x as int);
    lemma_signed_plain(rect.y as int);
    lemma_signed_plain(rect.width as int);
    lemma_signed_plain(rect.height as int);
    crate::number::signed_reads_back(rect.x);
    crate::number::signed_reads_back(rect.y);
    crate::number::signed_reads_back(rect.width);
    crate::number::signed_reads_back(rect.height);
}

/// A rectangle's text is one field of a line, and ends with a digit.
proof fn lemma_rect_is_field(rect: CapturedPaneRect)
    ensures
        !crate::text::has_char(rect_text(rect), '\t'),
        !crate::text::has_char(rect_text(rect), '\n'),
        rect_text(rect).len() > 0,
        crate::number::is_digit(rect_text(rect).last()),
{
    reveal_strlit(",");
    assert(","@ == seq![',']);
    let fields = rect_fields(rect);
    lemma_rect_fields_absent(rect, '\t');
    lemma_rect_fields_absent(rect, '\n');
    crate::text::lemma_join_absent(fields, seq![','], '\t');
    crate::text::lemma_join_absent(fields, seq![','], '\n');
    lemma_signed_plain(rect.height as int);
    assert(fields.last() == crate::number::signed_decimal(rect.height as int));
}

/// A surface that was written as a line is read back, with the title that is kept.
pub proof fn row_reads_back(row: crate::restore_script::Surface)
    requires
        writable(row),
    ensures
        captured_row(row_text(row)) == Some(kept_surface(row)),
        crate::text::plain_line(row_text(row)),
        row_text(row).len() > 0,
{
    reveal_strlit("\t");
    reveal_strlit("");
    let tab = seq!['\t'];
    assert("\t"@ == tab);
    assert(""@ == Seq::<char>::empty());
    let fields = row_fields(row);
    let w = fields[0];
    let title = fields[5];
    lemma_decimal_plain(row.window_index as nat);
    lemma_decimal_plain(row.tab_index as nat);
    lemma_decimal_plain(row.pane_index as nat);
    crate::number::unsigned_reads_back(row.window_index as nat, usize::MAX as int);
    crate::number::unsigned_reads_back(row.tab_index as nat, usize::MAX as int);
    crate::number::unsigned_reads_back(row.pane_index as nat, usize::MAX as int);
    lemma_rect_reads_back(row.rect);
    lemma_rect_is_field(row.rect);
    assert forall|i: int| 0 <= i < fields.len() implies !(#[trigger] crate::text::has_char(
        fields[i],
        '\t',
    )) && !crate::text::has_char(fields[i], '\n') by {
        assert(!crate::text::has_char(fields[0], '\t') && !crate::text::has_char(fields[0], '\n'));
        assert(!crate::text::has_char(fields[1], '\t') && !crate::text::has_char(fields[1], '\n'));
        assert(!crate::text::has_char(fields[2], '\t') && !crate::text::has_char(fields[2], '\n'));
        assert(!crate::text::has_char(fields[5], '\t') && !crate::text::has_char(fields[5], '\n'));
    }
    let rest = fields.skip(1);
    let s = row_text(row);
    assert forall|i: int| 0 <= i < rest.len() implies !(#[trigger] crate::text::has_char(
        rest[i],
        '\t',
    )) by {
        assert(!crate::text::has_char(fields[i + 1], '\t'));
    }
    crate::text::lemma_join_front(fields, tab);
    crate::text::split_of_join(rest, '\t');
    crate::text::lemma_join_absent(fields, tab, '\n');
    let tail = crate::text::join(rest, tab);
    assert(s == w + tab + tail);
    assert(s.last() == fields[6].last());
    assert(crate::text::trim_end_char(s, '\r') == s);
    lemma_split_once_front(w, tail);
    assert(normalized_title(title) == title) by {
        if shell_default_title(row.title) {
            assert(crate::text::trim(title) == title);
            assert(without_marks(title) == title);
        }
    }
    assert(rest[0] == fields[1] && rest[1] == fields[2] && rest[2] == fields[3] && rest[3]
        == fields[4] && rest[4] == fields[5] && rest[5] == fields[6]);
    assert(captured_surface(tail, row.window_index) == Some(kept_surface(row)));
}

/// The first tab splits a line whose first field holds none.
proof fn lemma_split_once_front(w: Seq<char>, tail: Seq<char>)
    requires
        !crate::text::has_char(w, '\t'),
    ensures
        crate::text::split_once(w + seq!['\t'] + tail, seq!['\t']) == Some((w, tail)),
{
    let tab = seq!['\t'];
    let s = w + tab + tail;
    let at = w.len() as int;
    assert(s.subrange(at, at + 1) == tab);
    assert(crate::text::occurs_at(s, tab, at));
    assert forall|j: int| 0 <= j < at implies !crate::text::occurs_at(s, tab, j) by {
        if crate::text::occurs_at(s, tab, j) {
            assert(s.subrange(j, j + 1)[0] == s[j]);
            assert(w[j] == '\t');
        }
    }
    crate::text::lemma_find_from_is(s, tab, 0, at);
    assert(s.take(at) == w);
    assert(s.skip(at + 1) == tail);
}

/// Surfaces that were written as lines are read back, in order, with the titles that
/// are kept.
pub proof fn rows_read_back(rows: Seq<crate::restore_script::Surface>)
    requires
        forall|i: int| 0 <= i < rows.len() ==> writable(#[trigger] rows[i]),
    ensures
        captured_rows(crate::text::lines(crate::text::join(row_texts(rows), "\n"@)))
            == kept_surfaces(rows),
{
    reveal_strlit("\n");
    assert("\n"@ == seq!['\n']);
    let texts = row_texts(rows);
    assert forall|i: int| 0 <= i < texts.len() implies crate::text::plain_line(
        #[trigger] texts[i],
    ) && texts[i].len() > 0 by {
        row_reads_back(rows[i]);
    }
    if texts.len() > 0 {
        assert(texts[texts.len() - 1].len() > 0);
    }
    crate::text::lines_of_join(texts);
    lemma_rows_read_back(rows);
}

/// Each line of a list of surfaces is read back.
proof fn lemma_rows_read_back(rows: Seq<crate::restore_script::Surface>)
    requires
        forall|i: int| 0 <= i < rows.len() ==> writable(#[trigger] rows[i]),
    ensures
        captured_rows(row_texts(rows)) == kept_surfaces(rows),
    decreases rows.len(),
{
    if rows.len() > 0 {
        let rest = rows.drop_last();
        assert forall|i: int| 0 <= i < rest.len() implies writable(#[trigger] rest[i]) by {
            assert(rest[i] == rows[i]);
        }
        lemma_rows_read_back(rest);
        assert(writable(rows[rows.len() - 1]));
        row_reads_back(rows.last());
        assert(row_texts(rows).drop_last() == row_texts(rest));
        assert(kept_surfaces(rows) == kept_surfaces(rest).push(kept_surface(rows.last())));
    }
}

// What a capture holds of what was open.
/// The fields of a pane in the capture of one window: tab, pane, terminal id, working
/// directory, title and rectangle.
pub open spec fn front_fields(row: crate::restore_script::Surface) -> Seq<Seq<char>> {
    seq![
        crate::number::decimal(row.tab_index as nat),
        crate::number::decimal(row.pane_index as nat),
        row.terminal_id,
        row.working_dir,
        row.title,
        crate::number::signed_decimal(row.rect.x as int) + ","@ + crate::number::signed_decimal(
            row.rect.y as int,
        ) + ","@ + crate::number::signed_decimal(row.rect.width as int) + ","@
            + crate::number::signed_decimal(row.rect.height as int),
    ]
}

/// The lines of panes in the capture of one window: their fields, apart by tabs.
pub open spec fn front_lines(rows: Seq<crate::restore_script::Surface>) -> Seq<Seq<char>> {
    rows.map_values(
        |row: crate::restore_script::Surface| crate::text::join(front_fields(row), "\t"@),
    )
}

/// The text of a rectangle, written out.
proof fn lemma_rect_written_out(rect: CapturedPaneRect)
    ensures
        rect_text(rect) == crate::number::signed_decimal(rect.x as int) + ","@
            + crate::number::signed_decimal(rect.y as int) + ","@ + crate::number::signed_decimal(
            rect.width as int,
        ) + ","@ + crate::number::signed_decimal(rect.height as int),
{
    let f = rect_fields(rect);
    let a = seq![f[0]];
    let b = seq![f[0], f[1]];
    let c = seq![f[0], f[1], f[2]];
    assert(f.drop_last() =~= c);
    assert(c.drop_last() =~= b);
    assert(b.drop_last() =~= a);
    assert(crate::text::join(a, ","@) == f[0]);
    assert(crate::text::join(b, ","@) == f[0] + ","@ + f[1]);
    assert(crate::text::join(c, ","@) == f[0] + ","@ + f[1] + ","@ + f[2]);
}

/// One line of the capture of a window stands for the pane that it was written of.
proof fn lemma_front_line(row: crate::restore_script::Surface)
    requires
        writable(row),
    ensures
        captured_surface(crate::text::join(front_fields(row), "\t"@), row.window_index) == Some(
            row,
        ),
        crate::text::plain_line(crate::text::join(front_fields(row), "\t"@)),
        crate::text::join(front_fields(row), "\t"@).len() > 0,
{
    reveal_strlit("\t");
    let tab = seq!['\t'];
    assert("\t"@ == tab);
    let fields = front_fields(row);
    lemma_decimal_plain(row.tab_index as nat);
    lemma_decimal_plain(row.pane_index as nat);
    crate::number::unsigned_reads_back(row.tab_index as nat, usize::MAX as int);
    crate::number::unsigned_reads_back(row.pane_index as nat, usize::MAX as int);
    lemma_rect_written_out(row.rect);
    lemma_rect_reads_back(row.rect);
    lemma_rect_is_field(row.rect);
    assert(fields[5] == rect_text(row.rect));
    assert forall|i: int| 0 <= i < fields.len() implies !(#[trigger] crate::text::has_char(
        fields[i],
        '\t',
    )) && !crate::text::has_char(fields[i], '\n') by {
        assert(!crate::text::has_char(fields[0], '\t') && !crate::text::has_char(fields[0], '\n'));
        assert(!crate::text::has_char(fields[1], '\t') && !crate::text::has_char(fields[1], '\n'));
    }
    crate::text::split_of_join(fields, '\t');
    crate::text::lemma_join_absent(fields, tab, '\n');
    let s = crate::text::join(fields, tab);
    assert(s.last() == fields[5].last());
}

/// The panes of two runs of lines are the panes of one and then of the other: a line is
/// read by itself, whatever stands around it.
pub proof fn lines_are_read_by_themselves(
    a: Seq<Seq<char>>,
    b: Seq<Seq<char>>,
    window: usize,
)
    ensures
        captured_surfaces(a + b, window) == captured_surfaces(a, window) + captured_surfaces(
            b,
            window,
        ),
        captured_rows(a + b) == captured_rows(a) + captured_rows(b),
        captured_windows(a + b) == captured_windows(a) + captured_windows(b),
    decreases b.len(),
{
    if b.len() == 0 {
        assert(a + b =~= a);
        assert(captured_surfaces(a, window) + captured_surfaces(b, window) =~= captured_surfaces(
            a,
            window,
        ));
        assert(captured_rows(a) + captured_rows(b) =~= captured_rows(a));
        assert(captured_windows(a) + captured_windows(b) =~= captured_windows(a));
    } else {
        let c = b.drop_last();
        lines_are_read_by_themselves(a, c, window);
        assert((a + b).drop_last() =~= a + c);
        assert((a + b).last() == b.last());
        assert(captured_surfaces(a + b, window) =~= captured_surfaces(a, window)
            + captured_surfaces(b, window));
        assert(captured_rows(a + b) =~= captured_rows(a) + captured_rows(b));
        assert(captured_windows(a + b) =~= captured_windows(a) + captured_windows(b));
    }
}

/// The capture of a window holds every pane that was written into it, each once and in
/// order, also panes of one tab that start in the same directory.
pub proof fn front_rows_read_back(rows: Seq<crate::restore_script::Surface>, window: usize)
    requires
        forall|i: int|
            0 <= i < rows.len() ==> writable(#[trigger] rows[i]) && rows[i].window_index == window,
    ensures
        ({
            let text = crate::text::join(front_lines(rows), "\n"@);
            &&& captured_surfaces(crate::text::lines(text), window) == rows
            &&& rows.len() > 0 ==> captured_surfaces(
                crate::text::lines(text + "\n"@),
                window,
            ) == rows
        }),
{
    reveal_strlit("\n");
    assert("\n"@ == seq!['\n']);
    let texts = front_lines(rows);
    assert forall|i: int| 0 <= i < texts.len() implies crate::text::plain_line(
        #[trigger] texts[i],
    ) && texts[i].len() > 0 by {
        assert(writable(rows[i]));
        lemma_front_line(rows[i]);
    }
    if texts.len() > 0 {
        assert(texts[texts.len() - 1].len() > 0);
    }
    crate::text::lines_of_join(texts);
    lemma_front_rows(rows, window);
}

/// Each line of the capture of a window is read back.
proof fn lemma_front_rows(rows: Seq<crate::restore_script::Surface>, window: usize)
    requires
        forall|i: int|
            0 <= i < rows.len() ==> writable(#[trigger] rows[i]) && rows[i].window_index == window,
    ensures
        captured_surfaces(front_lines(rows), window) == rows,
    decreases rows.len(),
{
    if rows.len() > 0 {
        let rest = rows.drop_last();
        assert forall|i: int| 0 <= i < rest.len() implies writable(#[trigger] rest[i])
            && rest[i].window_index == window by {
            assert(rest[i] == rows[i]);
        }
        lemma_front_rows(rest, window);
        assert(writable(rows[rows.len() - 1]));
        lemma_front_line(rows.last());
        assert(front_lines(rows).drop_last() =~= front_lines(rest));
        assert(rest.push(rows.last()) =~= rows);
    } else {
        assert(captured_surfaces(front_lines(rows), window) =~= rows);
    }
}

/// The fields of a window in the capture of all windows: its index and its frame.
pub open spec fn window_fields(window: CapturedWindow) -> Seq<Seq<char>> {
    seq![
        crate::number::decimal(window.window_index as nat),
        crate::number::signed_decimal(window.frame.x as int),
        crate::number::signed_decimal(window.frame.y as int),
        crate::number::signed_decimal(window.frame.width as int),
        crate::number::signed_decimal(window.frame.height as int),
    ]
}

/// The lines of windows in the capture of all windows.
pub open spec fn window_texts(windows: Seq<CapturedWindow>) -> Seq<Seq<char>> {
    windows.map_values(|w: CapturedWindow| crate::text::join(window_fields(w), "\t"@))
}

/// The line of a window is read back.
proof fn lemma_window_line(window: CapturedWindow)
    ensures
        captured_window(crate::text::join(window_fields(window), "\t"@)) == Some(window),
        crate::text::plain_line(crate::text::join(window_fields(window), "\t"@)),
        crate::text::join(window_fields(window), "\t"@).len() > 0,
{
    reveal_strlit("\t");
    let tab = seq!['\t'];
    assert("\t"@ == tab);
    let fields = window_fields(window);
    lemma_decimal_plain(window.window_index as nat);
    crate::number::unsigned_reads_back(window.window_index as nat, usize::MAX as int);
    lemma_signed_plain(window.frame.x as int);
    lemma_signed_plain(window.frame.y as int);
    lemma_signed_plain(window.frame.width as int);
    lemma_signed_plain(window.frame.height as int);
    crate::number::signed_reads_back(window.frame.x);
    crate::number::signed_reads_back(window.frame.y);
    crate::number::signed_reads_back(window.frame.width);
    crate::number::signed_reads_back(window.frame.height);
    assert forall|i: int| 0 <= i < fields.len() implies !(#[trigger] crate::text::has_char(
        fields[i],
        '\t',
    )) && !crate::text::has_char(fields[i], '\n') by {
        assert(!crate::text::has_char(fields[0], '\t') && !crate::text::has_char(fields[0], '\n'));
        assert(!crate::text::has_char(fields[1], '\t') && !crate::text::has_char(fields[1], '\n'));
        assert(!crate::text::has_char(fields[2], '\t') && !crate::text::has_char(fields[2], '\n'));
        assert(!crate::text::has_char(fields[3], '\t') && !crate::text::has_char(fields[3], '\n'));
        assert(!crate::text::has_char(fields[4], '\t') && !crate::text::has_char(fields[4], '\n'));
    }
    crate::text::split_of_join(fields, '\t');
    crate::text::lemma_join_absent(fields, tab, '\n');
    let s = crate::text::join(fields, tab);
    assert(s.last() == fields[4].last());
    assert(crate::text::trim_end_char(s, '\r') == s);
}

/// The capture of all windows holds the frame of every window that was written into it,
/// each once and in order.
pub proof fn window_frames_read_back(windows: Seq<CapturedWindow>)
    ensures
        captured_windows(crate::text::lines(crate::text::join(window_texts(windows), "\n"@)))
            == windows,
{
    reveal_strlit("\n");
    assert("\n"@ == seq!['\n']);
    let texts = window_texts(windows);
    assert forall|i: int| 0 <= i < texts.len() implies crate::text::plain_line(
        #[trigger] texts[i],
    ) && texts[i].len() > 0 by {
        lemma_window_line(windows[i]);
    }
    if texts.len() > 0 {
        assert(texts[texts.len() - 1].len() > 0);
    }
    crate::text::lines_of_join(texts);
    lemma_window_lines(windows);
}

/// Each line of a window is read back.
proof fn lemma_window_lines(windows: Seq<CapturedWindow>)
    ensures
        captured_windows(window_texts(windows)) == windows,
    decreases windows.len(),
{
    if windows.len() > 0 {
        let rest = windows.drop_last();
        lemma_window_lines(rest);
        lemma_window_line(windows.last());
        assert(window_texts(windows).drop_last() =~= window_texts(rest));
        assert(rest.push(windows.last()) =~= windows);
    } else {
        assert(captured_windows(window_texts(windows)) =~= windows);
    }
}

// Which titles are kept.
/// A character that starts no mark.
pub open spec fn starts_no_mark(c: char) -> bool {
    !('\u{2800}' <= c && c <= '\u{28ff}') && c != '\u{1f514}'
}

/// A title that neither starts with a mark nor has white space around it is captured as
/// it is.
pub proof fn plain_titles_stay(title: Seq<char>)
    requires
        title.len() > 0,
        starts_no_mark(title[0]),
        !crate::text::white_space(title[0]),
        !crate::text::white_space(title.last()),
    ensures
        normalized_title(title) == title,
{
    crate::text::lemma_trimmed(title);
    assert(without_mark(title) is None);
}

/// White space around a title, and a spinner or a bell with a space in front of it, do not
/// count.
pub proof fn marks_do_not_count(title: Seq<char>, spinner: char)
    requires
        title.len() > 0,
        starts_no_mark(title[0]),
        !crate::text::white_space(title[0]),
        !crate::text::white_space(title.last()),
        '\u{2800}' <= spinner && spinner <= '\u{28ff}',
    ensures
        normalized_title(seq![spinner, ' '] + title) == title,
        normalized_title(seq!['\u{1f514}', ' '] + title) == title,
        normalized_title(seq![' '] + title + seq!['\n']) == title,
{
    let a = seq![spinner, ' '] + title;
    let b = seq!['\u{1f514}', ' '] + title;
    crate::text::lemma_trimmed(a);
    crate::text::lemma_trimmed(b);
    crate::text::lemma_trimmed(title);
    assert(a.skip(1).skip(1) =~= title);
    assert(crate::text::trim_start(a.skip(1)) == crate::text::trim_start(a.skip(1).skip(1)));
    assert(b.skip(2) =~= title);
    assert(without_mark(title) is None);
    assert(without_marks(a) == without_marks(title));
    assert(without_marks(b) == without_marks(title));
    let c = seq![' '] + title + seq!['\n'];
    let d = title + seq!['\n'];
    assert(c.skip(1) =~= d);
    assert(crate::text::trim_start(d) == d);
    assert(crate::text::trim_start(c) == crate::text::trim_start(d));
    assert(d.drop_last() =~= title);
    assert(crate::text::trim_end(d) == crate::text::trim_end(title));
}

/// A title of the user's own is kept, as it is: one that is neither a path nor
/// `user@host:`, and not the name of a shell.
pub proof fn own_titles_are_kept(title: Seq<char>)
    requires
        title.len() > 0,
        starts_no_mark(title[0]),
        !crate::text::white_space(title[0]),
        !crate::text::white_space(title.last()),
        forall|at: int, colon: int|
            0 <= at < colon < title.len() ==> !(#[trigger] title[at] == '@'
                && #[trigger] title[colon] == ':'),
        title[0] != '/',
        title != "~"@,
        title.len() > 1 && title[1] == '/' ==> title[0] != '~' && title[0] != '\u{2026}',
        title != "zsh"@ && title != "bash"@ && title != "fish"@ && title != "sh"@ && title
            != "-zsh"@ && title != "-bash"@,
    ensures
        kept_title(title) == title,
{
    plain_titles_stay(title);
    reveal_strlit("~/");
    reveal_strlit("~");
    reveal_strlit("\u{2026}/");
    reveal_strlit("/");
    crate::text::lemma_first_index(title, '@');
    if crate::text::starts_with(title, "~/"@) {
        assert(title.take(2)[0] == title[0] && title.take(2)[1] == title[1]);
    }
    if crate::text::starts_with(title, "\u{2026}/"@) {
        assert(title.take(2)[0] == title[0] && title.take(2)[1] == title[1]);
    }
    if crate::text::starts_with(title, "/"@) {
        assert(title.take(1)[0] == title[0]);
    }
    let at = crate::text::first_index(title, '@');
    if at < title.len() && crate::text::has_char(title.skip(at + 1), ':') {
        let rest = title.skip(at + 1);
        let k = choose|k: int| 0 <= k < rest.len() && rest[k] == ':';
        assert(title[at] == '@' && title[at + 1 + k] == ':');
    }
}

/// Titles that shells set by themselves are not kept: `user@host:path`, and paths.
pub proof fn shell_titles_are_dropped(title: Seq<char>, at: int, colon: int)
    requires
        title.len() > 0,
        starts_no_mark(title[0]),
        !crate::text::white_space(title[0]),
        !crate::text::white_space(title.last()),
        (0 <= at < colon < title.len() && title[at] == '@' && title[colon] == ':') || title[0]
            == '/' || title == "~"@ || (title.len() > 1 && title[0] == '~' && title[1] == '/')
            || title == "zsh"@ || title == "bash"@ || title == "fish"@ || title == "sh"@ || title
            == "-zsh"@ || title == "-bash"@,
    ensures
        kept_title(title).len() == 0,
{
    plain_titles_stay(title);
    reveal_strlit("");
    reveal_strlit("/");
    reveal_strlit("~/");
    crate::text::lemma_first_index(title, '@');
    let first = crate::text::first_index(title, '@');
    if 0 <= at < colon < title.len() && title[at] == '@' && title[colon] == ':' {
        assert(first <= at);
        let rest = title.skip(first + 1);
        assert(rest[colon - first - 1] == ':');
        assert(crate::text::has_char(rest, ':'));
    } else if title[0] == '/' {
        assert(title.take(1) =~= "/"@);
    } else if title.len() > 1 && title[0] == '~' && title[1] == '/' {
        assert(title.take(2) =~= "~/"@);
    }
}

/// Keeping titles changes nothing else: no pane is left out, and each keeps its place, its
/// directory and its rectangle.
pub proof fn keeping_titles_keeps_panes(surfaces: Seq<crate::restore_script::Surface>, i: int)
    requires
        0 <= i < surfaces.len(),
    ensures
        kept_surfaces(surfaces).len() == surfaces.len(),
        kept_surfaces(surfaces)[i].title == kept_title(surfaces[i].title),
        (crate::restore_script::Surface { title: surfaces[i].title, ..kept_surfaces(surfaces)[i] })
            == surfaces[i],
{
}

/// A line that lacks a field, or whose tab or pane is no number, stands for no pane.
pub proof fn broken_lines_are_skipped(fields: Seq<Seq<char>>, window: usize)
    requires
        fields.len() > 0,
        forall|i: int| 0 <= i < fields.len() ==> !crate::text::has_char(#[trigger] fields[i], '\t'),
    ensures
        ({
            let r = captured_surface(crate::text::join(fields, "\t"@), window);
            &&& fields.len() < 6 ==> r is None
            &&& fields.len() >= 6 && crate::number::parse_unsigned(
                crate::text::trim(fields[0]),
                usize::MAX as int,
            ) is None ==> r is None
            &&& fields.len() >= 6 && crate::number::parse_unsigned(
                crate::text::trim(fields[1]),
                usize::MAX as int,
            ) is None ==> r is None
            &&& r is Some ==> r->0.window_index == window && r->0.working_dir == fields[3]
        }),
{
    reveal_strlit("\t");
    assert("\t"@ =~= seq!['\t']);
    crate::text::split_of_join(fields, '\t');
}

/// What follows the six fields of a pane is not read.
pub proof fn further_fields_are_not_read(fields: Seq<Seq<char>>, more: Seq<char>, window: usize)
    requires
        fields.len() == 6,
        forall|i: int| 0 <= i < fields.len() ==> !crate::text::has_char(#[trigger] fields[i], '\t'),
        !crate::text::has_char(more, '\t'),
    ensures
        captured_surface(crate::text::join(fields.push(more), "\t"@), window) == captured_surface(
            crate::text::join(fields, "\t"@),
            window,
        ),
{
    reveal_strlit("\t");
    assert("\t"@ =~= seq!['\t']);
    let all = fields.push(more);
    assert forall|i: int| 0 <= i < all.len() implies !crate::text::has_char(
        #[trigger] all[i],
        '\t',
    ) by {
        if i < fields.len() {
            assert(all[i] == fields[i]);
        }
    }
    crate::text::split_of_join(fields, '\t');
    crate::text::split_of_join(all, '\t');
}

/// Whatever stands behind the four numbers of a rectangle is not read.
pub proof fn further_numbers_are_not_read(fields: Seq<Seq<char>>, more: Seq<char>)
    requires
        fields.len() == 4,
        forall|i: int| 0 <= i < fields.len() ==> !crate::text::has_char(#[trigger] fields[i], ','),
        !crate::text::has_char(more, ','),
    ensures
        captured_rect(crate::text::join(fields.push(more), ","@)) == captured_rect(
            crate::text::join(fields, ","@),
        ),
{
    reveal_strlit(",");
    assert(","@ =~= seq![',']);
    let all = fields.push(more);
    assert forall|i: int| 0 <= i < all.len() implies !crate::text::has_char(
        #[trigger] all[i],
        ',',
    ) by {
        if i < fields.len() {
            assert(all[i] == fields[i]);
        }
    }
    crate::text::split_of_join(fields, ',');
    crate::text::split_of_join(all, ',');
}

/// A carriage return at the end of a line of a capture of all windows does not count.
pub proof fn carriage_returns_do_not_count(line: Seq<char>)
    ensures
        captured_window(line.push('\r')) == captured_window(line),
        captured_row(line.push('\r')) == captured_row(line),
{
    assert(line.push('\r').drop_last() =~= line);
    assert(crate::text::trim_end_char(line.push('\r'), '\r') == crate::text::trim_end_char(
        line,
        '\r',
    ));
}

} // verus!
