//! Styled lines of text, and how texts are fitted to a width.

use vstd::prelude::*;

use crate::text::{chars_of, repeated, string_of};

verus! {

/// A colour of the terminal's palette.
#[derive(Clone, Copy, Debug, PartialEq, Eq, Structural)]
pub enum Color {
    Black,
    Red,
    Green,
    Yellow,
    Cyan,
    Gray,
    DarkGray,
}

/// How a text is drawn. Without a colour it has the terminal's own.
#[derive(Clone, Copy, Debug, PartialEq, Eq, Structural)]
pub struct Style {
    pub fg: Option<Color>,
    pub bg: Option<Color>,
    pub bold: bool,
    pub dim: bool,
}

/// The terminal's own style.
pub open spec fn plain() -> Style {
    Style { fg: None, bg: None, bold: false, dim: false }
}

impl Style {
    /// The terminal's own style.
    pub fn plain() -> (r: Self)
        ensures
            r == plain(),
    {
        Style { fg: None, bg: None, bold: false, dim: false }
    }
}

/// The styles of the screen.
#[derive(Clone, Copy, Debug, PartialEq, Eq, Structural)]
pub struct Theme {
    pub accent: Style,
    pub emphasis: Style,
    pub muted: Style,
    pub dim: Style,
    pub success: Style,
    pub error: Style,
    pub warning: Style,
    pub selection: Style,
    pub border: Style,
    pub border_active: Style,
    pub titlebar: Style,
    pub titlebar_dim: Style,
    pub section: Style,
}

/// A colour, with or without weight.
pub open spec fn colored(fg: Option<Color>, bold: bool) -> Style {
    Style { fg, bg: None, bold, dim: false }
}

/// The styles of the screen, with colours or without.
pub open spec fn theme_of(no_color: bool) -> Theme {
    let bold = colored(None, true);
    let dim = Style { fg: None, bg: None, bold: false, dim: true };
    if no_color {
        Theme {
            accent: bold,
            emphasis: bold,
            muted: dim,
            dim,
            success: bold,
            error: bold,
            warning: bold,
            selection: bold,
            border: plain(),
            border_active: bold,
            titlebar: bold,
            titlebar_dim: dim,
            section: bold,
        }
    } else {
        Theme {
            accent: colored(Some(Color::Cyan), true),
            emphasis: bold,
            muted: colored(Some(Color::Gray), false),
            dim: colored(Some(Color::DarkGray), false),
            success: colored(Some(Color::Green), true),
            error: colored(Some(Color::Red), true),
            warning: colored(Some(Color::Yellow), true),
            selection: colored(Some(Color::Cyan), true),
            border: colored(Some(Color::DarkGray), false),
            border_active: colored(Some(Color::Cyan), true),
            titlebar: Style {
                fg: Some(Color::Black),
                bg: Some(Color::Cyan),
                bold: true,
                dim: false,
            },
            titlebar_dim: Style {
                fg: Some(Color::Black),
                bg: Some(Color::Cyan),
                bold: false,
                dim: false,
            },
            section: colored(Some(Color::Yellow), true),
        }
    }
}

fn with_color(fg: Option<Color>, bold: bool) -> (r: Style)
    ensures
        r == colored(fg, bold),
{
    Style { fg, bg: None, bold, dim: false }
}

impl Theme {
    /// The styles of the screen: without colours where the user wants none. Emphasis has
    /// weight and no colour of its own, so it is readable on every background.
    pub fn detect(no_color: bool) -> (r: Self)
        ensures
            r == theme_of(no_color),
            r.emphasis.fg is None && r.emphasis.bg is None && r.emphasis.bold,
    {
        let bold = with_color(None, true);
        let dim = Style { fg: None, bg: None, bold: false, dim: true };
        if no_color {
            return Theme {
                accent: bold,
                emphasis: bold,
                muted: dim,
                dim,
                success: bold,
                error: bold,
                warning: bold,
                selection: bold,
                border: Style::plain(),
                border_active: bold,
                titlebar: bold,
                titlebar_dim: dim,
                section: bold,
            };
        }
        Theme {
            accent: with_color(Some(Color::Cyan), true),
            emphasis: bold,
            muted: with_color(Some(Color::Gray), false),
            dim: with_color(Some(Color::DarkGray), false),
            success: with_color(Some(Color::Green), true),
            error: with_color(Some(Color::Red), true),
            warning: with_color(Some(Color::Yellow), true),
            selection: with_color(Some(Color::Cyan), true),
            border: with_color(Some(Color::DarkGray), false),
            border_active: with_color(Some(Color::Cyan), true),
            titlebar: Style {
                fg: Some(Color::Black),
                bg: Some(Color::Cyan),
                bold: true,
                dim: false,
            },
            titlebar_dim: Style {
                fg: Some(Color::Black),
                bg: Some(Color::Cyan),
                bold: false,
                dim: false,
            },
            section: with_color(Some(Color::Yellow), true),
        }
    }
}

/// A text in one style.
#[derive(Clone, Debug, PartialEq, Eq)]
pub struct Span {
    pub content: String,
    pub style: Style,
}

/// A line of texts.
#[derive(Clone, Debug, PartialEq, Eq)]
pub struct Line {
    pub spans: Vec<Span>,
}

/// Lines.
#[derive(Clone, Debug, PartialEq, Eq)]
pub struct Text {
    pub lines: Vec<Line>,
}

/// What a text in one style holds.
#[verifier::ext_equal]
pub struct SpanView {
    pub content: Seq<char>,
    pub style: Style,
}

impl View for Span {
    type V = SpanView;

    open spec fn view(&self) -> SpanView {
        SpanView { content: self.content@, style: self.style }
    }
}

/// What texts hold.
pub open spec fn span_views(spans: Seq<Span>) -> Seq<SpanView> {
    spans.map_values(|s: Span| s@)
}

impl View for Line {
    type V = Seq<SpanView>;

    open spec fn view(&self) -> Seq<SpanView> {
        span_views(self.spans@)
    }
}

/// What lines hold.
pub open spec fn line_views(lines: Seq<Line>) -> Seq<Seq<SpanView>> {
    lines.map_values(|l: Line| l@)
}

impl View for Text {
    type V = Seq<Seq<SpanView>>;

    open spec fn view(&self) -> Seq<Seq<SpanView>> {
        line_views(self.lines@)
    }
}

/// A text in one style.
pub open spec fn span(content: Seq<char>, style: Style) -> SpanView {
    SpanView { content, style }
}

/// A line of one text in the terminal's own style.
pub open spec fn plain_line(content: Seq<char>) -> Seq<SpanView> {
    seq![span(content, plain())]
}

impl Span {
    /// A text in one style.
    pub fn styled(content: &str, style: Style) -> (r: Self)
        ensures
            r@ == span(content@, style),
    {
        Span { content: content.to_string(), style }
    }

    /// A text in the terminal's own style.
    pub fn raw(content: &str) -> (r: Self)
        ensures
            r@ == span(content@, plain()),
    {
        Span { content: content.to_string(), style: Style::plain() }
    }
}

impl Line {
    /// An empty line.
    pub fn empty() -> (r: Self)
        ensures
            r@ == Seq::<SpanView>::empty(),
    {
        let r = Line { spans: Vec::new() };
        assert(r@ =~= Seq::<SpanView>::empty());
        r
    }

    /// A line of one text.
    pub fn styled(content: &str, style: Style) -> (r: Self)
        ensures
            r@ == seq![span(content@, style)],
    {
        let mut r = Line::empty();
        r.push(Span::styled(content, style));
        assert(r@ =~= seq![span(content@, style)]);
        r
    }

    /// A line of one text in the terminal's own style.
    pub fn raw(content: &str) -> (r: Self)
        ensures
            r@ == plain_line(content@),
    {
        Line::styled(content, Style::plain())
    }

    /// Appends a text.
    pub fn push(&mut self, span: Span)
        ensures
            final(self)@ == old(self)@.push(span@),
    {
        self.spans.push(span);
        assert(self@ =~= old(self)@.push(span@));
    }
}

impl Text {
    /// No lines.
    pub fn empty() -> (r: Self)
        ensures
            r@ == Seq::<Seq<SpanView>>::empty(),
    {
        let r = Text { lines: Vec::new() };
        assert(r@ =~= Seq::<Seq<SpanView>>::empty());
        r
    }

    /// Appends a line.
    pub fn push(&mut self, line: Line)
        ensures
            final(self)@ == old(self)@.push(line@),
    {
        self.lines.push(line);
        assert(self@ =~= old(self)@.push(line@));
    }
}

// Fitting.
/// A text in at most `max` characters: cut, with dots at the end, where it is longer.
pub open spec fn fitted(text: Seq<char>, max: int) -> Seq<char> {
    if text.len() <= max {
        text
    } else if max <= 3 {
        crate::text::repeat('.', max)
    } else {
        text.take(max - 3) + "..."@
    }
}

/// A text in at most `max_width` characters.
pub fn fit_text(text: &str, max_width: usize) -> (r: String)
    ensures
        r@ == fitted(text@, max_width as int),
{
    let chars = chars_of(text);
    if chars.len() <= max_width {
        return text.to_string();
    }
    if max_width <= 3 {
        return repeated('.', max_width);
    }
    let prefix: &[char] = &chars[0..max_width - 3];
    assert(prefix@ == text@.take(max_width - 3));
    let mut out = string_of(prefix);
    out.append("...");
    out
}

/// A fitted text has at most the characters that it was given, and a text that fits is
/// kept.
pub proof fn fitted_text_fits(text: Seq<char>, max: int)
    requires
        max >= 0,
    ensures
        fitted(text, max).len() <= max,
        fitted(text, max).len() <= text.len(),
        text.len() <= max ==> fitted(text, max) == text,
        text.len() > max ==> fitted(text, max).len() == max,
{
    reveal_strlit("...");
}

/// A label in exactly `width` characters: cut where it is longer, filled up where it is
/// shorter.
pub open spec fn cell_text(label: Seq<char>, width: int) -> Seq<char> {
    let cut = if label.len() <= width {
        label
    } else if width <= 3 {
        label.take(width)
    } else {
        label.take(width - 3) + "..."@
    };
    cut + crate::text::repeat(' ', width - cut.len())
}

/// A label in exactly `cell_width` characters.
pub fn fit_directory_cell(label: &str, cell_width: u16) -> (r: String)
    ensures
        r@ == cell_text(label@, cell_width as int),
{
    proof {
        reveal_strlit("...");
    }
    let width: usize = cell_width as usize;
    let chars = chars_of(label);
    let mut out;
    let mut used: usize = width;
    if chars.len() > width {
        if width <= 3 {
            let prefix: &[char] = &chars[0..width];
            assert(prefix@ == label@.take(width as int));
            out = string_of(prefix);
        } else {
            let prefix: &[char] = &chars[0..width - 3];
            assert(prefix@ == label@.take(width - 3));
            out = string_of(prefix);
            out.append("...");
        }
    } else {
        used = chars.len();
        out = label.to_string();
    }
    out.append(repeated(' ', width - used).as_str());
    out
}

/// A cell's text fills the cell.
pub proof fn cell_text_fills_cell(label: Seq<char>, width: int)
    requires
        width >= 0,
    ensures
        cell_text(label, width).len() == width,
        label.len() <= width ==> crate::text::starts_with(cell_text(label, width), label),
{
    reveal_strlit("...");
    if label.len() <= width {
        assert(cell_text(label, width).take(label.len() as int) =~= label);
    }
}

/// The upper case form of one ASCII character.
pub open spec fn ascii_upper(c: char) -> char {
    if 'a' <= c && c <= 'z' {
        (c as u8 - 32) as u8 as char
    } else {
        c
    }
}

/// A section's heading: its label in upper case, and a rule.
pub open spec fn section(width: int, label: Seq<char>, theme: Theme) -> Seq<SpanView> {
    seq![
        span(label.map_values(|c: char| ascii_upper(c)), theme.section),
        span(" "@, plain()),
        span(
            crate::text::repeat(
                '\u{2500}',
                crate::geometry::clamp(width - label.len() - 1, 6, 40),
            ),
            theme.dim,
        ),
    ]
}

/// A section's heading.
pub fn section_line(width: u16, label: &str, theme: &Theme) -> (r: Line)
    ensures
        r@ == section(width as int, label@, *theme),
{
    let chars = chars_of(label);
    let mut upper = String::new();
    for i in 0..chars.len()
        invariant
            chars@ == label@,
            upper@ == label@.take(i as int).map_values(|c: char| ascii_upper(c)),
    {
        let c = chars[i];
        if 'a' <= c && c <= 'z' {
            upper.push((c as u8 - 32) as char);
        } else {
            upper.push(c);
        }
        assert(upper@ =~= label@.take(i + 1).map_values(|c: char| ascii_upper(c)));
    }
    assert(label@.take(chars.len() as int) =~= label@);
    let taken: u128 = chars.len() as u128 + 1;
    let fill: usize = if width as u128 <= taken + 6 {
        6
    } else if width as u128 - taken > 40 {
        40
    } else {
        (width as u128 - taken) as usize
    };
    let mut r = Line::empty();
    r.push(Span::styled(upper.as_str(), theme.section));
    r.push(Span::raw(" "));
    r.push(Span::styled(repeated('\u{2500}', fill).as_str(), theme.dim));
    assert(r@ =~= section(width as int, label@, *theme));
    r
}

/// Two texts at the ends of a line, each cut where the line is too short for both.
pub open spec fn two_ends(width: int, left: Seq<char>, right: Seq<char>) -> (
    Seq<char>,
    int,
    Seq<char>,
) {
    let crowded = left.len() + right.len() + 1 > width;
    let r = if crowded {
        fitted(
            right,
            crate::geometry::min(crate::geometry::max(width / 2, 12), width - 1),
        )
    } else {
        right
    };
    let l = if crowded {
        fitted(left, crate::geometry::max(width - r.len() - 1, 1))
    } else {
        left
    };
    (l, crate::geometry::max(width - l.len() - r.len(), 1), r)
}

/// A line with texts at its ends.
pub open spec fn joined(
    width: int,
    left: Seq<char>,
    right: Seq<char>,
    left_style: Style,
    right_style: Style,
) -> Seq<SpanView> {
    let (l, gap, r) = two_ends(crate::geometry::max(width, 1), left, right);
    seq![span(l, left_style), span(crate::text::repeat(' ', gap), plain()), span(r, right_style)]
}

/// A line with texts at its ends.
pub fn joined_line(
    line_width: u16,
    left: &str,
    right: &str,
    left_style: Style,
    right_style: Style,
) -> (r: Line)
    ensures
        r@ == joined(line_width as int, left@, right@, left_style, right_style),
{
    let width: usize = if line_width > 1 {
        line_width as usize
    } else {
        1
    };
    let left_len: usize = chars_of(left).len();
    let right_len: usize = chars_of(right).len();
    let mut l = left.to_string();
    let mut r = right.to_string();
    let crowded = left_len as u128 + right_len as u128 + 1 > width as u128;
    if crowded {
        let half: usize = width / 2;
        let cap: usize = if half > 12 {
            half
        } else {
            12
        };
        let room: usize = if cap < width - 1 {
            cap
        } else {
            width - 1
        };
        r = fit_text(right, room);
        proof {
            fitted_text_fits(right@, room as int);
        }
        let used: usize = chars_of(r.as_str()).len();
        let left_room: usize = if width - used > 2 {
            width - used - 1
        } else {
            1
        };
        l = fit_text(left, left_room);
    }
    let taken: u128 = chars_of(l.as_str()).len() as u128 + chars_of(r.as_str()).len() as u128;
    let gap: usize = if taken + 1 < width as u128 {
        (width as u128 - taken) as usize
    } else {
        1
    };
    let mut line = Line::empty();
    line.push(Span::styled(l.as_str(), left_style));
    line.push(Span::raw(repeated(' ', gap).as_str()));
    line.push(Span::styled(r.as_str(), right_style));
    assert(line@ =~= joined(line_width as int, left@, right@, left_style, right_style));
    line
}

/// A line with texts at its ends is as wide as it should be, as long as the right text
/// leaves room for a gap and one character.
pub proof fn two_ends_fill_line(width: int, left: Seq<char>, right: Seq<char>)
    requires
        right.len() + 2 <= width,
    ensures
        ({
            let (l, gap, r) = two_ends(width, left, right);
            l.len() + gap + r.len() == width && gap >= 1
        }),
{
    let room = crate::geometry::min(crate::geometry::max(width / 2, 12), width - 1);
    fitted_text_fits(right, room);
    let (l, gap, r) = two_ends(width, left, right);
    fitted_text_fits(left, crate::geometry::max(width - r.len() - 1, 1));
}

/// A text that is cut keeps its start, and ends with dots; nothing but the dots is put in.
pub proof fn cut_texts_keep_their_start(text: Seq<char>, max: int)
    requires
        0 <= max < text.len(),
    ensures
        ({
            let t = fitted(text, max);
            &&& t.len() == max
            &&& forall|i: int| 0 <= i < max - 3 ==> #[trigger] t[i] == text[i]
            &&& forall|i: int| 0 <= i < max && max - 3 <= i ==> #[trigger] t[i] == '.'
        }),
        ({
            let t = cell_text(text, max);
            &&& forall|i: int|
                0 <= i < max && (i < max - 3 || max <= 3) ==> #[trigger] t[i] == text[i]
            &&& max > 3 ==> forall|i: int| max - 3 <= i < max ==> #[trigger] t[i] == '.'
        }),
{
    reveal_strlit("...");
    fitted_text_fits(text, max);
    cell_text_fills_cell(text, max);
}

/// A label that is shorter than its cell is filled up with spaces behind it.
pub proof fn short_labels_are_filled_up(label: Seq<char>, width: int)
    requires
        label.len() <= width,
    ensures
        cell_text(label, width).take(label.len() as int) == label,
        forall|i: int| label.len() <= i < width ==> #[trigger] cell_text(label, width)[i] == ' ',
{
    cell_text_fills_cell(label, width);
    assert(cell_text(label, width).take(label.len() as int) =~= label);
}

/// Where there is room for both texts of a line, both are shown as they are, one at each
/// end.
pub proof fn both_ends_are_shown(width: int, left: Seq<char>, right: Seq<char>)
    requires
        left.len() + right.len() + 1 <= width,
    ensures
        two_ends(width, left, right).0 == left,
        two_ends(width, left, right).1 == width - left.len() - right.len(),
        two_ends(width, left, right).2 == right,
{
}

/// A section's heading is its label with small letters written as capital ones.
pub proof fn headings_are_labels_in_capitals(width: int, label: Seq<char>, theme: Theme, i: int)
    requires
        0 <= i < label.len(),
    ensures
        ({
            let c = section(width, label, theme)[0].content[i];
            &&& section(width, label, theme)[0].content.len() == label.len()
            &&& !('a' <= c && c <= 'z')
            &&& crate::text::ascii_lower(c) == crate::text::ascii_lower(label[i])
            &&& !('a' <= label[i] && label[i] <= 'z') ==> c == label[i]
        }),
{
    let d = label[i];
    if 'a' <= d && d <= 'z' {
        let u = (d as u8 - 32) as u8;
        assert(ascii_upper(d) == u as char);
        assert(u + 32 == d as u8);
    }
}

/// Without colours no style has one, and what stands out does so by weight; with colours,
/// success, warnings and errors have a colour of their own each.
pub proof fn colours_are_left_out(i: int)
    ensures
        ({
            let t = theme_of(true);
            let all = seq![
                t.accent,
                t.emphasis,
                t.muted,
                t.dim,
                t.success,
                t.error,
                t.warning,
                t.selection,
                t.border,
                t.border_active,
                t.titlebar,
                t.titlebar_dim,
                t.section,
            ];
            0 <= i < all.len() ==> all[i].fg is None && all[i].bg is None
        }),
        theme_of(true).selection.bold && theme_of(true).error.bold && theme_of(true).accent.bold,
        ({
            let t = theme_of(false);
            &&& t.success.fg != t.error.fg && t.error.fg != t.warning.fg && t.warning.fg
                != t.success.fg
            &&& t.selection.fg != t.emphasis.fg
            &&& t.titlebar.bg is Some && t.titlebar_dim.bg == t.titlebar.bg
        }),
{
}

/// The rule of a section's heading goes to the end of the line, six cells long at least and
/// forty at most.
pub proof fn rules_fill_the_line(width: int, label: Seq<char>, theme: Theme)
    ensures
        ({
            let rule = section(width, label, theme)[2].content;
            &&& 6 <= rule.len() <= 40
            &&& 6 <= width - label.len() - 1 <= 40 ==> label.len() + 1 + rule.len() == width
            &&& width - label.len() - 1 > 40 ==> rule.len() == 40
            &&& forall|i: int| 0 <= i < rule.len() ==> #[trigger] rule[i] == '\u{2500}'
        }),
{
}

} // verus!
