//! Areas of the screen.

use ratatui::layout;
use ratatui::widgets;
use vstd::prelude::*;

verus! {

/// An area of the screen, in cells.
#[derive(Clone, Copy, Debug, PartialEq, Eq, Structural)]
pub struct Rect {
    pub x: u16,
    pub y: u16,
    pub width: u16,
    pub height: u16,
}

/// How an area is divided.
#[derive(Clone, Copy, Debug, PartialEq, Eq, Structural)]
pub enum Direction {
    /// Side by side.
    Horizontal,
    /// One above the other.
    Vertical,
}

/// How much of an area a part gets.
#[derive(Clone, Copy, Debug, PartialEq, Eq, Structural)]
pub enum Constraint {
    Length(u16),
    Min(u16),
    Percentage(u16),
}

/// The sides on which a frame is drawn.
#[derive(Clone, Copy, Debug, PartialEq, Eq, Structural)]
pub enum Borders {
    All,
    Right,
    Top,
}

/// The larger of two numbers.
pub open spec fn max(a: int, b: int) -> int {
    if a >= b {
        a
    } else {
        b
    }
}

/// The smaller of two numbers.
pub open spec fn min(a: int, b: int) -> int {
    if a <= b {
        a
    } else {
        b
    }
}

/// A value within bounds.
pub open spec fn clamp(v: int, low: int, high: int) -> int {
    if v < low {
        low
    } else if v > high {
        high
    } else {
        v
    }
}

/// The first column behind an area, as far as columns are numbered.
pub open spec fn right_of(area: Rect) -> int {
    min(area.x + area.width, 65535)
}

/// The first row below an area, as far as rows are numbered.
pub open spec fn bottom_of(area: Rect) -> int {
    min(area.y + area.height, 65535)
}

/// `inner` lies in `area`.
#[verifier::opaque]
pub open spec fn lies_in(inner: Rect, area: Rect) -> bool {
    &&& area.x <= inner.x
    &&& right_of(inner) <= max(right_of(area), inner.x as int)
    &&& area.y <= inner.y
    &&& bottom_of(inner) <= max(bottom_of(area), inner.y as int)
    &&& inner.width <= area.width
    &&& inner.height <= area.height
}

/// An area in a part of an area lies in the area.
pub proof fn lies_in_is_transitive(inner: Rect, middle: Rect, area: Rect)
    requires
        lies_in(inner, middle),
        lies_in(middle, area),
    ensures
        lies_in(inner, area),
{
    reveal(lies_in);
}

/// What lies in an area has no cell outside it.
pub proof fn cells_lie_in(inner: Rect, area: Rect, column: u16, row: u16)
    requires
        lies_in(inner, area),
        contains_cell(inner, column, row),
    ensures
        contains_cell(area, column, row),
{
    reveal(lies_in);
}

/// A cell of an area.
pub open spec fn contains_cell(area: Rect, column: u16, row: u16) -> bool {
    &&& area.x <= column < right_of(area)
    &&& area.y <= row < bottom_of(area)
}

/// An area, cut off where rows and columns are no longer numbered.
pub open spec fn rect(x: int, y: int, width: int, height: int) -> Rect {
    Rect {
        x: x as u16,
        y: y as u16,
        width: min(width, 65535 - x) as u16,
        height: min(height, 65535 - y) as u16,
    }
}

impl Rect {
    /// An area, cut off where rows and columns are no longer numbered.
    pub fn new(x: u16, y: u16, width: u16, height: u16) -> (r: Self)
        ensures
            r == rect(x as int, y as int, width as int, height as int),
    {
        let room_x: u16 = 65535 - x;
        let room_y: u16 = 65535 - y;
        Rect {
            x,
            y,
            width: if width <= room_x {
                width
            } else {
                room_x
            },
            height: if height <= room_y {
                height
            } else {
                room_y
            },
        }
    }

    /// No area.
    pub fn empty() -> (r: Self)
        ensures
            r == (Rect { x: 0, y: 0, width: 0, height: 0 }),
    {
        Rect { x: 0, y: 0, width: 0, height: 0 }
    }

    /// Whether a cell belongs to the area.
    pub fn holds(&self, column: u16, row: u16) -> (r: bool)
        ensures
            r == contains_cell(*self, column, row),
    {
        column >= self.x && column < self.x.saturating_add(self.width) && row >= self.y && row
            < self.y.saturating_add(self.height)
    }
}

/// These are areas into which `Layout::split` may divide an area.
pub uninterp spec fn may_split(
    direction: Direction,
    constraints: Seq<Constraint>,
    area: Rect,
    parts: Seq<Rect>,
) -> bool;

/// `ratatui::layout::Layout::split`, without margins or spacing: one part for each
/// constraint, in order, each in the area and as wide as it (one above the other) or as
/// high as it (side by side). How much of the area each part gets is left unsaid: it is
/// found by a floating-point solver that weighs the constraints, and nothing promises the
/// same answer in every process.
#[verifier::external_body]
pub(crate) fn split_area(direction: Direction, constraints: &[Constraint], area: Rect) -> (parts:
    Vec<Rect>)
    ensures
        may_split(direction, constraints@, area, parts@),
        parts@.len() == constraints@.len(),
        forall|i: int|
            0 <= i < parts@.len() ==> {
                let part = #[trigger] parts@[i];
                match direction {
                    Direction::Vertical => part.x == area.x && part.width == area.width && area.y
                        <= part.y && part.y + part.height <= bottom_of(area),
                    Direction::Horizontal => part.y == area.y && part.height == area.height
                        && area.x <= part.x && part.x + part.width <= right_of(area),
                }
            },
{
    let wanted = constraints.iter().map(|c| match c {
        Constraint::Length(n) => layout::Constraint::Length(*n),
        Constraint::Min(n) => layout::Constraint::Min(*n),
        Constraint::Percentage(n) => layout::Constraint::Percentage(*n),
    });
    let toward = match direction {
        Direction::Horizontal => layout::Direction::Horizontal,
        Direction::Vertical => layout::Direction::Vertical,
    };
    let whole = layout::Rect { x: area.x, y: area.y, width: area.width, height: area.height };
    let parts = layout::Layout::new(toward, wanted).split(whole);
    parts.iter().map(|r| Rect { x: r.x, y: r.y, width: r.width, height: r.height }).collect()
}

/// The area inside a frame.
pub open spec fn inside(borders: Borders, area: Rect) -> Rect {
    let shift = if borders == Borders::All && area.x < right_of(area) {
        1int
    } else {
        0
    };
    let drop = if borders == Borders::Right {
        0int
    } else if area.y < bottom_of(area) {
        1
    } else {
        0
    };
    Rect {
        x: (area.x + shift) as u16,
        y: (area.y + drop) as u16,
        width: max(
            area.width - (match borders {
                Borders::All => 2int,
                Borders::Right => 1,
                Borders::Top => 0,
            }),
            0,
        ) as u16,
        height: max(
            area.height - (match borders {
                Borders::All => 2int,
                Borders::Right => 0,
                Borders::Top => 1,
            }),
            0,
        ) as u16,
    }
}

/// `ratatui::widgets::Block::inner`, of a block with borders alone: a border takes one
/// cell off its side, as long as there is one.
#[verifier::external_body]
pub(crate) fn inner_area(borders: Borders, area: Rect) -> (r: Rect)
    ensures
        r == inside(borders, area),
{
    let sides = match borders {
        Borders::All => widgets::Borders::ALL,
        Borders::Right => widgets::Borders::RIGHT,
        Borders::Top => widgets::Borders::TOP,
    };
    let whole = layout::Rect { x: area.x, y: area.y, width: area.width, height: area.height };
    let inner = widgets::Block::default().borders(sides).inner(whole);
    Rect { x: inner.x, y: inner.y, width: inner.width, height: inner.height }
}

/// An area is divided in two in this way.
pub open spec fn splits_in_two(
    direction: Direction,
    first: Constraint,
    second: Constraint,
    area: Rect,
    a: Rect,
    b: Rect,
) -> bool {
    may_split(direction, seq![first, second], area, seq![a, b])
}

/// An area is divided in three in this way.
pub open spec fn splits_in_three(
    direction: Direction,
    first: Constraint,
    second: Constraint,
    third: Constraint,
    area: Rect,
    a: Rect,
    b: Rect,
    c: Rect,
) -> bool {
    may_split(direction, seq![first, second, third], area, seq![a, b, c])
}

/// Divides an area in two.
pub fn split_in_two(direction: Direction, first: Constraint, second: Constraint, area: Rect) -> (r:
    (Rect, Rect))
    ensures
        splits_in_two(direction, first, second, area, r.0, r.1),
        lies_in(r.0, area),
        lies_in(r.1, area),
{
    let mut constraints: Vec<Constraint> = Vec::new();
    constraints.push(first);
    constraints.push(second);
    let parts = split_area(direction, constraints.as_slice(), area);
    assert(constraints@ =~= seq![first, second]);
    assert(parts@ =~= seq![parts@[0], parts@[1]]);
    proof {
        reveal(lies_in);
    }
    (parts[0], parts[1])
}

/// Divides an area in three.
pub fn split_in_three(
    direction: Direction,
    first: Constraint,
    second: Constraint,
    third: Constraint,
    area: Rect,
) -> (r: (Rect, Rect, Rect))
    ensures
        splits_in_three(direction, first, second, third, area, r.0, r.1, r.2),
        lies_in(r.0, area),
        lies_in(r.1, area),
        lies_in(r.2, area),
{
    let mut constraints: Vec<Constraint> = Vec::new();
    constraints.push(first);
    constraints.push(second);
    constraints.push(third);
    let parts = split_area(direction, constraints.as_slice(), area);
    assert(constraints@ =~= seq![first, second, third]);
    assert(parts@ =~= seq![parts@[0], parts@[1], parts@[2]]);
    proof {
        reveal(lies_in);
    }
    (parts[0], parts[1], parts[2])
}

/// The middle of an area, in percent of it: the middle column of the middle row.
pub open spec fn is_centered(percent_x: u16, percent_y: u16, area: Rect, r: Rect) -> bool {
    let beside_x = Constraint::Percentage(((100 - percent_x) / 2) as u16);
    let beside_y = Constraint::Percentage(((100 - percent_y) / 2) as u16);
    exists|above: Rect, row: Rect, below: Rect, left: Rect, right: Rect|
        {
            &&& #[trigger] splits_in_three(
                Direction::Vertical,
                beside_y,
                Constraint::Percentage(percent_y),
                beside_y,
                area,
                above,
                row,
                below,
            )
            &&& #[trigger] splits_in_three(
                Direction::Horizontal,
                beside_x,
                Constraint::Percentage(percent_x),
                beside_x,
                row,
                left,
                r,
                right,
            )
        }
}

/// The middle of an area, in percent of it.
pub fn centered_rect(percent_x: u16, percent_y: u16, area: Rect) -> (r: Rect)
    requires
        percent_x <= 100,
        percent_y <= 100,
    ensures
        is_centered(percent_x, percent_y, area, r),
        lies_in(r, area),
{
    let beside_x = Constraint::Percentage((100 - percent_x) / 2);
    let beside_y = Constraint::Percentage((100 - percent_y) / 2);
    let rows = split_in_three(
        Direction::Vertical,
        beside_y,
        Constraint::Percentage(percent_y),
        beside_y,
        area,
    );
    let columns = split_in_three(
        Direction::Horizontal,
        beside_x,
        Constraint::Percentage(percent_x),
        beside_x,
        rows.1,
    );
    proof {
        lies_in_is_transitive(columns.1, rows.1, area);
    }
    columns.1
}

/// The frame of the screen: a margin where there is room for one.
pub open spec fn shell_area(area: Rect) -> Rect {
    let beside = if area.width >= 62 {
        2int
    } else {
        0
    };
    let above = if area.height >= 21 {
        1int
    } else {
        0
    };
    rect(
        min(area.x + beside, 65535),
        min(area.y + above, 65535),
        area.width - 2 * beside,
        area.height - 2 * above,
    )
}

/// The frame of the screen.
pub fn shell_rect(area: Rect) -> (r: Rect)
    ensures
        r == shell_area(area),
{
    let beside: u16 = if area.width >= 62 {
        2
    } else {
        0
    };
    let above: u16 = if area.height >= 21 {
        1
    } else {
        0
    };
    Rect::new(
        area.x.saturating_add(beside),
        area.y.saturating_add(above),
        area.width - 2 * beside,
        area.height - 2 * above,
    )
}

/// An area without its first and last column.
pub open spec fn without_edges(area: Rect) -> Rect {
    rect(
        min(area.x + 1, 65535),
        area.y as int,
        max(area.width - 2, 0),
        area.height as int,
    )
}

/// An area without its first and last column.
pub fn inner_columns(area: Rect) -> (r: Rect)
    ensures
        r == without_edges(area),
{
    Rect::new(
        area.x.saturating_add(1),
        area.y,
        if area.width > 2 {
            area.width - 2
        } else {
            0
        },
        area.height,
    )
}

/// What is inside a frame, inside the margins or between the edges of an area lies in it.
pub proof fn lemma_parts_lie_in(area: Rect, borders: Borders)
    ensures
        lies_in(inside(borders, area), area),
        lies_in(shell_area(area), area),
        lies_in(without_edges(area), area),
{
    reveal(lies_in);
}

/// A frame around an area takes one cell off each side that it has, and a margin beside or
/// above the screen is the same on both sides.
pub proof fn frames_take_one_cell(area: Rect)
    requires
        area.width >= 2,
        area.height >= 2,
        area.x + area.width <= 65535,
        area.y + area.height <= 65535,
    ensures
        inside(Borders::All, area) == (Rect {
            x: (area.x + 1) as u16,
            y: (area.y + 1) as u16,
            width: (area.width - 2) as u16,
            height: (area.height - 2) as u16,
        }),
        inside(Borders::Top, area) == (Rect {
            x: area.x,
            y: (area.y + 1) as u16,
            width: area.width,
            height: (area.height - 1) as u16,
        }),
        inside(Borders::Right, area) == (Rect {
            x: area.x,
            y: area.y,
            width: (area.width - 1) as u16,
            height: area.height,
        }),
        without_edges(area) == (Rect {
            x: (area.x + 1) as u16,
            y: area.y,
            width: (area.width - 2) as u16,
            height: area.height,
        }),
        2 * (shell_area(area).x - area.x) + shell_area(area).width == area.width,
        2 * (shell_area(area).y - area.y) + shell_area(area).height == area.height,
        shell_area(area).x - area.x == if area.width >= 62 {
            2int
        } else {
            0
        },
        shell_area(area).y - area.y == if area.height >= 21 {
            1int
        } else {
            0
        },
{
}

/// A cell belongs to an area exactly if it lies between its sides.
pub proof fn cells_belong_to_areas(area: Rect, column: u16, row: u16)
    requires
        area.x + area.width <= 65535,
        area.y + area.height <= 65535,
    ensures
        contains_cell(area, column, row) == (area.x <= column && column < area.x + area.width
            && area.y <= row && row < area.y + area.height),
{
}

} // verus!
