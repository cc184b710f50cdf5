//! Restore scripts: a captured Ghostty workspace (windows, tabs, split panes,
//! working directories, frames) becomes the AppleScript that recreates it.
//!
//! A tab's panes are known by their rectangles alone. `split_tree` finds the nested
//! splits that produce such rectangles, and the script replays them.

use vstd::prelude::*;

use crate::applescript::apple_escape;
use crate::number::{decimal_string, i32_string, usize_string};
use crate::text::join_strings;
use crate::window::WindowFrame;

verus! {

// What was captured.
/// On-screen rectangle of a pane, captured via the Accessibility API.
#[derive(Clone, Copy, Debug, PartialEq, Eq, Structural)]
pub struct CapturedPaneRect {
    pub x: i32,
    pub y: i32,
    pub width: i32,
    pub height: i32,
}

/// One captured terminal surface (a pane) within a tab.
#[derive(Clone, Debug, PartialEq, Eq)]
pub struct CapturedTabSurface {
    /// 1-based Ghostty window index. Always 1 for single-window captures.
    pub window_index: usize,
    pub tab_index: usize,
    pub pane_index: usize,
    pub terminal_id: String,
    pub working_dir: String,
    pub title: String,
    pub rect: CapturedPaneRect,
}

/// What a surface holds.
pub struct Surface {
    pub window_index: usize,
    pub tab_index: usize,
    pub pane_index: usize,
    pub terminal_id: Seq<char>,
    pub working_dir: Seq<char>,
    pub title: Seq<char>,
    pub rect: CapturedPaneRect,
}

impl View for CapturedTabSurface {
    type V = Surface;

    open spec fn view(&self) -> Surface {
        Surface {
            window_index: self.window_index,
            tab_index: self.tab_index,
            pane_index: self.pane_index,
            terminal_id: self.terminal_id@,
            working_dir: self.working_dir@,
            title: self.title@,
            rect: self.rect,
        }
    }
}

/// What a list of surfaces holds.
pub open spec fn surface_views(surfaces: Seq<CapturedTabSurface>) -> Seq<Surface> {
    surfaces.map_values(|s: CapturedTabSurface| s@)
}

/// A captured Ghostty window and its frame.
#[derive(Clone, Copy, Debug, PartialEq, Eq, Structural)]
pub struct CapturedWindow {
    /// 1-based index matching `CapturedTabSurface::window_index`.
    pub window_index: usize,
    pub frame: WindowFrame,
}

/// Everything needed to rebuild a workspace: the windows (for frames) and every
/// captured surface across them.
#[derive(Clone, Debug, PartialEq, Eq)]
pub struct CapturedWorkspace {
    pub windows: Vec<CapturedWindow>,
    pub surfaces: Vec<CapturedTabSurface>,
}

impl CapturedWorkspace {
    /// The capture of one window, whose frame is not restored.
    pub fn single_window(surfaces: Vec<CapturedTabSurface>) -> (r: Self)
        ensures
            r.surfaces == surfaces,
            r.windows@ == seq![
                CapturedWindow {
                    window_index: 1,
                    frame: WindowFrame { x: 0, y: 0, width: 0, height: 0 },
                },
            ],
    {
        let window = CapturedWindow { window_index: 1, frame: WindowFrame::new(0, 0, 0, 0) };
        let mut windows: Vec<CapturedWindow> = Vec::new();
        windows.push(window);
        Self { windows, surfaces }
    }

    /// Whether the capture holds more than one window.
    pub fn is_multi_window(&self) -> (r: bool)
        ensures
            r == (self.windows.len() > 1),
    {
        self.windows.len() > 1
    }
}

// Split trees.
/// A pane: its working directory and its rectangle.
pub struct Pane {
    pub dir: Seq<char>,
    pub x: int,
    pub y: int,
    pub width: int,
    pub height: int,
}

/// The nested splits of a tab.
pub enum SplitTree {
    Leaf(Pane),
    /// Side by side: left and right.
    Vertical(Box<SplitTree>, Box<SplitTree>),
    /// Stacked: top and bottom.
    Horizontal(Box<SplitTree>, Box<SplitTree>),
}

/// The direction in which a divider separates panes.
#[derive(Clone, Copy, Debug, PartialEq, Eq, Structural)]
pub enum Axis {
    /// Left from right.
    X,
    /// Top from bottom.
    Y,
}

/// How far panes may overlap across a divider and still count as split.
pub const SPLIT_TOLERANCE: i64 = 2;

/// Where a pane starts along an axis.
pub open spec fn pane_start(p: Pane, axis: Axis) -> int {
    match axis {
        Axis::X => p.x,
        Axis::Y => p.y,
    }
}

/// Where a pane ends along an axis.
pub open spec fn pane_end(p: Pane, axis: Axis) -> int {
    match axis {
        Axis::X => p.x + p.width,
        Axis::Y => p.y + p.height,
    }
}

/// The panes that end at `edge` or before it, in order.
pub open spec fn panes_before(panes: Seq<Pane>, axis: Axis, edge: int) -> Seq<Pane>
    decreases panes.len(),
{
    if panes.len() == 0 {
        seq![]
    } else {
        let rest = panes_before(panes.drop_last(), axis, edge);
        if pane_end(panes.last(), axis) <= edge + SPLIT_TOLERANCE {
            rest.push(panes.last())
        } else {
            rest
        }
    }
}

/// The panes that start at `edge` or after it, in order.
pub open spec fn panes_after(panes: Seq<Pane>, axis: Axis, edge: int) -> Seq<Pane>
    decreases panes.len(),
{
    if panes.len() == 0 {
        seq![]
    } else {
        let rest = panes_after(panes.drop_last(), axis, edge);
        if pane_start(panes.last(), axis) >= edge - SPLIT_TOLERANCE {
            rest.push(panes.last())
        } else {
            rest
        }
    }
}

/// A divider at `edge` has panes on both sides, and as many in all as there are.
pub open spec fn splits_at(panes: Seq<Pane>, axis: Axis, edge: int) -> bool {
    &&& panes_before(panes, axis, edge).len() > 0
    &&& panes_after(panes, axis, edge).len() > 0
    &&& panes_before(panes, axis, edge).len() + panes_after(panes, axis, edge).len() == panes.len()
}

/// The smallest end of one of the first `n` panes at which a divider splits them all.
pub open spec fn least_divider(panes: Seq<Pane>, axis: Axis, n: int) -> Option<int>
    decreases n,
{
    if n <= 0 {
        None
    } else {
        let best = least_divider(panes, axis, n - 1);
        let edge = pane_end(panes[n - 1], axis);
        if splits_at(panes, axis, edge) && (best is None || edge < best->0) {
            Some(edge)
        } else {
            best
        }
    }
}

/// The divider along an axis: the smallest pane end that splits the panes.
pub open spec fn divider(panes: Seq<Pane>, axis: Axis) -> Option<int> {
    least_divider(panes, axis, panes.len() as int)
}

/// `least_divider` splits the panes, and no smaller pane end does.
proof fn lemma_least_divider(panes: Seq<Pane>, axis: Axis, n: int)
    requires
        0 <= n <= panes.len(),
    ensures
        match least_divider(panes, axis, n) {
            Some(edge) => {
                &&& splits_at(panes, axis, edge)
                &&& exists|i: int| 0 <= i < n && pane_end(#[trigger] panes[i], axis) == edge
                &&& forall|i: int|
                    0 <= i < n && splits_at(panes, axis, pane_end(#[trigger] panes[i], axis))
                        ==> edge <= pane_end(panes[i], axis)
            },
            None => forall|i: int|
                0 <= i < n ==> !splits_at(panes, axis, pane_end(#[trigger] panes[i], axis)),
        },
    decreases n,
{
    if n > 0 {
        lemma_least_divider(panes, axis, n - 1);
        let edge = pane_end(panes[n - 1], axis);
        if splits_at(panes, axis, edge) && (least_divider(panes, axis, n - 1) is None || edge
            < least_divider(panes, axis, n - 1)->0) {
            assert(pane_end(panes[n - 1], axis) == edge);
        }
    }
}

/// A divider separates the panes cleanly at the smallest pane end where that is
/// possible; there is none only where no pane end separates them.
pub proof fn divider_is_least(panes: Seq<Pane>, axis: Axis)
    ensures
        match divider(panes, axis) {
            Some(edge) => {
                &&& splits_at(panes, axis, edge)
                &&& exists|i: int|
                    0 <= i < panes.len() && pane_end(#[trigger] panes[i], axis) == edge
                &&& forall|i: int|
                    0 <= i < panes.len() && splits_at(
                        panes,
                        axis,
                        pane_end(#[trigger] panes[i], axis),
                    ) ==> edge <= pane_end(panes[i], axis)
            },
            None => forall|i: int|
                0 <= i < panes.len() ==> !splits_at(
                    panes,
                    axis,
                    pane_end(#[trigger] panes[i], axis),
                ),
        },
{
    lemma_least_divider(panes, axis, panes.len() as int);
}

/// The splits that separate the panes: left from right where one vertical divider
/// does, else top from bottom, else the first pane alone.
pub open spec fn split_tree(panes: Seq<Pane>) -> SplitTree
    decreases panes.len(),
{
    proof {
        divider_is_least(panes, Axis::X);
        divider_is_least(panes, Axis::Y);
    }
    if panes.len() <= 1 {
        SplitTree::Leaf(panes[0])
    } else {
        match divider(panes, Axis::X) {
            Some(edge) => SplitTree::Vertical(
                Box::new(split_tree(panes_before(panes, Axis::X, edge))),
                Box::new(split_tree(panes_after(panes, Axis::X, edge))),
            ),
            None => match divider(panes, Axis::Y) {
                Some(edge) => SplitTree::Horizontal(
                    Box::new(split_tree(panes_before(panes, Axis::Y, edge))),
                    Box::new(split_tree(panes_after(panes, Axis::Y, edge))),
                ),
                None => SplitTree::Leaf(panes[0]),
            },
        }
    }
}

/// The pane whose working directory a (sub)tree starts from: its leftmost, topmost
/// leaf.
pub open spec fn anchor(tree: SplitTree) -> Pane
    decreases tree,
{
    match tree {
        SplitTree::Leaf(pane) => pane,
        SplitTree::Vertical(left, _) => anchor(*left),
        SplitTree::Horizontal(top, _) => anchor(*top),
    }
}

/// The leaves of a tree, left to right and top to bottom.
pub open spec fn leaves(tree: SplitTree) -> Seq<Pane>
    decreases tree,
{
    match tree {
        SplitTree::Leaf(pane) => seq![pane],
        SplitTree::Vertical(left, right) => leaves(*left) + leaves(*right),
        SplitTree::Horizontal(top, bottom) => leaves(*top) + leaves(*bottom),
    }
}

/// How many splits a tree holds.
pub open spec fn split_count(tree: SplitTree) -> nat
    decreases tree,
{
    match tree {
        SplitTree::Leaf(_) => 0,
        SplitTree::Vertical(left, right) => 1 + split_count(*left) + split_count(*right),
        SplitTree::Horizontal(top, bottom) => 1 + split_count(*top) + split_count(*bottom),
    }
}

/// Selecting panes selects among them.
pub proof fn lemma_parts_are_panes(panes: Seq<Pane>, axis: Axis, edge: int)
    ensures
        forall|p: Pane| #[trigger]
            panes_before(panes, axis, edge).contains(p) ==> panes.contains(p),
        forall|p: Pane| #[trigger]
            panes_after(panes, axis, edge).contains(p) ==> panes.contains(p),
    decreases panes.len(),
{
    if panes.len() > 0 {
        let rest = panes.drop_last();
        lemma_parts_are_panes(rest, axis, edge);
        assert forall|p: Pane| rest.contains(p) || p == panes.last() implies panes.contains(p) by {
            if rest.contains(p) {
                let i = choose|i: int| 0 <= i < rest.len() && rest[i] == p;
                assert(panes[i] == p);
            } else {
                assert(panes[panes.len() - 1] == p);
            }
        }
        assert forall|p: Pane| panes_before(panes, axis, edge).contains(p) implies panes.contains(
            p,
        ) by {
            let all = panes_before(panes, axis, edge);
            let i = choose|i: int| 0 <= i < all.len() && all[i] == p;
            if i < panes_before(rest, axis, edge).len() {
                assert(panes_before(rest, axis, edge)[i] == p);
                assert(panes_before(rest, axis, edge).contains(p));
            }
        }
        assert forall|p: Pane| panes_after(panes, axis, edge).contains(p) implies panes.contains(
            p,
        ) by {
            let all = panes_after(panes, axis, edge);
            let i = choose|i: int| 0 <= i < all.len() && all[i] == p;
            if i < panes_after(rest, axis, edge).len() {
                assert(panes_after(rest, axis, edge)[i] == p);
                assert(panes_after(rest, axis, edge).contains(p));
            }
        }
    }
}

/// All these panes end at `edge` or before it.
pub open spec fn all_before(panes: Seq<Pane>, axis: Axis, edge: int) -> bool {
    forall|p: Pane| #[trigger]
        panes.contains(p) ==> pane_end(p, axis) <= edge + SPLIT_TOLERANCE
}

/// All these panes start at `edge` or after it.
pub open spec fn all_after(panes: Seq<Pane>, axis: Axis, edge: int) -> bool {
    forall|p: Pane| #[trigger]
        panes.contains(p) ==> pane_start(p, axis) >= edge - SPLIT_TOLERANCE
}

/// A line separates these panes from those.
pub open spec fn separates(first: Seq<Pane>, second: Seq<Pane>, axis: Axis, edge: int) -> bool {
    all_before(first, axis, edge) && all_after(second, axis, edge)
}

/// Each split of a tree separates its two sides by a line.
pub open spec fn splits_separate(tree: SplitTree) -> bool
    decreases tree,
{
    match tree {
        SplitTree::Leaf(_) => true,
        SplitTree::Vertical(left, right) => {
            &&& exists|edge: int| separates(leaves(*left), leaves(*right), Axis::X, edge)
            &&& splits_separate(*left)
            &&& splits_separate(*right)
        },
        SplitTree::Horizontal(top, bottom) => {
            &&& exists|edge: int| separates(leaves(*top), leaves(*bottom), Axis::Y, edge)
            &&& splits_separate(*top)
            &&& splits_separate(*bottom)
        },
    }
}

/// The panes that are selected lie on their side of the edge.
proof fn lemma_parts_apart(panes: Seq<Pane>, axis: Axis, edge: int)
    ensures
        all_before(panes_before(panes, axis, edge), axis, edge),
        all_after(panes_after(panes, axis, edge), axis, edge),
    decreases panes.len(),
{
    if panes.len() > 0 {
        let rest = panes.drop_last();
        lemma_parts_apart(rest, axis, edge);
        let a = panes_before(panes, axis, edge);
        assert forall|p: Pane| #[trigger] a.contains(p) implies pane_end(p, axis) <= edge
            + SPLIT_TOLERANCE by {
            let before = panes_before(rest, axis, edge);
            let i = choose|i: int| 0 <= i < a.len() && a[i] == p;
            if i < before.len() {
                assert(before[i] == p);
                assert(before.contains(p));
            }
        }
        let b = panes_after(panes, axis, edge);
        assert forall|p: Pane| #[trigger] b.contains(p) implies pane_start(p, axis) >= edge
            - SPLIT_TOLERANCE by {
            let after = panes_after(rest, axis, edge);
            let i = choose|i: int| 0 <= i < b.len() && b[i] == p;
            if i < after.len() {
                assert(after[i] == p);
                assert(after.contains(p));
            }
        }
    }
}

/// Reconstruction invents no pane: each leaf is one of the panes, and there are no
/// more leaves than panes. One split joins each two neighbouring leaves, and each split
/// separates its two sides.
pub proof fn split_tree_holds_panes(panes: Seq<Pane>)
    requires
        panes.len() > 0,
    ensures
        splits_separate(split_tree(panes)),
        leaves(split_tree(panes)).len() <= panes.len(),
        leaves(split_tree(panes)).len() == split_count(split_tree(panes)) + 1,
        leaves(split_tree(panes))[0] == anchor(split_tree(panes)),
        forall|p: Pane| #[trigger]
            leaves(split_tree(panes)).contains(p) ==> panes.contains(p),
    decreases panes.len(),
{
    divider_is_least(panes, Axis::X);
    divider_is_least(panes, Axis::Y);
    let tree = split_tree(panes);
    let (axis, edge) = if panes.len() <= 1 {
        (Axis::X, None)
    } else if divider(panes, Axis::X) is Some {
        (Axis::X, divider(panes, Axis::X))
    } else {
        (Axis::Y, divider(panes, Axis::Y))
    };
    if edge is None {
        assert(leaves(tree) == seq![panes[0]]);
        assert forall|p: Pane| leaves(tree).contains(p) implies panes.contains(p) by {
            assert(panes[0] == p);
        }
    } else {
        let first = panes_before(panes, axis, edge->0);
        let second = panes_after(panes, axis, edge->0);
        split_tree_holds_panes(first);
        split_tree_holds_panes(second);
        lemma_parts_are_panes(panes, axis, edge->0);
        lemma_parts_apart(panes, axis, edge->0);
        let a = leaves(split_tree(first));
        let b = leaves(split_tree(second));
        assert(separates(a, b, axis, edge->0));
        assert(leaves(tree) == a + b);
        assert forall|p: Pane| leaves(tree).contains(p) implies panes.contains(p) by {
            let i = choose|i: int| 0 <= i < (a + b).len() && (a + b)[i] == p;
            if i < a.len() {
                assert(a.contains(p));
            } else {
                assert(b[i - a.len()] == p);
                assert(b.contains(p));
            }
        }
    }
}

// Panes that lines cut apart.
/// A rectangle that is cut by lines from side to side, each part again.
pub enum Cuts {
    /// A part that is not cut: a pane.
    Cell(Pane),
    /// Cut into a left and a right part at this position.
    Beside(Box<Cuts>, int, Box<Cuts>),
    /// Cut into an upper and a lower part at this position.
    Stacked(Box<Cuts>, int, Box<Cuts>),
}

/// The panes of a rectangle that is cut.
pub open spec fn cells(cuts: Cuts) -> Seq<Pane>
    decreases cuts,
{
    match cuts {
        Cuts::Cell(pane) => seq![pane],
        Cuts::Beside(left, _, right) => cells(*left) + cells(*right),
        Cuts::Stacked(top, _, bottom) => cells(*top) + cells(*bottom),
    }
}

/// The cells are what the lines leave of the rectangle between these positions.
pub open spec fn fills(cuts: Cuts, left: int, top: int, right: int, bottom: int) -> bool
    decreases cuts,
{
    match cuts {
        Cuts::Cell(p) => p.x == left && p.y == top && p.x + p.width == right && p.y + p.height
            == bottom,
        Cuts::Beside(a, at, b) => fills(*a, left, top, at, bottom) && fills(
            *b,
            at,
            top,
            right,
            bottom,
        ),
        Cuts::Stacked(a, at, b) => fills(*a, left, top, right, at) && fills(
            *b,
            left,
            at,
            right,
            bottom,
        ),
    }
}

/// All panes are wider and higher than two panes may overlap.
pub open spec fn roomy(panes: Seq<Pane>) -> bool {
    forall|p: Pane| #[trigger]
        panes.contains(p) ==> p.width > 2 * SPLIT_TOLERANCE && p.height > 2 * SPLIT_TOLERANCE
}

/// A member of a joined list is a member of one of the two.
proof fn lemma_joined_contains(a: Seq<Pane>, b: Seq<Pane>)
    ensures
        forall|p: Pane| #[trigger] (a + b).contains(p) <==> a.contains(p) || b.contains(p),
{
    assert forall|p: Pane| #[trigger] (a + b).contains(p) <==> a.contains(p) || b.contains(p) by {
        if a.contains(p) {
            let i = choose|i: int| 0 <= i < a.len() && a[i] == p;
            assert((a + b)[i] == p);
        }
        if b.contains(p) {
            let i = choose|i: int| 0 <= i < b.len() && b[i] == p;
            assert((a + b)[a.len() + i] == p);
        }
        if (a + b).contains(p) {
            let i = choose|i: int| 0 <= i < (a + b).len() && (a + b)[i] == p;
            if i < a.len() {
                assert(a[i] == p);
            } else {
                assert(b[i - a.len()] == p);
            }
        }
    }
}

/// Cells with room lie in their rectangle, and each only once.
proof fn lemma_cells(cuts: Cuts, left: int, top: int, right: int, bottom: int)
    requires
        fills(cuts, left, top, right, bottom),
        roomy(cells(cuts)),
    ensures
        left < right && top < bottom,
        forall|p: Pane| #[trigger]
            cells(cuts).contains(p) ==> left <= p.x && p.x + p.width <= right && top <= p.y && p.y
                + p.height <= bottom,
        cells(cuts).no_duplicates(),
    decreases cuts,
{
    match cuts {
        Cuts::Cell(p) => {
            assert(cells(cuts)[0] == p);
            assert(cells(cuts).contains(p));
        },
        Cuts::Beside(a, at, b) => {
            lemma_joined_contains(cells(*a), cells(*b));
            assert forall|p: Pane| #[trigger] cells(*a).contains(p) implies cells(cuts).contains(
                p,
            ) by {}
            assert forall|p: Pane| #[trigger] cells(*b).contains(p) implies cells(cuts).contains(
                p,
            ) by {}
            lemma_cells(*a, left, top, at, bottom);
            lemma_cells(*b, at, top, right, bottom);
            lemma_apart_no_duplicates(cells(*a), cells(*b), cells(cuts));
        },
        Cuts::Stacked(a, at, b) => {
            lemma_joined_contains(cells(*a), cells(*b));
            assert forall|p: Pane| #[trigger] cells(*a).contains(p) implies cells(cuts).contains(
                p,
            ) by {}
            assert forall|p: Pane| #[trigger] cells(*b).contains(p) implies cells(cuts).contains(
                p,
            ) by {}
            lemma_cells(*a, left, top, right, at);
            lemma_cells(*b, left, at, right, bottom);
            lemma_apart_no_duplicates(cells(*a), cells(*b), cells(cuts));
        },
    }
}

/// Two lists without duplicates and without a common member are one.
proof fn lemma_apart_no_duplicates(a: Seq<Pane>, b: Seq<Pane>, both: Seq<Pane>)
    requires
        a.no_duplicates(),
        b.no_duplicates(),
        both == a + b,
        forall|p: Pane| !(#[trigger] a.contains(p) && b.contains(p)),
    ensures
        both.no_duplicates(),
{
    assert forall|i: int, j: int| 0 <= i < both.len() && 0 <= j < both.len() && i
        != j implies both[i] != both[j] by {
        if i < a.len() && j >= a.len() {
            assert(a.contains(a[i]));
            assert(b.contains(b[j - a.len()]));
        } else if j < a.len() && i >= a.len() {
            assert(a.contains(a[j]));
            assert(b.contains(b[i - a.len()]));
        }
    }
}

/// Where each pane lies on one side of an edge, the two sides hold all panes once.
proof fn lemma_parts_hold_all(panes: Seq<Pane>, axis: Axis, edge: int)
    requires
        roomy(panes),
        forall|p: Pane| #[trigger]
            panes.contains(p) ==> pane_end(p, axis) <= edge + SPLIT_TOLERANCE || pane_start(p, axis)
                >= edge - SPLIT_TOLERANCE,
    ensures
        panes_before(panes, axis, edge).len() + panes_after(panes, axis, edge).len() == panes.len(),
        panes_before(panes, axis, edge).to_multiset().add(
            panes_after(panes, axis, edge).to_multiset(),
        ) == panes.to_multiset(),
    decreases panes.len(),
{
    broadcast use vstd::seq_lib::group_to_multiset_ensures;

    let a = panes_before(panes, axis, edge);
    let b = panes_after(panes, axis, edge);
    if panes.len() == 0 {
        assert(a.to_multiset().add(b.to_multiset()) =~= panes.to_multiset());
    } else {
        let rest = panes.drop_last();
        let last = panes.last();
        assert forall|p: Pane| #[trigger] rest.contains(p) implies panes.contains(p) by {
            let i = choose|i: int| 0 <= i < rest.len() && rest[i] == p;
            assert(panes[i] == p);
        }
        assert(panes[panes.len() - 1] == last);
        assert(panes.contains(last));
        lemma_parts_hold_all(rest, axis, edge);
        let x = panes_before(rest, axis, edge);
        let y = panes_after(rest, axis, edge);
        assert(panes == rest.push(last));
        assert(panes.to_multiset() =~= rest.to_multiset().insert(last));
        if pane_end(last, axis) <= edge + SPLIT_TOLERANCE {
            assert(!(pane_start(last, axis) >= edge - SPLIT_TOLERANCE));
            assert(a.to_multiset() =~= x.to_multiset().insert(last));
            assert(x.to_multiset().insert(last).add(y.to_multiset()) =~= x.to_multiset().add(
                y.to_multiset(),
            ).insert(last));
        } else {
            assert(b.to_multiset() =~= y.to_multiset().insert(last));
            assert(x.to_multiset().add(y.to_multiset().insert(last)) =~= x.to_multiset().add(
                y.to_multiset(),
            ).insert(last));
        }
    }
}

/// Where the counts of the two sides add up, each pane lies on one of them.
proof fn lemma_counts_cover(panes: Seq<Pane>, axis: Axis, edge: int)
    requires
        roomy(panes),
    ensures
        panes_before(panes, axis, edge).len() + panes_after(panes, axis, edge).len() <= panes.len(),
        panes_before(panes, axis, edge).len() + panes_after(panes, axis, edge).len() == panes.len()
            ==> forall|p: Pane| #[trigger]
            panes.contains(p) ==> pane_end(p, axis) <= edge + SPLIT_TOLERANCE || pane_start(p, axis)
                >= edge - SPLIT_TOLERANCE,
    decreases panes.len(),
{
    if panes.len() > 0 {
        let rest = panes.drop_last();
        let last = panes.last();
        assert forall|p: Pane| #[trigger] rest.contains(p) implies panes.contains(p) by {
            let i = choose|i: int| 0 <= i < rest.len() && rest[i] == p;
            assert(panes[i] == p);
        }
        assert(panes[panes.len() - 1] == last);
        assert(panes.contains(last));
        lemma_counts_cover(rest, axis, edge);
        assert forall|p: Pane| #[trigger] panes.contains(p) implies rest.contains(p) || p
            == last by {
            let i = choose|i: int| 0 <= i < panes.len() && panes[i] == p;
            if i < rest.len() {
                assert(rest[i] == p);
            }
        }
    }
}

/// The last of these panes, along an axis, that are cells of a part.
proof fn lemma_last_end(panes: Seq<Pane>, part: Seq<Pane>, axis: Axis) -> (at: int)
    requires
        exists|p: Pane| #[trigger] panes.contains(p) && part.contains(p),
    ensures
        0 <= at < panes.len(),
        part.contains(panes[at]),
        forall|p: Pane| #[trigger]
            panes.contains(p) && part.contains(p) ==> pane_end(p, axis) <= pane_end(
                panes[at],
                axis,
            ),
    decreases panes.len(),
{
    let rest = panes.drop_last();
    let last = panes.last();
    let n = panes.len() - 1;
    assert forall|p: Pane| #[trigger] panes.contains(p) implies rest.contains(p) || p == last by {
        let i = choose|i: int| 0 <= i < panes.len() && panes[i] == p;
        if i < rest.len() {
            assert(rest[i] == p);
        }
    }
    if exists|p: Pane| #[trigger] rest.contains(p) && part.contains(p) {
        let at = lemma_last_end(rest, part, axis);
        if part.contains(last) && pane_end(last, axis) > pane_end(rest[at], axis) {
            n
        } else {
            at
        }
    } else {
        n
    }
}

/// A line of the cuts that has panes on both sides is found.
proof fn lemma_line_splits(panes: Seq<Pane>, a: Seq<Pane>, b: Seq<Pane>, axis: Axis, line: int)
    requires
        roomy(panes),
        forall|p: Pane| #[trigger] panes.contains(p) ==> a.contains(p) || b.contains(p),
        forall|p: Pane| #[trigger] a.contains(p) ==> pane_end(p, axis) <= line,
        forall|p: Pane| #[trigger] b.contains(p) ==> pane_start(p, axis) >= line,
        exists|p: Pane| #[trigger] panes.contains(p) && a.contains(p),
        exists|p: Pane| #[trigger] panes.contains(p) && b.contains(p),
    ensures
        divider(panes, axis) is Some,
{
    let at = lemma_last_end(panes, a, axis);
    let edge = pane_end(panes[at], axis);
    assert(panes.contains(panes[at]));
    lemma_parts_hold_all(panes, axis, edge);
    lemma_selected(panes, axis, edge, panes[at]);
    let q = choose|p: Pane| #[trigger] panes.contains(p) && b.contains(p);
    lemma_selected(panes, axis, edge, q);
    divider_is_least(panes, axis);
    assert(splits_at(panes, axis, pane_end(panes[at], axis)));
}

/// A pane on one side of an edge is selected for it.
proof fn lemma_selected(panes: Seq<Pane>, axis: Axis, edge: int, p: Pane)
    requires
        panes.contains(p),
    ensures
        pane_end(p, axis) <= edge + SPLIT_TOLERANCE ==> panes_before(panes, axis, edge).len() > 0,
        pane_start(p, axis) >= edge - SPLIT_TOLERANCE ==> panes_after(panes, axis, edge).len() > 0,
    decreases panes.len(),
{
    let i = choose|i: int| 0 <= i < panes.len() && panes[i] == p;
    if i < panes.len() - 1 {
        let rest = panes.drop_last();
        assert(rest[i] == p);
        lemma_selected(rest, axis, edge, p);
    }
}

/// Several different cells can be split.
proof fn lemma_cells_split(
    panes: Seq<Pane>,
    cuts: Cuts,
    left: int,
    top: int,
    right: int,
    bottom: int,
)
    requires
        panes.len() > 1,
        panes.no_duplicates(),
        forall|p: Pane| #[trigger] panes.contains(p) ==> cells(cuts).contains(p),
        roomy(cells(cuts)),
        fills(cuts, left, top, right, bottom),
    ensures
        divider(panes, Axis::X) is Some || divider(panes, Axis::Y) is Some,
    decreases cuts,
{
    assert(panes.contains(panes[0]) && panes.contains(panes[1]));
    match cuts {
        Cuts::Cell(p) => {
            assert(panes[0] == p && panes[1] == p);
        },
        Cuts::Beside(a, at, b) => {
            lemma_joined_contains(cells(*a), cells(*b));
            assert(roomy(cells(*a)) && roomy(cells(*b))) by {
                assert forall|p: Pane| #[trigger] cells(*a).contains(p) implies cells(
                    cuts,
                ).contains(p) by {}
                assert forall|p: Pane| #[trigger] cells(*b).contains(p) implies cells(
                    cuts,
                ).contains(p) by {}
            }
            lemma_cells(*a, left, top, at, bottom);
            lemma_cells(*b, at, top, right, bottom);
            if !(exists|p: Pane| #[trigger] panes.contains(p) && cells(*a).contains(p)) {
                lemma_cells_split(panes, *b, at, top, right, bottom);
            } else if !(exists|p: Pane| #[trigger] panes.contains(p) && cells(*b).contains(p)) {
                lemma_cells_split(panes, *a, left, top, at, bottom);
            } else {
                lemma_line_splits(panes, cells(*a), cells(*b), Axis::X, at);
            }
        },
        Cuts::Stacked(a, at, b) => {
            lemma_joined_contains(cells(*a), cells(*b));
            assert(roomy(cells(*a)) && roomy(cells(*b))) by {
                assert forall|p: Pane| #[trigger] cells(*a).contains(p) implies cells(
                    cuts,
                ).contains(p) by {}
                assert forall|p: Pane| #[trigger] cells(*b).contains(p) implies cells(
                    cuts,
                ).contains(p) by {}
            }
            lemma_cells(*a, left, top, right, at);
            lemma_cells(*b, left, at, right, bottom);
            if !(exists|p: Pane| #[trigger] panes.contains(p) && cells(*a).contains(p)) {
                lemma_cells_split(panes, *b, left, at, right, bottom);
            } else if !(exists|p: Pane| #[trigger] panes.contains(p) && cells(*b).contains(p)) {
                lemma_cells_split(panes, *a, left, top, right, at);
            } else {
                lemma_line_splits(panes, cells(*a), cells(*b), Axis::Y, at);
            }
        },
    }
}

/// A selection repeats nothing that the panes do not repeat.
proof fn lemma_parts_no_duplicates(panes: Seq<Pane>, axis: Axis, edge: int)
    requires
        panes.no_duplicates(),
    ensures
        panes_before(panes, axis, edge).no_duplicates(),
        panes_after(panes, axis, edge).no_duplicates(),
    decreases panes.len(),
{
    if panes.len() > 0 {
        let rest = panes.drop_last();
        lemma_parts_no_duplicates(rest, axis, edge);
        lemma_parts_are_panes(rest, axis, edge);
        assert(!rest.contains(panes.last())) by {
            if rest.contains(panes.last()) {
                let i = choose|i: int| 0 <= i < rest.len() && rest[i] == panes.last();
                assert(panes[i] == panes[panes.len() - 1]);
            }
        }
        let a = panes_before(rest, axis, edge);
        let b = panes_after(rest, axis, edge);
        assert(!a.contains(panes.last()) && !b.contains(panes.last()));
        lemma_push_no_duplicates(a, panes.last());
        lemma_push_no_duplicates(b, panes.last());
    }
}

/// A new member at the end repeats nothing.
proof fn lemma_push_no_duplicates(s: Seq<Pane>, p: Pane)
    requires
        s.no_duplicates(),
        !s.contains(p),
    ensures
        s.push(p).no_duplicates(),
{
    let t = s.push(p);
    assert forall|i: int, j: int| 0 <= i < t.len() && 0 <= j < t.len() && i != j implies t[i]
        != t[j] by {
        if i == s.len() {
            assert(s.contains(s[j]));
        } else if j == s.len() {
            assert(s.contains(s[i]));
        }
    }
}

/// Different cells are all kept.
proof fn lemma_cells_kept(
    panes: Seq<Pane>,
    cuts: Cuts,
    left: int,
    top: int,
    right: int,
    bottom: int,
)
    requires
        panes.len() > 0,
        panes.no_duplicates(),
        forall|p: Pane| #[trigger] panes.contains(p) ==> cells(cuts).contains(p),
        roomy(cells(cuts)),
        fills(cuts, left, top, right, bottom),
    ensures
        leaves(split_tree(panes)).to_multiset() == panes.to_multiset(),
    decreases panes.len(),
{
    let tree = split_tree(panes);
    if panes.len() == 1 {
        assert(leaves(tree) =~= panes);
    } else {
        lemma_cells_split(panes, cuts, left, top, right, bottom);
        divider_is_least(panes, Axis::X);
        divider_is_least(panes, Axis::Y);
        let axis = if divider(panes, Axis::X) is Some {
            Axis::X
        } else {
            Axis::Y
        };
        let edge = divider(panes, axis)->0;
        let first = panes_before(panes, axis, edge);
        let second = panes_after(panes, axis, edge);
        assert(roomy(panes));
        lemma_counts_cover(panes, axis, edge);
        lemma_parts_hold_all(panes, axis, edge);
        lemma_parts_are_panes(panes, axis, edge);
        lemma_parts_no_duplicates(panes, axis, edge);
        lemma_cells_kept(first, cuts, left, top, right, bottom);
        lemma_cells_kept(second, cuts, left, top, right, bottom);
        let a = leaves(split_tree(first));
        let b = leaves(split_tree(second));
        assert(leaves(tree) == a + b);
        vstd::seq_lib::lemma_multiset_commutative(a, b);
    }
}

/// Panes that lines from side to side cut out of a rectangle, each with more room than
/// two may overlap, are all restored, each once, in whatever order they were captured.
/// Each split separates its two sides.
pub proof fn cut_panes_are_restored(
    panes: Seq<Pane>,
    cuts: Cuts,
    left: int,
    top: int,
    right: int,
    bottom: int,
)
    requires
        fills(cuts, left, top, right, bottom),
        panes.to_multiset() == cells(cuts).to_multiset(),
        roomy(panes),
    ensures
        leaves(split_tree(panes)).to_multiset() == panes.to_multiset(),
        leaves(split_tree(panes)).len() == panes.len(),
        splits_separate(split_tree(panes)),
{
    broadcast use vstd::seq_lib::group_to_multiset_ensures;

    let all = cells(cuts);
    assert forall|p: Pane| #[trigger] panes.contains(p) implies all.contains(p) by {
        assert(all.to_multiset().count(p) > 0);
    }
    assert forall|p: Pane| #[trigger] all.contains(p) implies panes.contains(p) by {
        assert(panes.to_multiset().count(p) > 0);
    }
    lemma_cells(cuts, left, top, right, bottom);
    all.lemma_multiset_has_no_duplicates();
    panes.lemma_multiset_has_no_duplicates_conv();
    lemma_cells_len(cuts);
    assert(panes.len() == panes.to_multiset().len());
    assert(all.len() == all.to_multiset().len());
    lemma_cells_kept(panes, cuts, left, top, right, bottom);
    split_tree_holds_panes(panes);
    let kept = leaves(split_tree(panes));
    assert(kept.len() == kept.to_multiset().len());
}

/// A rectangle holds a pane.
proof fn lemma_cells_len(cuts: Cuts)
    ensures
        cells(cuts).len() > 0,
    decreases cuts,
{
    match cuts {
        Cuts::Cell(_) => {},
        Cuts::Beside(a, _, _) => {
            lemma_cells_len(*a);
        },
        Cuts::Stacked(a, _, _) => {
            lemma_cells_len(*a);
        },
    }
}

// The arena that holds a split tree.
/// A pane's working directory plus its position, borrowed from the capture.
#[derive(Clone, Copy, Debug)]
pub struct PaneRef<'a> {
    pub working_dir: &'a str,
    pub rect: &'a CapturedPaneRect,
}

impl<'a> View for PaneRef<'a> {
    type V = Pane;

    open spec fn view(&self) -> Pane {
        Pane {
            dir: self.working_dir@,
            x: self.rect.x as int,
            y: self.rect.y as int,
            width: self.rect.width as int,
            height: self.rect.height as int,
        }
    }
}

/// The panes of a list of references.
pub open spec fn pane_views(panes: Seq<PaneRef<'_>>) -> Seq<Pane> {
    panes.map_values(|p: PaneRef<'_>| p@)
}

impl<'a> PaneRef<'a> {
    fn start(&self, axis: Axis) -> (r: i64)
        ensures
            r == pane_start(self@, axis),
    {
        match axis {
            Axis::X => self.rect.x as i64,
            Axis::Y => self.rect.y as i64,
        }
    }

    fn end(&self, axis: Axis) -> (r: i64)
        ensures
            r == pane_end(self@, axis),
            -4294967296 <= r <= 4294967296,
    {
        match axis {
            Axis::X => self.rect.x as i64 + self.rect.width as i64,
            Axis::Y => self.rect.y as i64 + self.rect.height as i64,
        }
    }
}

/// Split-tree node over a tab's panes. Children are indices into the `Tree` arena.
#[derive(Clone, Copy, Debug)]
pub enum Node<'a> {
    Leaf(PaneRef<'a>),
    Vertical { left: usize, right: usize },
    Horizontal { top: usize, bottom: usize },
}

/// An arena of split-tree nodes.
pub struct Tree<'a> {
    pub nodes: Vec<Node<'a>>,
}

/// Each node's children stand in front of it.
pub open spec fn nodes_ordered(nodes: Seq<Node<'_>>) -> bool {
    forall|i: int|
        0 <= i < nodes.len() ==> match #[trigger] nodes[i] {
            Node::Leaf(_) => true,
            Node::Vertical { left, right } => left < i && right < i,
            Node::Horizontal { top, bottom } => top < i && bottom < i,
        }
}

/// The split tree that the node at `index` stands for.
pub open spec fn subtree(nodes: Seq<Node<'_>>, index: int) -> SplitTree
    decreases index,
{
    match nodes[index] {
        Node::Leaf(pane) => SplitTree::Leaf(pane@),
        Node::Vertical { left, right } => if left < index && right < index {
            SplitTree::Vertical(
                Box::new(subtree(nodes, left as int)),
                Box::new(subtree(nodes, right as int)),
            )
        } else {
            arbitrary()
        },
        Node::Horizontal { top, bottom } => if top < index && bottom < index {
            SplitTree::Horizontal(
                Box::new(subtree(nodes, top as int)),
                Box::new(subtree(nodes, bottom as int)),
            )
        } else {
            arbitrary()
        },
    }
}

/// More nodes behind a tree leave it as it is.
proof fn lemma_subtree_kept(before: Seq<Node<'_>>, after: Seq<Node<'_>>, index: int)
    requires
        nodes_ordered(before),
        0 <= index < before.len() <= after.len(),
        before == after.take(before.len() as int),
    ensures
        subtree(before, index) == subtree(after, index),
    decreases index,
{
    assert(before[index] == after[index]);
    match before[index] {
        Node::Leaf(_) => {},
        Node::Vertical { left, right } => {
            lemma_subtree_kept(before, after, left as int);
            lemma_subtree_kept(before, after, right as int);
        },
        Node::Horizontal { top, bottom } => {
            lemma_subtree_kept(before, after, top as int);
            lemma_subtree_kept(before, after, bottom as int);
        },
    }
}

impl<'a> Tree<'a> {
    /// The arena is in order.
    pub open spec fn wf(&self) -> bool {
        nodes_ordered(self.nodes@)
    }

    /// An empty arena.
    pub fn new() -> (r: Self)
        ensures
            r.wf(),
            r.nodes.len() == 0,
    {
        Self { nodes: Vec::new() }
    }

    fn push_node(&mut self, node: Node<'a>) -> (r: usize)
        ensures
            final(self).nodes@ == old(self).nodes@.push(node),
            r == old(self).nodes.len(),
    {
        self.nodes.push(node);
        self.nodes.len() - 1
    }

    /// The node at `index`.
    pub fn node(&self, index: usize) -> (r: &Node<'a>)
        requires
            index < self.nodes.len(),
        ensures
            *r == self.nodes@[index as int],
    {
        &self.nodes[index]
    }

    /// The pane whose working directory seeds a (sub)tree's surface configuration.
    pub fn anchor(&self, index: usize) -> (r: PaneRef<'a>)
        requires
            self.wf(),
            index < self.nodes.len(),
        ensures
            r@ == anchor(subtree(self.nodes@, index as int)),
        decreases index,
    {
        match self.node(index) {
            Node::Leaf(pane) => *pane,
            Node::Vertical { left, .. } => self.anchor(*left),
            Node::Horizontal { top, .. } => self.anchor(*top),
        }
    }
}

/// The panes that end at `edge` or before it.
fn select_before<'a>(panes: &[PaneRef<'a>], axis: Axis, edge: i64) -> (r: Vec<PaneRef<'a>>)
    requires
        -4294967296 <= edge <= 4294967296,
    ensures
        pane_views(r@) == panes_before(pane_views(panes@), axis, edge as int),
{
    let mut out: Vec<PaneRef<'a>> = Vec::new();
    let ghost all = pane_views(panes@);
    for i in 0..panes.len()
        invariant
            -4294967296 <= edge <= 4294967296,
            all == pane_views(panes@),
            pane_views(out@) == panes_before(all.take(i as int), axis, edge as int),
    {
        let pane = panes[i];
        let ghost before = out@;
        assert(all.take(i as int + 1).drop_last() == all.take(i as int));
        assert(all.take(i as int + 1).last() == pane@);
        if pane.end(axis) <= edge + SPLIT_TOLERANCE {
            out.push(pane);
            assert(pane_views(out@) == pane_views(before).push(pane@));
        }
    }
    assert(all.take(all.len() as int) == all);
    out
}

/// The panes that start at `edge` or after it.
fn select_after<'a>(panes: &[PaneRef<'a>], axis: Axis, edge: i64) -> (r: Vec<PaneRef<'a>>)
    requires
        -4294967296 <= edge <= 4294967296,
    ensures
        pane_views(r@) == panes_after(pane_views(panes@), axis, edge as int),
{
    let mut out: Vec<PaneRef<'a>> = Vec::new();
    let ghost all = pane_views(panes@);
    for i in 0..panes.len()
        invariant
            -4294967296 <= edge <= 4294967296,
            all == pane_views(panes@),
            pane_views(out@) == panes_after(all.take(i as int), axis, edge as int),
    {
        let pane = panes[i];
        let ghost before = out@;
        assert(all.take(i as int + 1).drop_last() == all.take(i as int));
        assert(all.take(i as int + 1).last() == pane@);
        if pane.start(axis) >= edge - SPLIT_TOLERANCE {
            out.push(pane);
            assert(pane_views(out@) == pane_views(before).push(pane@));
        }
    }
    assert(all.take(all.len() as int) == all);
    out
}

/// The panes on the two sides of the divider along an axis, if there is one.
fn split_panes<'a>(panes: &[PaneRef<'a>], axis: Axis) -> (r: Option<
    (Vec<PaneRef<'a>>, Vec<PaneRef<'a>>),
>)
    ensures
        match r {
            Some((first, second)) => {
                let all = pane_views(panes@);
                &&& divider(all, axis) is Some
                &&& pane_views(first@) == panes_before(all, axis, divider(all, axis)->0)
                &&& pane_views(second@) == panes_after(all, axis, divider(all, axis)->0)
            },
            None => divider(pane_views(panes@), axis) is None,
        },
{
    let mut best: Option<i64> = None;
    let ghost all = pane_views(panes@);
    for i in 0..panes.len()
        invariant
            all == pane_views(panes@),
            match best {
                Some(edge) => least_divider(all, axis, i as int) == Some(edge as int)
                    && -4294967296 <= edge <= 4294967296,
                None => least_divider(all, axis, i as int) is None,
            },
    {
        let edge = panes[i].end(axis);
        assert(all[i as int] == panes@[i as int]@);
        let closer = match best {
            Some(found) => edge < found,
            None => true,
        };
        if closer {
            let first = select_before(panes, axis, edge);
            let second = select_after(panes, axis, edge);
            assert(pane_views(first@).len() == first.len());
            assert(pane_views(second@).len() == second.len());
            if first.len() > 0 && second.len() > 0 && first.len() as u128 + second.len() as u128
                == panes.len() as u128 {
                best = Some(edge);
            }
        }
    }
    match best {
        Some(edge) => Some((select_before(panes, axis, edge), select_after(panes, axis, edge))),
        None => None,
    }
}

/// Recursively partitions `panes` into a split tree by finding a vertical or
/// horizontal edge that cleanly separates them. Falls back to a single leaf (the
/// first pane) when no clean divider exists, so generation always terminates.
pub fn reconstruct<'a>(tree: &mut Tree<'a>, panes: &[PaneRef<'a>]) -> (root: usize)
    requires
        old(tree).wf(),
        panes.len() > 0,
    ensures
        final(tree).wf(),
        root == final(tree).nodes.len() - 1,
        final(tree).nodes.len() == old(tree).nodes.len() + 2 * split_count(
            split_tree(pane_views(panes@)),
        ) + 1,
        final(tree).nodes@.take(old(tree).nodes.len() as int) == old(tree).nodes@,
        subtree(final(tree).nodes@, root as int) == split_tree(pane_views(panes@)),
    decreases panes.len(),
{
    let ghost start = tree.nodes@;
    let ghost all = pane_views(panes@);
    proof {
        divider_is_least(all, Axis::X);
        divider_is_least(all, Axis::Y);
        assert(all.len() == panes.len());
        assert(all[0] == panes@[0]@);
    }
    if panes.len() > 1 {
        if let Some((left_panes, right_panes)) = split_panes(panes, Axis::X) {
            assert(pane_views(left_panes@).len() == left_panes.len());
            assert(pane_views(right_panes@).len() == right_panes.len());
            let left = reconstruct(tree, left_panes.as_slice());
            let ghost one = tree.nodes@;
            let right = reconstruct(tree, right_panes.as_slice());
            let ghost two = tree.nodes@;
            let root = tree.push_node(Node::Vertical { left, right });
            proof {
                let three = tree.nodes@;
                assert(two.take(one.len() as int) == one);
                lemma_subtree_kept(one, two, left as int);
                assert(three.take(two.len() as int) == two);
                lemma_subtree_kept(two, three, left as int);
                lemma_subtree_kept(two, three, right as int);
                assert(three.take(start.len() as int) == start) by {
                    assert(one.take(start.len() as int) == start);
                    assert forall|i: int| 0 <= i < start.len() implies three[i] == start[i] by {
                        assert(one[i] == one.take(start.len() as int)[i]);
                        assert(two[i] == two.take(one.len() as int)[i]);
                    }
                }
            }
            return root;
        }
        if let Some((top_panes, bottom_panes)) = split_panes(panes, Axis::Y) {
            assert(pane_views(top_panes@).len() == top_panes.len());
            assert(pane_views(bottom_panes@).len() == bottom_panes.len());
            let top = reconstruct(tree, top_panes.as_slice());
            let ghost one = tree.nodes@;
            let bottom = reconstruct(tree, bottom_panes.as_slice());
            let ghost two = tree.nodes@;
            let root = tree.push_node(Node::Horizontal { top, bottom });
            proof {
                let three = tree.nodes@;
                assert(two.take(one.len() as int) == one);
                lemma_subtree_kept(one, two, top as int);
                assert(three.take(two.len() as int) == two);
                lemma_subtree_kept(two, three, top as int);
                lemma_subtree_kept(two, three, bottom as int);
                assert(three.take(start.len() as int) == start) by {
                    assert(one.take(start.len() as int) == start);
                    assert forall|i: int| 0 <= i < start.len() implies three[i] == start[i] by {
                        assert(one[i] == one.take(start.len() as int)[i]);
                        assert(two[i] == two.take(one.len() as int)[i]);
                    }
                }
            }
            return root;
        }
    }
    tree.push_node(Node::Leaf(panes[0]))
}

// Windows, tabs and panes of a capture.
/// `x` put into an increasing list, unless it is there already.
pub open spec fn insert_index(s: Seq<usize>, x: usize) -> Seq<usize>
    decreases s.len(),
{
    if s.len() == 0 {
        seq![x]
    } else if x < s[0] {
        seq![x] + s
    } else if x == s[0] {
        s
    } else {
        seq![s[0]] + insert_index(s.skip(1), x)
    }
}

/// Each element is larger than those in front of it.
pub open spec fn increasing(s: Seq<usize>) -> bool {
    forall|i: int, j: int| 0 <= i < j < s.len() ==> s[i] < s[j]
}

/// The window indexes of a capture, increasing.
pub open spec fn windows_of(surfaces: Seq<Surface>) -> Seq<usize>
    decreases surfaces.len(),
{
    if surfaces.len() == 0 {
        seq![]
    } else {
        insert_index(windows_of(surfaces.drop_last()), surfaces.last().window_index)
    }
}

/// The tab indexes of a window, increasing.
pub open spec fn tabs_of(surfaces: Seq<Surface>, window: usize) -> Seq<usize>
    decreases surfaces.len(),
{
    if surfaces.len() == 0 {
        seq![]
    } else if surfaces.last().window_index == window {
        insert_index(tabs_of(surfaces.drop_last(), window), surfaces.last().tab_index)
    } else {
        tabs_of(surfaces.drop_last(), window)
    }
}

/// A surface as a pane.
pub open spec fn surface_pane(surface: Surface) -> Pane {
    Pane {
        dir: surface.working_dir,
        x: surface.rect.x as int,
        y: surface.rect.y as int,
        width: surface.rect.width as int,
        height: surface.rect.height as int,
    }
}

/// `surface` belongs to a tab of a window.
pub open spec fn in_tab(surface: Surface, window: usize, tab: usize) -> bool {
    surface.window_index == window && surface.tab_index == tab
}

/// The panes of a tab, in the order of capture.
pub open spec fn panes_of(
    surfaces: Seq<Surface>,
    window: usize,
    tab: usize,
) -> Seq<Pane>
    decreases surfaces.len(),
{
    if surfaces.len() == 0 {
        seq![]
    } else {
        let rest = panes_of(surfaces.drop_last(), window, tab);
        if in_tab(surfaces.last(), window, tab) {
            rest.push(surface_pane(surfaces.last()))
        } else {
            rest
        }
    }
}

/// The title of a tab: that of its last surface.
pub open spec fn title_of(
    surfaces: Seq<Surface>,
    window: usize,
    tab: usize,
) -> Seq<char>
    decreases surfaces.len(),
{
    if surfaces.len() == 0 {
        seq![]
    } else if in_tab(surfaces.last(), window, tab) {
        surfaces.last().title
    } else {
        title_of(surfaces.drop_last(), window, tab)
    }
}

/// The frame of a window: that of the last entry for it.
pub open spec fn frame_of(windows: Seq<CapturedWindow>, window: usize) -> Option<WindowFrame>
    decreases windows.len(),
{
    if windows.len() == 0 {
        None
    } else if windows.last().window_index == window {
        Some(windows.last().frame)
    } else {
        frame_of(windows.drop_last(), window)
    }
}

/// A tab to restore: its title and its splits.
pub struct TabPlan {
    pub title: Seq<char>,
    pub tree: SplitTree,
}

/// One tab of a window.
pub open spec fn tab_plan(
    surfaces: Seq<Surface>,
    window: usize,
    tab: usize,
) -> TabPlan {
    TabPlan {
        title: title_of(surfaces, window, tab),
        tree: split_tree(panes_of(surfaces, window, tab)),
    }
}

/// The tabs of a window, by increasing tab index.
pub open spec fn tab_plans(surfaces: Seq<Surface>, window: usize) -> Seq<TabPlan> {
    tabs_of(surfaces, window).map_values(|tab: usize| tab_plan(surfaces, window, tab))
}

/// Inserting keeps a list increasing and adds the one element.
proof fn lemma_insert_index(s: Seq<usize>, x: usize)
    requires
        increasing(s),
    ensures
        increasing(insert_index(s, x)),
        forall|y: usize| #[trigger]
            insert_index(s, x).contains(y) <==> s.contains(y) || y == x,
        insert_index(s, x).len() <= s.len() + 1,
    decreases s.len(),
{
    let out = insert_index(s, x);
    if s.len() == 0 {
        assert(out[0] == x);
    } else if x < s[0] {
        assert(out[0] == x);
        assert forall|y: usize| s.contains(y) implies out.contains(y) by {
            let i = choose|i: int| 0 <= i < s.len() && s[i] == y;
            assert(out[i + 1] == y);
        }
        assert forall|y: usize| out.contains(y) implies s.contains(y) || y == x by {
            let i = choose|i: int| 0 <= i < out.len() && out[i] == y;
            if i > 0 {
                assert(s[i - 1] == y);
            }
        }
    } else if x == s[0] {
        assert(s.contains(x));
    } else {
        let rest = s.skip(1);
        assert(increasing(rest)) by {
            assert forall|i: int, j: int| 0 <= i < j < rest.len() implies rest[i] < rest[j] by {
                assert(s[i + 1] < s[j + 1]);
            }
        }
        lemma_insert_index(rest, x);
        let tail = insert_index(rest, x);
        assert forall|y: usize| tail.contains(y) implies s[0] < y by {
            if rest.contains(y) {
                let i = choose|i: int| 0 <= i < rest.len() && rest[i] == y;
                assert(s[i + 1] == y);
            }
        }
        assert forall|i: int, j: int| 0 <= i < j < out.len() implies out[i] < out[j] by {
            assert(tail.contains(tail[j - 1]));
            if i > 0 {
                assert(tail[i - 1] < tail[j - 1]);
            }
        }
        assert forall|y: usize| s.contains(y) || y == x implies out.contains(y) by {
            if y == s[0] {
                assert(out[0] == y);
            } else {
                if s.contains(y) {
                    let i = choose|i: int| 0 <= i < s.len() && s[i] == y;
                    assert(rest[i - 1] == y);
                }
                assert(tail.contains(y));
                let j = choose|j: int| 0 <= j < tail.len() && tail[j] == y;
                assert(out[j + 1] == y);
            }
        }
        assert forall|y: usize| out.contains(y) implies s.contains(y) || y == x by {
            let i = choose|i: int| 0 <= i < out.len() && out[i] == y;
            if i == 0 {
                assert(s[0] == y);
            } else {
                assert(tail[i - 1] == y);
                assert(tail.contains(y));
                if rest.contains(y) {
                    let j = choose|j: int| 0 <= j < rest.len() && rest[j] == y;
                    assert(s[j + 1] == y);
                }
            }
        }
    }
}

/// Windows are restored by increasing index, each window of the capture once.
pub proof fn windows_in_order(surfaces: Seq<Surface>)
    ensures
        increasing(windows_of(surfaces)),
        forall|w: usize| #[trigger]
            windows_of(surfaces).contains(w) <==> exists|i: int|
                0 <= i < surfaces.len() && (#[trigger] surfaces[i]).window_index == w,
    decreases surfaces.len(),
{
    if surfaces.len() > 0 {
        let rest = surfaces.drop_last();
        windows_in_order(rest);
        lemma_insert_index(windows_of(rest), surfaces.last().window_index);
        assert forall|w: usize| windows_of(surfaces).contains(w) implies exists|i: int|
            0 <= i < surfaces.len() && (#[trigger] surfaces[i]).window_index == w by {
            if windows_of(rest).contains(w) {
                let i = choose|i: int|
                    0 <= i < rest.len() && (#[trigger] rest[i]).window_index == w;
                assert(surfaces[i].window_index == w);
            } else {
                assert(surfaces[surfaces.len() - 1].window_index == w);
            }
        }
        assert forall|w: usize|
            (exists|i: int|
                0 <= i < surfaces.len() && (#[trigger] surfaces[i]).window_index
                    == w) implies windows_of(surfaces).contains(w) by {
            let i = choose|i: int|
                0 <= i < surfaces.len() && (#[trigger] surfaces[i]).window_index == w;
            if i < rest.len() {
                assert(rest[i].window_index == w);
            }
        }
    }
}

/// Tabs are restored by increasing index, and each of them has a pane.
pub proof fn tabs_in_order(surfaces: Seq<Surface>, window: usize)
    ensures
        increasing(tabs_of(surfaces, window)),
        forall|t: usize| #[trigger]
            tabs_of(surfaces, window).contains(t) <==> panes_of(surfaces, window, t).len() > 0,
    decreases surfaces.len(),
{
    if surfaces.len() > 0 {
        let rest = surfaces.drop_last();
        tabs_in_order(rest, window);
        if surfaces.last().window_index == window {
            lemma_insert_index(tabs_of(rest, window), surfaces.last().tab_index);
        }
    }
}

/// How many panes the first `n` of these tabs hold.
spec fn pane_total(
    surfaces: Seq<Surface>,
    window: usize,
    tabs: Seq<usize>,
    n: int,
) -> nat
    decreases n,
{
    if n <= 0 {
        0
    } else {
        pane_total(surfaces, window, tabs, n - 1) + panes_of(surfaces, window, tabs[n - 1]).len()
    }
}

/// One more surface adds one pane to one of several different tabs, at most.
proof fn lemma_pane_total_step(
    surfaces: Seq<Surface>,
    window: usize,
    tabs: Seq<usize>,
    n: int,
)
    requires
        surfaces.len() > 0,
        increasing(tabs),
        0 <= n <= tabs.len(),
    ensures
        ({
            let rest = surfaces.drop_last();
            let grown = pane_total(surfaces, window, tabs, n);
            let before = pane_total(rest, window, tabs, n);
            &&& grown <= before + 1
            &&& !tabs.take(n).contains(surfaces.last().tab_index) ==> grown == before
        }),
    decreases n,
{
    if n > 0 {
        lemma_pane_total_step(surfaces, window, tabs, n - 1);
        let tab = surfaces.last().tab_index;
        let front = tabs.take(n - 1);
        if tabs[n - 1] == tab {
            assert(!front.contains(tab)) by {
                if front.contains(tab) {
                    let i = choose|i: int| 0 <= i < front.len() && front[i] == tab;
                    assert(tabs[i] < tabs[n - 1]);
                }
            }
            assert(tabs.take(n)[n - 1] == tab);
        } else {
            if front.contains(tab) {
                let i = choose|i: int| 0 <= i < front.len() && front[i] == tab;
                assert(tabs.take(n)[i] == tab);
            }
        }
    }
}

/// The tabs of a window hold no more panes than there are surfaces.
proof fn lemma_pane_total(surfaces: Seq<Surface>, window: usize, tabs: Seq<usize>)
    requires
        increasing(tabs),
    ensures
        pane_total(surfaces, window, tabs, tabs.len() as int) <= surfaces.len(),
    decreases surfaces.len(),
{
    if surfaces.len() == 0 {
        lemma_pane_total_empty(surfaces, window, tabs, tabs.len() as int);
    } else {
        lemma_pane_total(surfaces.drop_last(), window, tabs);
        lemma_pane_total_step(surfaces, window, tabs, tabs.len() as int);
    }
}

/// Without surfaces there are no panes.
proof fn lemma_pane_total_empty(
    surfaces: Seq<Surface>,
    window: usize,
    tabs: Seq<usize>,
    n: int,
)
    requires
        surfaces.len() == 0,
    ensures
        pane_total(surfaces, window, tabs, n) == 0,
    decreases n,
{
    if n > 0 {
        lemma_pane_total_empty(surfaces, window, tabs, n - 1);
    }
}

/// Puts `x` into an increasing list.
fn insert_sorted(list: &mut Vec<usize>, x: usize)
    requires
        increasing(old(list)@),
    ensures
        final(list)@ == insert_index(old(list)@, x),
        increasing(final(list)@),
{
    let ghost start = list@;
    proof {
        lemma_insert_index(start, x);
    }
    let mut i: usize = 0;
    while i < list.len() && list[i] < x
        invariant
            list@ == start,
            increasing(start),
            i <= list.len(),
            forall|j: int| 0 <= j < i ==> start[j] < x,
        decreases list.len() - i,
    {
        i = i + 1;
    }
    proof {
        lemma_insert_index_at(start, x, i as int);
    }
    if i == list.len() || list[i] != x {
        list.insert(i, x);
    }
}

/// Where `insert_index` puts an element.
proof fn lemma_insert_index_at(s: Seq<usize>, x: usize, at: int)
    requires
        0 <= at <= s.len(),
        forall|j: int| 0 <= j < at ==> s[j] < x,
        at < s.len() ==> x <= s[at],
    ensures
        insert_index(s, x) == if at < s.len() && s[at] == x {
            s
        } else {
            s.insert(at, x)
        },
    decreases s.len(),
{
    if s.len() == 0 {
        assert(s.insert(at, x) == seq![x]);
    } else if at == 0 {
        assert(seq![x] + s == s.insert(0, x));
    } else {
        let rest = s.skip(1);
        lemma_insert_index_at(rest, x, at - 1);
        if at < s.len() && s[at] == x {
            assert(seq![s[0]] + rest == s);
        } else {
            assert(seq![s[0]] + rest.insert(at - 1, x) == s.insert(at, x));
        }
    }
}

/// A tab of a capture: its title and its panes.
pub struct TabData<'a> {
    pub title: &'a str,
    pub panes: Vec<PaneRef<'a>>,
}

/// A window of a capture: its index and its tabs.
pub struct WindowData<'a> {
    pub index: usize,
    pub tabs: Vec<TabData<'a>>,
}

/// `data` is the tab of that window.
pub open spec fn is_tab(
    data: TabData<'_>,
    surfaces: Seq<Surface>,
    window: usize,
    tab: usize,
) -> bool {
    &&& data.title@ == title_of(surfaces, window, tab)
    &&& pane_views(data.panes@) == panes_of(surfaces, window, tab)
}

/// `data` is the window with all its tabs.
pub open spec fn is_window(
    data: WindowData<'_>,
    surfaces: Seq<Surface>,
    window: usize,
) -> bool {
    &&& data.index == window
    &&& data.tabs.len() == tabs_of(surfaces, window).len()
    &&& forall|k: int|
        0 <= k < data.tabs.len() ==> is_tab(
            #[trigger] data.tabs@[k],
            surfaces,
            window,
            tabs_of(surfaces, window)[k],
        )
}

/// Collects one tab: its panes in order, and the last title.
fn collect_tab<'a>(surfaces: &'a [CapturedTabSurface], window: usize, tab: usize) -> (r: TabData<
    'a,
>)
    ensures
        is_tab(r, surface_views(surfaces@), window, tab),
{
    let ghost all = surface_views(surfaces@);
    let mut title: &'a str = "";
    let mut panes: Vec<PaneRef<'a>> = Vec::new();
    proof {
        reveal_strlit("");
        assert(title@ == Seq::<char>::empty());
    }
    for i in 0..surfaces.len()
        invariant
            all == surface_views(surfaces@),
            title@ == title_of(all.take(i as int), window, tab),
            pane_views(panes@) == panes_of(all.take(i as int), window, tab),
    {
        let surface = &surfaces[i];
        let ghost before = panes@;
        assert(all.take(i as int + 1).drop_last() == all.take(i as int));
        assert(all.take(i as int + 1).last() == surface@);
        if surface.window_index == window && surface.tab_index == tab {
            title = surface.title.as_str();
            let pane = PaneRef { working_dir: surface.working_dir.as_str(), rect: &surface.rect };
            panes.push(pane);
            assert(pane_views(panes@) == pane_views(before).push(pane@));
        }
    }
    assert(all.take(all.len() as int) == all);
    TabData { title, panes }
}

/// Collects one window: its tabs by increasing index.
fn collect_window<'a>(surfaces: &'a [CapturedTabSurface], window: usize) -> (r: WindowData<'a>)
    ensures
        is_window(r, surface_views(surfaces@), window),
{
    let ghost all = surface_views(surfaces@);
    let mut indexes: Vec<usize> = Vec::new();
    for i in 0..surfaces.len()
        invariant
            all == surface_views(surfaces@),
            indexes@ == tabs_of(all.take(i as int), window),
            increasing(indexes@),
    {
        assert(all.take(i as int + 1).drop_last() == all.take(i as int));
        assert(all.take(i as int + 1).last() == surfaces@[i as int]@);
        if surfaces[i].window_index == window {
            insert_sorted(&mut indexes, surfaces[i].tab_index);
        }
    }
    assert(all.take(all.len() as int) == all);
    let mut tabs: Vec<TabData<'a>> = Vec::new();
    for k in 0..indexes.len()
        invariant
            all == surface_views(surfaces@),
            indexes@ == tabs_of(all, window),
            tabs.len() == k,
            forall|j: int|
                0 <= j < k ==> is_tab(#[trigger] tabs@[j], all, window, indexes@[j]),
    {
        tabs.push(collect_tab(surfaces, window, indexes[k]));
    }
    WindowData { index: window, tabs }
}

/// Groups surfaces by window, then tab, by increasing indexes.
pub fn group_windows<'a>(surfaces: &'a [CapturedTabSurface]) -> (r: Vec<WindowData<'a>>)
    ensures
        r.len() == windows_of(surface_views(surfaces@)).len(),
        forall|k: int|
            0 <= k < r.len() ==> is_window(
                #[trigger] r@[k],
                surface_views(surfaces@),
                windows_of(surface_views(surfaces@))[k],
            ),
{
    let ghost all = surface_views(surfaces@);
    let mut indexes: Vec<usize> = Vec::new();
    for i in 0..surfaces.len()
        invariant
            all == surface_views(surfaces@),
            indexes@ == windows_of(all.take(i as int)),
            increasing(indexes@),
    {
        assert(all.take(i as int + 1).drop_last() == all.take(i as int));
        assert(all.take(i as int + 1).last() == surfaces@[i as int]@);
        insert_sorted(&mut indexes, surfaces[i].window_index);
    }
    assert(all.take(all.len() as int) == all);
    let mut out: Vec<WindowData<'a>> = Vec::new();
    for k in 0..indexes.len()
        invariant
            all == surface_views(surfaces@),
            indexes@ == windows_of(all),
            out.len() == k,
            forall|j: int|
                0 <= j < k ==> is_window(#[trigger] out@[j], all, indexes@[j]),
    {
        out.push(collect_window(surfaces, indexes[k]));
    }
    out
}

// The lines of a script.
/// What the variables of a window's panes start with: nothing where there is only
/// one window.
pub open spec fn var_prefix(multi: bool, window: usize) -> Seq<char> {
    if multi {
        crate::number::decimal(window as nat) + "_"@
    } else {
        ""@
    }
}

/// The variable that holds a window.
pub open spec fn window_var(multi: bool, window: usize) -> Seq<char> {
    if multi {
        "win"@ + crate::number::decimal(window as nat)
    } else {
        "win"@
    }
}

/// The number that the variables of a window's tabs carry.
pub open spec fn tab_group(multi: bool, window: usize) -> nat {
    if multi {
        window as nat
    } else {
        1
    }
}

/// What names the `n`th pane of a window.
pub open spec fn pane_name(prefix: Seq<char>, n: nat) -> Seq<char> {
    prefix + crate::number::decimal(n)
}

/// The line that makes a surface configuration.
pub open spec fn config_line(name: Seq<char>) -> Seq<char> {
    "    set cfg"@ + name + " to new surface configuration"@
}

/// The line that gives a surface configuration its working directory.
pub open spec fn dir_line(name: Seq<char>, dir: Seq<char>) -> Seq<char> {
    "    set initial working directory of cfg"@ + name + " to \""@
        + crate::applescript::escaped(dir) + "\""@
}

/// The line that splits a pane.
pub open spec fn split_line(name: Seq<char>, var: Seq<char>, right: bool) -> Seq<char> {
    "    set p"@ + name + " to split "@ + var + " direction "@ + (if right {
        "right"@
    } else {
        "down"@
    }) + " with configuration cfg"@ + name
}

/// The line that opens a window.
pub open spec fn new_window_line(window: Seq<char>, name: Seq<char>) -> Seq<char> {
    "    set "@ + window + " to new window with configuration cfg"@ + name
}

/// The line that names the first pane of a window.
pub open spec fn window_root_line(window: Seq<char>, name: Seq<char>) -> Seq<char> {
    "    set p"@ + name + " to focused terminal of selected tab of "@ + window
}

/// The variable that holds a later tab of a window.
pub open spec fn tab_var(group: nat, i: nat) -> Seq<char> {
    "newtab"@ + crate::number::decimal(group) + "_"@ + crate::number::decimal(i)
}

/// The line that opens a tab.
pub open spec fn new_tab_line(tab: Seq<char>, window: Seq<char>, name: Seq<char>) -> Seq<char> {
    "    set "@ + tab + " to new tab in "@ + window + " with configuration cfg"@ + name
}

/// The line that names the first pane of a tab.
pub open spec fn tab_root_line(tab: Seq<char>, name: Seq<char>) -> Seq<char> {
    "    set p"@ + name + " to focused terminal of "@ + tab
}

/// The line that sets a tab's title.
pub open spec fn title_line(name: Seq<char>, title: Seq<char>) -> Seq<char> {
    "    perform action \"set_tab_title:"@ + crate::applescript::escaped(title) + "\" on p"@ + name
}

/// The line that moves a window to its frame. The action needs a terminal as its
/// target; the window's first pane serves.
pub open spec fn frame_line(frame: WindowFrame, prefix: Seq<char>) -> Seq<char> {
    "    perform action \"set_frame:"@ + crate::number::signed_decimal(frame.x as int) + ","@
        + crate::number::signed_decimal(frame.y as int) + ","@ + crate::number::signed_decimal(
        frame.width as int,
    ) + ","@ + crate::number::signed_decimal(frame.height as int) + "\" on p"@ + prefix + "1"@
}

/// The lines that make a configuration for the pane `name`, behind a blank line.
pub open spec fn config_lines(name: Seq<char>, dir: Seq<char>) -> Seq<Seq<char>> {
    seq![""@, config_line(name), dir_line(name, dir)]
}

/// The lines that replay the splits of a (sub)tree whose pane is held by `var`; its
/// first new pane is the `n`th of the window.
pub open spec fn split_lines(
    tree: SplitTree,
    var: Seq<char>,
    prefix: Seq<char>,
    n: nat,
) -> Seq<Seq<char>>
    decreases tree,
{
    let name = pane_name(prefix, n);
    match tree {
        SplitTree::Leaf(_) => seq![],
        SplitTree::Vertical(left, right) => config_lines(name, anchor(*right).dir).push(
            split_line(name, var, true),
        ) + split_lines(*left, var, prefix, n + 1) + split_lines(
            *right,
            "p"@ + name,
            prefix,
            n + 1 + split_count(*left),
        ),
        SplitTree::Horizontal(top, bottom) => config_lines(name, anchor(*bottom).dir).push(
            split_line(name, var, false),
        ) + split_lines(*top, var, prefix, n + 1) + split_lines(
            *bottom,
            "p"@ + name,
            prefix,
            n + 1 + split_count(*top),
        ),
    }
}

/// The lines that open the `i`th tab of a window, whose first pane is the `n`th.
pub open spec fn root_lines(multi: bool, window: usize, i: nat, n: nat) -> Seq<Seq<char>> {
    let name = pane_name(var_prefix(multi, window), n);
    let win = window_var(multi, window);
    if i == 0 {
        seq![new_window_line(win, name), window_root_line(win, name)]
    } else {
        let tab = tab_var(tab_group(multi, window), i);
        seq![new_tab_line(tab, win, name), tab_root_line(tab, name)]
    }
}

/// The lines that restore the `i`th tab of a window, whose first pane is the `n`th.
pub open spec fn tab_lines(
    tab: TabPlan,
    multi: bool,
    window: usize,
    i: nat,
    n: nat,
) -> Seq<Seq<char>> {
    let prefix = var_prefix(multi, window);
    let name = pane_name(prefix, n);
    config_lines(name, anchor(tab.tree).dir) + root_lines(multi, window, i, n) + (if tab.title.len()
        > 0 {
        seq![title_line(name, tab.title)]
    } else {
        seq![]
    }) + split_lines(tab.tree, "p"@ + name, prefix, n + 1)
}

/// The number of the first pane of the `k`th tab.
pub open spec fn first_pane(tabs: Seq<TabPlan>, k: int) -> nat
    decreases k,
{
    if k <= 0 {
        1
    } else {
        first_pane(tabs, k - 1) + 1 + split_count(tabs[k - 1].tree)
    }
}

/// The lines that restore the first `k` tabs of a window.
pub open spec fn tabs_lines(
    tabs: Seq<TabPlan>,
    multi: bool,
    window: usize,
    k: int,
) -> Seq<Seq<char>>
    decreases k,
{
    if k <= 0 {
        seq![]
    } else {
        tabs_lines(tabs, multi, window, k - 1) + tab_lines(
            tabs[k - 1],
            multi,
            window,
            (k - 1) as nat,
            first_pane(tabs, k - 1),
        )
    }
}

/// The lines that restore a window's frame. A single window keeps the frame that it
/// is opened with.
pub open spec fn frame_lines(
    windows: Seq<CapturedWindow>,
    multi: bool,
    window: usize,
) -> Seq<Seq<char>> {
    match frame_of(windows, window) {
        Some(frame) => if multi {
            seq![""@, frame_line(frame, var_prefix(multi, window))]
        } else {
            seq![]
        },
        None => seq![],
    }
}

/// The lines that restore a window: its tabs, then its frame.
pub open spec fn window_lines(
    windows: Seq<CapturedWindow>,
    surfaces: Seq<Surface>,
    window: usize,
) -> Seq<Seq<char>> {
    let multi = windows.len() > 1;
    let tabs = tab_plans(surfaces, window);
    tabs_lines(tabs, multi, window, tabs.len() as int) + frame_lines(windows, multi, window)
}

/// The lines that restore the first `k` windows.
pub open spec fn windows_lines(
    windows: Seq<CapturedWindow>,
    surfaces: Seq<Surface>,
    k: int,
) -> Seq<Seq<char>>
    decreases k,
{
    if k <= 0 {
        seq![]
    } else {
        windows_lines(windows, surfaces, k - 1) + window_lines(
            windows,
            surfaces,
            windows_of(surfaces)[k - 1],
        )
    }
}

/// The lines of a restore script behind its header.
pub open spec fn body_lines(
    windows: Seq<CapturedWindow>,
    surfaces: Seq<Surface>,
) -> Seq<Seq<char>> {
    (seq!["tell application \"Ghostty\""@, "    activate"@] + windows_lines(
        windows,
        surfaces,
        windows_of(surfaces).len() as int,
    )).push("end tell"@)
}

/// The restore script of a capture.
pub open spec fn restore_script(
    windows: Seq<CapturedWindow>,
    surfaces: Seq<Surface>,
) -> Seq<char> {
    "-- gtab: format=2 windows="@ + crate::number::decimal(windows_of(surfaces).len()) + "\n"@
        + crate::text::join(body_lines(windows, surfaces), "\n"@) + "\n"@
}

/// Per-window generation state: the variable-name prefix and the running counter that
/// names `cfg`/`p` variables (`cfg2_3`, `p2_3`, ...).
pub struct GenState {
    pub multi: bool,
    pub window: usize,
    pub counter: u128,
}

impl GenState {
    /// The state at the start of a window.
    pub fn new(multi: bool, window: usize) -> (r: Self)
        ensures
            r.multi == multi,
            r.window == window,
            r.counter == 1,
    {
        Self { multi, window, counter: 1 }
    }

    /// What the window's variables start with.
    pub fn prefix(&self) -> (r: String)
        ensures
            r@ == var_prefix(self.multi, self.window),
    {
        if self.multi {
            let mut out = usize_string(self.window);
            out.append("_");
            out
        } else {
            "".to_string()
        }
    }

    /// The variable that holds the window.
    fn window_name(&self) -> (r: String)
        ensures
            r@ == window_var(self.multi, self.window),
    {
        let mut out = "win".to_string();
        if self.multi {
            out.append(usize_string(self.window).as_str());
        }
        out
    }

    /// The variable that holds the window's `i`th tab.
    fn tab_name(&self, i: usize) -> (r: String)
        ensures
            r@ == tab_var(tab_group(self.multi, self.window), i as nat),
    {
        let group: usize = if self.multi {
            self.window
        } else {
            1
        };
        let mut out = "newtab".to_string();
        out.append(usize_string(group).as_str());
        out.append("_");
        out.append(usize_string(i).as_str());
        out
    }

    /// Names the next pane, e.g. `2_3` for the variables `cfg2_3` and `p2_3`.
    pub fn next_name(&mut self) -> (r: String)
        requires
            old(self).counter < u128::MAX,
        ensures
            r@ == pane_name(
                var_prefix(old(self).multi, old(self).window),
                old(self).counter as nat,
            ),
            final(self).multi == old(self).multi,
            final(self).window == old(self).window,
            final(self).counter == old(self).counter + 1,
    {
        let mut out = self.prefix();
        out.append(decimal_string(self.counter).as_str());
        self.counter = self.counter + 1;
        out
    }
}

/// Appends a line.
fn push_line(out: &mut Vec<String>, line: String)
    ensures
        crate::text::string_views(final(out)@) == crate::text::string_views(old(out)@).push(line@),
{
    out.push(line);
}

/// Appends the lines that make a configuration for a pane.
fn push_config(out: &mut Vec<String>, name: &str, dir: &str)
    ensures
        crate::text::string_views(final(out)@) == crate::text::string_views(old(out)@)
            + config_lines(name@, dir@),
{
    let ghost start = crate::text::string_views(out@);
    push_line(out, "".to_string());
    let mut line = "    set cfg".to_string();
    line.append(name);
    line.append(" to new surface configuration");
    push_line(out, line);
    let mut line = "    set initial working directory of cfg".to_string();
    line.append(name);
    line.append(" to \"");
    line.append(apple_escape(dir).as_str());
    line.append("\"");
    push_line(out, line);
    assert(start.push(""@).push(config_line(name@)).push(dir_line(name@, dir@)) == start
        + config_lines(name@, dir@));
}

/// Appends the line that splits a pane.
fn push_split(out: &mut Vec<String>, name: &str, var: &str, right: bool)
    ensures
        crate::text::string_views(final(out)@) == crate::text::string_views(old(out)@).push(
            split_line(name@, var@, right),
        ),
{
    let mut line = "    set p".to_string();
    line.append(name);
    line.append(" to split ");
    line.append(var);
    line.append(" direction ");
    if right {
        line.append("right");
    } else {
        line.append("down");
    }
    line.append(" with configuration cfg");
    line.append(name);
    push_line(out, line);
}

/// Emits the `split ... direction right/down` lines for a subtree, recursing into both
/// halves. `var` is the surface variable that the subtree is split from.
pub fn gen_splits(
    tree: &Tree<'_>,
    index: usize,
    var: &str,
    state: &mut GenState,
    out: &mut Vec<String>,
)
    requires
        tree.wf(),
        index < tree.nodes.len(),
        old(state).counter + split_count(subtree(tree.nodes@, index as int)) <= u128::MAX,
    ensures
        crate::text::string_views(final(out)@) == crate::text::string_views(old(out)@)
            + split_lines(
            subtree(tree.nodes@, index as int),
            var@,
            var_prefix(old(state).multi, old(state).window),
            old(state).counter as nat,
        ),
        final(state).multi == old(state).multi,
        final(state).window == old(state).window,
        final(state).counter == old(state).counter + split_count(
            subtree(tree.nodes@, index as int),
        ),
    decreases index,
{
    let ghost start = crate::text::string_views(out@);
    let ghost n = state.counter as nat;
    let ghost prefix = var_prefix(state.multi, state.window);
    let ghost whole = subtree(tree.nodes@, index as int);
    match tree.node(index) {
        Node::Leaf(_) => {
            assert(start + Seq::<Seq<char>>::empty() == start);
        },
        Node::Vertical { left, right } => {
            let anchor = tree.anchor(*right);
            let name = state.next_name();
            push_config(out, name.as_str(), anchor.working_dir);
            push_split(out, name.as_str(), var, true);
            let mut new_var = "p".to_string();
            new_var.append(name.as_str());
            gen_splits(tree, *left, var, state, out);
            gen_splits(tree, *right, new_var.as_str(), state, out);
            proof {
                let l = subtree(tree.nodes@, *left as int);
                let r = subtree(tree.nodes@, *right as int);
                let head = config_lines(name@, anchor@.dir);
                let line = split_line(name@, var@, true);
                let a = split_lines(l, var@, prefix, n + 1);
                let b = split_lines(r, "p"@ + name@, prefix, n + 1 + split_count(l));
                assert((start + head).push(line) + a + b == start + (head.push(line) + a + b));
            }
        },
        Node::Horizontal { top, bottom } => {
            let anchor = tree.anchor(*bottom);
            let name = state.next_name();
            push_config(out, name.as_str(), anchor.working_dir);
            push_split(out, name.as_str(), var, false);
            let mut new_var = "p".to_string();
            new_var.append(name.as_str());
            gen_splits(tree, *top, var, state, out);
            gen_splits(tree, *bottom, new_var.as_str(), state, out);
            proof {
                let l = subtree(tree.nodes@, *top as int);
                let r = subtree(tree.nodes@, *bottom as int);
                let head = config_lines(name@, anchor@.dir);
                let line = split_line(name@, var@, false);
                let a = split_lines(l, var@, prefix, n + 1);
                let b = split_lines(r, "p"@ + name@, prefix, n + 1 + split_count(l));
                assert((start + head).push(line) + a + b == start + (head.push(line) + a + b));
            }
        },
    }
}

/// Emits the lines that restore the `i`th tab of a window.
fn gen_tab(tab: &TabData<'_>, i: usize, state: &mut GenState, out: &mut Vec<String>)
    requires
        tab.panes.len() > 0,
        old(state).counter + 1 + split_count(split_tree(pane_views(tab.panes@))) <= u128::MAX,
    ensures
        crate::text::string_views(final(out)@) == crate::text::string_views(old(out)@) + tab_lines(
            TabPlan { title: tab.title@, tree: split_tree(pane_views(tab.panes@)) },
            old(state).multi,
            old(state).window,
            i as nat,
            old(state).counter as nat,
        ),
        final(state).multi == old(state).multi,
        final(state).window == old(state).window,
        final(state).counter == old(state).counter + 1 + split_count(
            split_tree(pane_views(tab.panes@)),
        ),
{
    let ghost start = crate::text::string_views(out@);
    let ghost n = state.counter as nat;
    let ghost prefix = var_prefix(state.multi, state.window);
    let ghost plan = TabPlan { title: tab.title@, tree: split_tree(pane_views(tab.panes@)) };
    let mut tree = Tree::new();
    let root = reconstruct(&mut tree, tab.panes.as_slice());
    let anchor = tree.anchor(root);
    let window = state.window_name();
    let name = state.next_name();
    push_config(out, name.as_str(), anchor.working_dir);
    let ghost one = crate::text::string_views(out@);
    if i == 0 {
        let mut line = "    set ".to_string();
        line.append(window.as_str());
        line.append(" to new window with configuration cfg");
        line.append(name.as_str());
        push_line(out, line);
        let mut line = "    set p".to_string();
        line.append(name.as_str());
        line.append(" to focused terminal of selected tab of ");
        line.append(window.as_str());
        push_line(out, line);
    } else {
        let tab_var = state.tab_name(i);
        let mut line = "    set ".to_string();
        line.append(tab_var.as_str());
        line.append(" to new tab in ");
        line.append(window.as_str());
        line.append(" with configuration cfg");
        line.append(name.as_str());
        push_line(out, line);
        let mut line = "    set p".to_string();
        line.append(name.as_str());
        line.append(" to focused terminal of ");
        line.append(tab_var.as_str());
        push_line(out, line);
    }
    let ghost two = crate::text::string_views(out@);
    assert(two == one + root_lines(state.multi, state.window, i as nat, n));
    if !crate::text::is_empty_str(tab.title) {
        let mut line = "    perform action \"set_tab_title:".to_string();
        line.append(apple_escape(tab.title).as_str());
        line.append("\" on p");
        line.append(name.as_str());
        push_line(out, line);
        assert(crate::text::string_views(out@) == two + seq![title_line(name@, plan.title)]);
    } else {
        assert(two + Seq::<Seq<char>>::empty() == two);
    }
    let mut var = "p".to_string();
    var.append(name.as_str());
    gen_splits(&tree, root, var.as_str(), state, out);
    proof {
        let head = config_lines(name@, anchor@.dir);
        let roots = root_lines(state.multi, state.window, i as nat, n);
        let title = if plan.title.len() > 0 {
            seq![title_line(name@, plan.title)]
        } else {
            seq![]
        };
        let splits = split_lines(plan.tree, "p"@ + name@, prefix, n + 1);
        assert(start + head + roots + title + splits == start + (head + roots + title + splits));
    }
}

/// The frame of a window, if it was captured.
fn find_frame(windows: &[CapturedWindow], window: usize) -> (r: Option<WindowFrame>)
    ensures
        r == frame_of(windows@, window),
{
    let mut found: Option<WindowFrame> = None;
    for i in 0..windows.len()
        invariant
            found == frame_of(windows@.take(i as int), window),
    {
        assert(windows@.take(i as int + 1).drop_last() == windows@.take(i as int));
        if windows[i].window_index == window {
            found = Some(windows[i].frame);
        }
    }
    assert(windows@.take(windows@.len() as int) == windows@);
    found
}

/// The panes of the first `k` tabs give room for the numbers of theirs.
proof fn lemma_first_pane_bound(
    surfaces: Seq<Surface>,
    window: usize,
    k: int,
)
    requires
        0 <= k <= tabs_of(surfaces, window).len(),
    ensures
        first_pane(tab_plans(surfaces, window), k) <= 1 + pane_total(
            surfaces,
            window,
            tabs_of(surfaces, window),
            k,
        ),
    decreases k,
{
    if k > 0 {
        lemma_first_pane_bound(surfaces, window, k - 1);
        let tab = tabs_of(surfaces, window)[k - 1];
        tabs_in_order(surfaces, window);
        assert(tabs_of(surfaces, window).contains(tab));
        split_tree_holds_panes(panes_of(surfaces, window, tab));
        assert(tab_plans(surfaces, window)[k - 1] == tab_plan(surfaces, window, tab));
    }
}

/// Fewer tabs hold no more panes.
proof fn lemma_pane_total_grows(
    surfaces: Seq<Surface>,
    window: usize,
    tabs: Seq<usize>,
    k: int,
    n: int,
)
    requires
        k <= n,
    ensures
        pane_total(surfaces, window, tabs, k) <= pane_total(surfaces, window, tabs, n),
    decreases n,
{
    if k < n && n > 0 {
        lemma_pane_total_grows(surfaces, window, tabs, k, n - 1);
    }
}

/// The numbers that name a window's panes are no larger than the capture is long.
pub proof fn pane_numbers_fit(surfaces: Seq<Surface>, window: usize, k: int)
    requires
        0 <= k <= tab_plans(surfaces, window).len(),
    ensures
        first_pane(tab_plans(surfaces, window), k) <= 1 + surfaces.len(),
{
    let tabs = tabs_of(surfaces, window);
    tabs_in_order(surfaces, window);
    lemma_first_pane_bound(surfaces, window, k);
    lemma_pane_total(surfaces, window, tabs);
    lemma_pane_total_grows(surfaces, window, tabs, k, tabs.len() as int);
}

/// Emits the lines that restore a window.
fn gen_window(
    data: &WindowData<'_>,
    workspace: &CapturedWorkspace,
    out: &mut Vec<String>,
)
    requires
        is_window(*data, surface_views(workspace.surfaces@), data.index),
    ensures
        crate::text::string_views(final(out)@) == crate::text::string_views(old(out)@)
            + window_lines(workspace.windows@, surface_views(workspace.surfaces@), data.index),
{
    let multi = workspace.is_multi_window();
    let ghost start = crate::text::string_views(out@);
    let ghost surfaces = surface_views(workspace.surfaces@);
    let ghost tabs = tab_plans(surfaces, data.index);
    let mut state = GenState::new(multi, data.index);
    assert(start + Seq::<Seq<char>>::empty() == start);
    for i in 0..data.tabs.len()
        invariant
            surfaces == surface_views(workspace.surfaces@),
            tabs == tab_plans(surfaces, data.index),
            is_window(*data, surfaces, data.index),
            surfaces.len() == workspace.surfaces.len(),
            state.multi == multi,
            state.window == data.index,
            state.counter == first_pane(tabs, i as int),
            crate::text::string_views(out@) == start + tabs_lines(
                tabs,
                multi,
                data.index,
                i as int,
            ),
    {
        proof {
            let indexes = tabs_of(surfaces, data.index);
            let tab = indexes[i as int];
            tabs_in_order(surfaces, data.index);
            assert(indexes.contains(tab));
            assert(is_tab(data.tabs@[i as int], surfaces, data.index, tab));
            assert(tabs[i as int] == tab_plan(surfaces, data.index, tab));
            assert(pane_views(data.tabs@[i as int].panes@).len()
                == data.tabs@[i as int].panes.len());
            pane_numbers_fit(surfaces, data.index, i as int + 1);
        }
        let ghost before = tabs_lines(tabs, multi, data.index, i as int);
        let ghost n = state.counter as nat;
        gen_tab(&data.tabs[i], i, &mut state, out);
        proof {
            let lines = tab_lines(tabs[i as int], multi, data.index, i as nat, n);
            assert(start + before + lines == start + (before + lines));
        }
    }
    let ghost mid = crate::text::string_views(out@);
    if multi {
        if let Some(frame) = find_frame(workspace.windows.as_slice(), data.index) {
            push_line(out, "".to_string());
            let mut line = "    perform action \"set_frame:".to_string();
            line.append(i32_string(frame.x).as_str());
            line.append(",");
            line.append(i32_string(frame.y).as_str());
            line.append(",");
            line.append(i32_string(frame.width).as_str());
            line.append(",");
            line.append(i32_string(frame.height).as_str());
            line.append("\" on p");
            line.append(state.prefix().as_str());
            line.append("1");
            push_line(out, line);
        }
    }
    assert(crate::text::string_views(out@) == mid + frame_lines(
        workspace.windows@,
        multi,
        data.index,
    ));
    proof {
        let a = tabs_lines(tabs, multi, data.index, tabs.len() as int);
        let b = frame_lines(workspace.windows@, multi, data.index);
        assert(start + a + b == start + (a + b));
    }
}

/// Renders the full restore AppleScript for a captured workspace.
///
/// Single-window workspaces use `cfg{n}`/`win` variable names, while multi-window
/// workspaces use per-window `cfg{w}_{n}` variables and emit `set_frame` actions. The
/// script ends with a line break.
pub fn render_restore_script(workspace: &CapturedWorkspace) -> (r: String)
    ensures
        r@ == restore_script(workspace.windows@, surface_views(workspace.surfaces@)),
{
    let windows = group_windows(workspace.surfaces.as_slice());
    let mut out: Vec<String> = Vec::new();
    push_line(&mut out, "tell application \"Ghostty\"".to_string());
    push_line(&mut out, "    activate".to_string());
    let ghost head = seq!["tell application \"Ghostty\""@, "    activate"@];
    assert(crate::text::string_views(out@) == head + windows_lines(
        workspace.windows@,
        surface_views(workspace.surfaces@),
        0,
    ));
    for k in 0..windows.len()
        invariant
            windows.len() == windows_of(surface_views(workspace.surfaces@)).len(),
            forall|j: int|
                0 <= j < windows.len() ==> is_window(
                    #[trigger] windows@[j],
                    surface_views(workspace.surfaces@),
                    windows_of(surface_views(workspace.surfaces@))[j],
                ),
            crate::text::string_views(out@) == head + windows_lines(
                workspace.windows@,
                surface_views(workspace.surfaces@),
                k as int,
            ),
    {
        let ghost before = windows_lines(workspace.windows@, surface_views(workspace.surfaces@), k as int);
        assert(is_window(
            windows@[k as int],
            surface_views(workspace.surfaces@),
            windows_of(surface_views(workspace.surfaces@))[k as int],
        ));
        gen_window(&windows[k], workspace, &mut out);
        proof {
            let lines = window_lines(
                workspace.windows@,
                surface_views(workspace.surfaces@),
                windows_of(surface_views(workspace.surfaces@))[k as int],
            );
            assert(head + before + lines == head + (before + lines));
        }
    }
    push_line(&mut out, "end tell".to_string());
    let mut script = "-- gtab: format=2 windows=".to_string();
    script.append(usize_string(windows.len()).as_str());
    script.append("\n");
    script.append(join_strings(&out, "\n").as_str());
    script.append("\n");
    script
}

proof fn lemma_windows_lines_hold(
    windows: Seq<CapturedWindow>,
    surfaces: Seq<Surface>,
    n: int,
    k: int,
    j: int,
) -> (at: int)
    requires
        0 <= k < n,
        0 <= j < window_lines(windows, surfaces, windows_of(surfaces)[k]).len(),
    ensures
        0 <= at < windows_lines(windows, surfaces, n).len(),
        windows_lines(windows, surfaces, n)[at] == window_lines(
            windows,
            surfaces,
            windows_of(surfaces)[k],
        )[j],
    decreases n,
{
    let front = windows_lines(windows, surfaces, n - 1);
    if k == n - 1 {
        front.len() + j
    } else {
        lemma_windows_lines_hold(windows, surfaces, n - 1, k, j)
    }
}

/// A capture of several windows restores the frame of each window of which it knows one:
/// the script holds the line that moves the window there. A capture of one window moves
/// none.
pub proof fn windows_keep_their_frames(
    windows: Seq<CapturedWindow>,
    surfaces: Seq<Surface>,
    k: int,
)
    requires
        0 <= k < windows_of(surfaces).len(),
    ensures
        ({
            let window = windows_of(surfaces)[k];
            match frame_of(windows, window) {
                Some(frame) => windows.len() > 1 ==> crate::text::contains(
                    restore_script(windows, surfaces),
                    frame_line(frame, var_prefix(true, window)),
                ),
                None => true,
            }
        }),
        windows.len() <= 1 ==> frame_lines(
            windows,
            windows.len() > 1,
            windows_of(surfaces)[k],
        ).len() == 0,
{
    let window = windows_of(surfaces)[k];
    match frame_of(windows, window) {
        Some(frame) => {
            if windows.len() > 1 {
                let line = frame_line(frame, var_prefix(true, window));
                let lines = window_lines(windows, surfaces, window);
                let j = lines.len() - 1;
                assert(lines[j] == line);
                let n = windows_of(surfaces).len() as int;
                let at = lemma_windows_lines_hold(windows, surfaces, n, k, j);
                let body = body_lines(windows, surfaces);
                assert(body[at + 2] == line);
                crate::text::joined_holds_parts(body, "\n"@, at + 2);
                let joined = crate::text::join(body, "\n"@);
                let script = restore_script(windows, surfaces);
                let found = choose|i: int| crate::text::occurs_at(joined, line, i);
                let before = script.len() - 1 - joined.len();
                reveal_strlit("\n");
                assert(crate::text::occurs_at(script, line, before + found)) by {
                    assert(script.subrange(before + found, before + found + line.len())
                        =~= joined.subrange(found, found + line.len()));
                }
            }
        },
        None => {},
    }
}

// Orders of capture.
/// The surfaces of a tab, in the order of capture.
pub open spec fn surfaces_of(surfaces: Seq<Surface>, window: usize, tab: usize) -> Seq<Surface>
    decreases surfaces.len(),
{
    if surfaces.len() == 0 {
        seq![]
    } else {
        let rest = surfaces_of(surfaces.drop_last(), window, tab);
        if in_tab(surfaces.last(), window, tab) {
            rest.push(surfaces.last())
        } else {
            rest
        }
    }
}

/// The panes and the title of a tab are those of its surfaces.
proof fn lemma_tab_of_surfaces(surfaces: Seq<Surface>, window: usize, tab: usize)
    ensures
        ({
            let own = surfaces_of(surfaces, window, tab);
            &&& panes_of(surfaces, window, tab) == own.map_values(|s: Surface| surface_pane(s))
            &&& title_of(surfaces, window, tab) == if own.len() == 0 {
                seq![]
            } else {
                own.last().title
            }
        }),
    decreases surfaces.len(),
{
    let own = surfaces_of(surfaces, window, tab);
    let panes = own.map_values(|s: Surface| surface_pane(s));
    if surfaces.len() > 0 {
        let rest = surfaces_of(surfaces.drop_last(), window, tab);
        lemma_tab_of_surfaces(surfaces.drop_last(), window, tab);
        if in_tab(surfaces.last(), window, tab) {
            assert(panes =~= rest.map_values(|s: Surface| surface_pane(s)).push(
                surface_pane(surfaces.last()),
            ));
        }
    } else {
        assert(panes =~= seq![]);
    }
}

/// Increasing lists of the same members are the same.
proof fn lemma_increasing_same(a: Seq<usize>, b: Seq<usize>)
    requires
        increasing(a),
        increasing(b),
        forall|x: usize| #[trigger] a.contains(x) ==> b.contains(x),
        forall|x: usize| #[trigger] b.contains(x) ==> a.contains(x),
    ensures
        a == b,
    decreases a.len(),
{
    if a.len() == 0 {
        if b.len() > 0 {
            assert(b.contains(b[0]));
        }
    } else {
        assert(a.contains(a[0]));
        assert(b.len() > 0);
        let x = a.last();
        let y = b.last();
        assert(a.contains(x) && b.contains(y));
        let i = choose|i: int| 0 <= i < b.len() && b[i] == x;
        let j = choose|j: int| 0 <= j < a.len() && a[j] == y;
        if i < b.len() - 1 {
            assert(b[i] < b[b.len() - 1]);
        }
        if j < a.len() - 1 {
            assert(a[j] < a[a.len() - 1]);
        }
        assert(x == y);
        let c = a.drop_last();
        let d = b.drop_last();
        assert forall|z: usize| #[trigger] c.contains(z) implies d.contains(z) by {
            let m = choose|m: int| 0 <= m < c.len() && c[m] == z;
            assert(a[m] == z && a[m] < a[a.len() - 1]);
            assert(a.contains(z));
            let n = choose|n: int| 0 <= n < b.len() && b[n] == z;
            assert(d[n] == z);
        }
        assert forall|z: usize| #[trigger] d.contains(z) implies c.contains(z) by {
            let m = choose|m: int| 0 <= m < d.len() && d[m] == z;
            assert(b[m] == z && b[m] < b[b.len() - 1]);
            assert(b.contains(z));
            let n = choose|n: int| 0 <= n < a.len() && a[n] == z;
            assert(c[n] == z);
        }
        lemma_increasing_same(c, d);
        assert(a == c.push(x));
        assert(b == d.push(y));
    }
}

/// A window of the capture has a tab with surfaces, and the other way round.
proof fn lemma_windows_by_surfaces(surfaces: Seq<Surface>, w: usize)
    ensures
        windows_of(surfaces).contains(w) ==> exists|t: usize|
            (#[trigger] surfaces_of(surfaces, w, t)).len() > 0,
        forall|t: usize|
            (#[trigger] surfaces_of(surfaces, w, t)).len() > 0 ==> windows_of(surfaces).contains(w),
    decreases surfaces.len(),
{
    if surfaces.len() > 0 {
        let rest = surfaces.drop_last();
        lemma_windows_by_surfaces(rest, w);
        windows_in_order(rest);
        lemma_insert_index(windows_of(rest), surfaces.last().window_index);
        if windows_of(surfaces).contains(w) {
            if surfaces.last().window_index == w {
                assert(surfaces_of(surfaces, w, surfaces.last().tab_index).len() > 0);
            } else {
                let t = choose|t: usize| (#[trigger] surfaces_of(rest, w, t)).len() > 0;
                assert(surfaces_of(surfaces, w, t).len() > 0);
            }
        }
        assert forall|t: usize|
            (#[trigger] surfaces_of(surfaces, w, t)).len() > 0 implies windows_of(
            surfaces,
        ).contains(w) by {
            if surfaces.last().window_index != w {
                assert(surfaces_of(rest, w, t).len() > 0);
            }
        }
    }
}

/// Captures with the same surfaces in each tab have the same tabs.
proof fn lemma_same_tabs(a: Seq<Surface>, b: Seq<Surface>)
    requires
        forall|w: usize, t: usize| #[trigger] surfaces_of(a, w, t) == surfaces_of(b, w, t),
    ensures
        windows_of(a) == windows_of(b),
        forall|w: usize| #[trigger] tab_plans(a, w) == tab_plans(b, w),
{
    windows_in_order(a);
    windows_in_order(b);
    assert forall|w: usize| #[trigger] windows_of(a).contains(w) implies windows_of(b).contains(
        w,
    ) by {
        lemma_windows_by_surfaces(a, w);
        lemma_windows_by_surfaces(b, w);
        let t = choose|t: usize| (#[trigger] surfaces_of(a, w, t)).len() > 0;
        assert(surfaces_of(b, w, t).len() > 0);
    }
    assert forall|w: usize| #[trigger] windows_of(b).contains(w) implies windows_of(a).contains(
        w,
    ) by {
        lemma_windows_by_surfaces(a, w);
        lemma_windows_by_surfaces(b, w);
        let t = choose|t: usize| (#[trigger] surfaces_of(b, w, t)).len() > 0;
        assert(surfaces_of(a, w, t).len() > 0);
    }
    lemma_increasing_same(windows_of(a), windows_of(b));
    assert forall|w: usize| #[trigger] tab_plans(a, w) == tab_plans(b, w) by {
        assert forall|t: usize| #[trigger] panes_of(a, w, t) == panes_of(b, w, t) && title_of(
            a,
            w,
            t,
        ) == title_of(b, w, t) by {
            assert(surfaces_of(a, w, t) == surfaces_of(b, w, t));
            lemma_tab_of_surfaces(a, w, t);
            lemma_tab_of_surfaces(b, w, t);
        }
        tabs_in_order(a, w);
        tabs_in_order(b, w);
        assert forall|t: usize| #[trigger] tabs_of(a, w).contains(t) implies tabs_of(
            b,
            w,
        ).contains(t) by {
            assert(panes_of(a, w, t) == panes_of(b, w, t));
        }
        assert forall|t: usize| #[trigger] tabs_of(b, w).contains(t) implies tabs_of(
            a,
            w,
        ).contains(t) by {
            assert(panes_of(a, w, t) == panes_of(b, w, t));
        }
        lemma_increasing_same(tabs_of(a, w), tabs_of(b, w));
        assert forall|i: int| 0 <= i < tabs_of(a, w).len() implies #[trigger] tab_plans(a, w)[i]
            == tab_plans(b, w)[i] by {
            let t = tabs_of(a, w)[i];
            assert(panes_of(a, w, t) == panes_of(b, w, t));
        }
        assert(tab_plans(a, w) =~= tab_plans(b, w));
    }
}

/// The same tabs make the same lines.
proof fn lemma_same_lines(
    windows: Seq<CapturedWindow>,
    a: Seq<Surface>,
    b: Seq<Surface>,
    k: int,
)
    requires
        windows_of(a) == windows_of(b),
        forall|w: usize| #[trigger] tab_plans(a, w) == tab_plans(b, w),
    ensures
        windows_lines(windows, a, k) == windows_lines(windows, b, k),
    decreases k,
{
    if k > 0 {
        lemma_same_lines(windows, a, b, k - 1);
        let w = windows_of(a)[k - 1];
        assert(tab_plans(a, w) == tab_plans(b, w));
    }
}

/// `order` lists each of `n` positions once.
pub open spec fn is_order(order: Seq<int>, n: nat) -> bool {
    &&& order.len() == n
    &&& order.no_duplicates()
    &&& forall|i: int| 0 <= i < n ==> 0 <= #[trigger] order[i] < n
    &&& forall|j: int| 0 <= j < n ==> #[trigger] order.contains(j)
}

/// `b` is the capture `a` in another order, in which the surfaces of one tab follow each
/// other as before.
pub open spec fn reordered(a: Seq<Surface>, b: Seq<Surface>, order: Seq<int>) -> bool {
    &&& b.len() == a.len()
    &&& is_order(order, a.len())
    &&& forall|i: int| 0 <= i < b.len() ==> #[trigger] b[i] == a[order[i]]
    &&& forall|i: int, j: int|
        0 <= i < j < b.len() && #[trigger] in_tab(
            b[i],
            b[j].window_index,
            b[j].tab_index,
        ) ==> order[i] < order[j]
}

/// A surface that is taken out leaves the tabs of the others as they are. The last one of
/// a tab is the last there.
proof fn lemma_taken_out(surfaces: Seq<Surface>, k: int, window: usize, tab: usize)
    requires
        0 <= k < surfaces.len(),
        forall|j: int|
            k < j < surfaces.len() && in_tab(surfaces[k], window, tab) ==> !in_tab(
                #[trigger] surfaces[j],
                window,
                tab,
            ),
    ensures
        surfaces_of(surfaces, window, tab) == if in_tab(surfaces[k], window, tab) {
            surfaces_of(surfaces.remove(k), window, tab).push(surfaces[k])
        } else {
            surfaces_of(surfaces.remove(k), window, tab)
        },
    decreases surfaces.len(),
{
    let rest = surfaces.drop_last();
    if k == surfaces.len() - 1 {
        assert(surfaces.remove(k) =~= rest);
    } else {
        assert(surfaces.remove(k).drop_last() =~= rest.remove(k));
        assert(surfaces.remove(k).last() == surfaces.last());
        assert forall|j: int|
            k < j < rest.len() && in_tab(rest[k], window, tab) implies !in_tab(
            #[trigger] rest[j],
            window,
            tab,
        ) by {
            assert(rest[j] == surfaces[j]);
        }
        lemma_taken_out(rest, k, window, tab);
        if in_tab(surfaces[k], window, tab) {
            assert(!in_tab(surfaces[surfaces.len() - 1], window, tab));
        }
    }
}

/// Another order of capture leaves each tab its surfaces in order.
proof fn lemma_reordered_tab(
    a: Seq<Surface>,
    b: Seq<Surface>,
    order: Seq<int>,
    window: usize,
    tab: usize,
)
    requires
        reordered(a, b, order),
    ensures
        surfaces_of(a, window, tab) == surfaces_of(b, window, tab),
    decreases b.len(),
{
    if b.len() > 0 {
        let n = b.len() - 1;
        let k = order[n];
        let c = a.remove(k);
        let d = b.drop_last();
        let other = Seq::new(
            n as nat,
            |i: int| if order[i] > k {
                order[i] - 1
            } else {
                order[i]
            },
        );
        assert(b[n] == a[k]);
        assert(is_order(other, c.len())) by {
            assert forall|i: int| 0 <= i < n implies order[i] != k && 0 <= #[trigger] other[i]
                < n by {
                assert(order[i] != order[n]);
                assert(0 <= order[i] < a.len());
            }
            assert forall|i: int, j: int| 0 <= i < n && 0 <= j < n && i != j implies other[i]
                != other[j] by {
                assert(order[i] != order[n] && order[j] != order[n]);
                assert(order[i] != order[j]);
            }
            assert forall|j: int| 0 <= j < n implies #[trigger] other.contains(j) by {
                let from = if j >= k {
                    j + 1
                } else {
                    j
                };
                assert(order.contains(from));
                let i = choose|i: int| 0 <= i < order.len() && order[i] == from;
                assert(i != n);
                assert(other[i] == j);
            }
        }
        assert(reordered(c, d, other)) by {
            assert forall|i: int| 0 <= i < d.len() implies #[trigger] d[i] == c[other[i]] by {
                assert(b[i] == a[order[i]]);
                assert(order[i] != order[n]);
            }
            assert forall|i: int, j: int|
                0 <= i < j < d.len() && #[trigger] in_tab(
                    d[i],
                    d[j].window_index,
                    d[j].tab_index,
                ) implies other[i] < other[j] by {
                assert(in_tab(b[i], b[j].window_index, b[j].tab_index));
                assert(order[i] != order[n] && order[j] != order[n]);
            }
        }
        lemma_reordered_tab(c, d, other, window, tab);
        assert forall|j: int|
            k < j < a.len() && in_tab(a[k], window, tab) implies !in_tab(
            #[trigger] a[j],
            window,
            tab,
        ) by {
            if in_tab(a[j], window, tab) {
                assert(order.contains(j));
                let i = choose|i: int| 0 <= i < order.len() && order[i] == j;
                assert(b[i] == a[j]);
                assert(i != n);
                assert(in_tab(b[i], b[n].window_index, b[n].tab_index));
            }
        }
        lemma_taken_out(a, k, window, tab);
    }
}

/// Windows and tabs come out by increasing index whatever the order of capture: captures
/// that differ only in it, with the surfaces of each tab in order, give one script.
pub proof fn order_of_capture_is_free(
    windows: Seq<CapturedWindow>,
    a: Seq<Surface>,
    b: Seq<Surface>,
    order: Seq<int>,
)
    requires
        reordered(a, b, order),
    ensures
        restore_script(windows, a) == restore_script(windows, b),
{
    assert forall|w: usize, t: usize| #[trigger] surfaces_of(a, w, t) == surfaces_of(b, w, t) by {
        lemma_reordered_tab(a, b, order, w, t);
    }
    lemma_same_tabs(a, b);
    lemma_same_lines(windows, a, b, windows_of(a).len() as int);
}

// What a capture says of its panes, tabs and windows.
/// The sides of a divider are the panes that end at it or before it, and those that start
/// at it or after it, give or take two points, each in the order of capture.
pub proof fn sides_are_the_panes_beside_the_line(panes: Seq<Pane>, edge: int)
    ensures
        panes_before(panes, Axis::X, edge) == panes.filter(
            |p: Pane| p.x + p.width <= edge + 2,
        ),
        panes_after(panes, Axis::X, edge) == panes.filter(|p: Pane| p.x >= edge - 2),
        panes_before(panes, Axis::Y, edge) == panes.filter(
            |p: Pane| p.y + p.height <= edge + 2,
        ),
        panes_after(panes, Axis::Y, edge) == panes.filter(|p: Pane| p.y >= edge - 2),
    decreases panes.len(),
{
    reveal(Seq::filter);
    if panes.len() > 0 {
        sides_are_the_panes_beside_the_line(panes.drop_last(), edge);
    }
}

/// A line at the end of one of the panes cuts them in two along an axis: the panes on its
/// two sides, neither of them none, are as many as all.
pub open spec fn cuts_at(panes: Seq<Pane>, across: bool, edge: int) -> bool {
    let first = if across {
        panes.filter(|p: Pane| p.x + p.width <= edge + 2)
    } else {
        panes.filter(|p: Pane| p.y + p.height <= edge + 2)
    };
    let second = if across {
        panes.filter(|p: Pane| p.x >= edge - 2)
    } else {
        panes.filter(|p: Pane| p.y >= edge - 2)
    };
    let ends = exists|i: int|
        0 <= i < panes.len() && edge == if across {
            (#[trigger] panes[i]).x + panes[i].width
        } else {
            panes[i].y + panes[i].height
        };
    ends && first.len() > 0 && second.len() > 0 && first.len() + second.len() == panes.len()
}

/// Several panes are split side by side wherever a line cuts left from right, stacked only
/// where none does and one cuts top from bottom, and otherwise the first pane stands for
/// all. The line is the first one that cuts, and the two sides are split again, each by
/// itself.
pub proof fn splits_follow_the_lines(panes: Seq<Pane>)
    requires
        panes.len() > 1,
    ensures
        match split_tree(panes) {
            SplitTree::Vertical(a, b) => exists|edge: int|
                {
                    &&& #[trigger] cuts_at(panes, true, edge)
                    &&& forall|e: int| #[trigger] cuts_at(panes, true, e) ==> edge <= e
                    &&& *a == split_tree(panes.filter(|p: Pane| p.x + p.width <= edge + 2))
                    &&& *b == split_tree(panes.filter(|p: Pane| p.x >= edge - 2))
                },
            SplitTree::Horizontal(a, b) => {
                &&& forall|e: int| !#[trigger] cuts_at(panes, true, e)
                &&& exists|edge: int|
                    {
                        &&& #[trigger] cuts_at(panes, false, edge)
                        &&& forall|e: int| #[trigger] cuts_at(panes, false, e) ==> edge <= e
                        &&& *a == split_tree(panes.filter(|p: Pane| p.y + p.height <= edge + 2))
                        &&& *b == split_tree(panes.filter(|p: Pane| p.y >= edge - 2))
                    }
            },
            SplitTree::Leaf(p) => {
                &&& p == panes[0]
                &&& forall|e: int| !#[trigger] cuts_at(panes, true, e)
                &&& forall|e: int| !#[trigger] cuts_at(panes, false, e)
            },
        },
{
    divider_is_least(panes, Axis::X);
    divider_is_least(panes, Axis::Y);
    assert forall|e: int| #[trigger] cuts_at(panes, true, e) implies divider(panes, Axis::X) is Some
        && divider(panes, Axis::X)->0 <= e by {
        sides_are_the_panes_beside_the_line(panes, e);
        let i = choose|i: int|
            0 <= i < panes.len() && e == (#[trigger] panes[i]).x + panes[i].width;
        assert(pane_end(panes[i], Axis::X) == e);
        assert(splits_at(panes, Axis::X, pane_end(panes[i], Axis::X)));
    }
    assert forall|e: int| #[trigger] cuts_at(panes, false, e) implies divider(
        panes,
        Axis::Y,
    ) is Some && divider(panes, Axis::Y)->0 <= e by {
        sides_are_the_panes_beside_the_line(panes, e);
        let i = choose|i: int|
            0 <= i < panes.len() && e == (#[trigger] panes[i]).y + panes[i].height;
        assert(pane_end(panes[i], Axis::Y) == e);
        assert(splits_at(panes, Axis::Y, pane_end(panes[i], Axis::Y)));
    }
    if let Some(edge) = divider(panes, Axis::X) {
        sides_are_the_panes_beside_the_line(panes, edge);
        let i = choose|i: int|
            0 <= i < panes.len() && pane_end(#[trigger] panes[i], Axis::X) == edge;
        assert(panes[i].x + panes[i].width == edge);
        assert(cuts_at(panes, true, edge));
    }
    if let Some(edge) = divider(panes, Axis::Y) {
        sides_are_the_panes_beside_the_line(panes, edge);
        let i = choose|i: int|
            0 <= i < panes.len() && pane_end(#[trigger] panes[i], Axis::Y) == edge;
        assert(panes[i].y + panes[i].height == edge);
        assert(cuts_at(panes, false, edge));
    }
}

/// A tab has the panes of all its surfaces, none left out and none twice, in the order of
/// capture, each with its directory and its place; and it has the title of its last
/// surface.
pub proof fn tabs_hold_their_surfaces(surfaces: Seq<Surface>, window: usize, tab: usize)
    ensures
        ({
            let own = surfaces.filter(
                |s: Surface| s.window_index == window && s.tab_index == tab,
            );
            let panes = panes_of(surfaces, window, tab);
            &&& panes.len() == own.len()
            &&& forall|i: int|
                0 <= i < own.len() ==> {
                    &&& (#[trigger] panes[i]).dir == own[i].working_dir
                    &&& panes[i].x == own[i].rect.x && panes[i].y == own[i].rect.y
                    &&& panes[i].width == own[i].rect.width && panes[i].height
                        == own[i].rect.height
                }
            &&& title_of(surfaces, window, tab) == if own.len() == 0 {
                seq![]
            } else {
                own.last().title
            }
        }),
    decreases surfaces.len(),
{
    reveal(Seq::filter);
    let mine = |s: Surface| s.window_index == window && s.tab_index == tab;
    let own = surfaces.filter(mine);
    let panes = panes_of(surfaces, window, tab);
    if surfaces.len() > 0 {
        let front = surfaces.drop_last();
        tabs_hold_their_surfaces(front, window, tab);
        let before = front.filter(mine);
        assert forall|i: int| 0 <= i < own.len() implies {
            &&& (#[trigger] panes[i]).dir == own[i].working_dir
            &&& panes[i].x == own[i].rect.x && panes[i].y == own[i].rect.y
            &&& panes[i].width == own[i].rect.width && panes[i].height == own[i].rect.height
        } by {
            if i < before.len() {
                assert(own[i] == before[i]);
                assert(panes[i] == panes_of(front, window, tab)[i]);
            }
        }
    }
}

/// The tabs of a window are those of its surfaces, by increasing index, each restored from
/// its own surfaces alone.
pub proof fn windows_hold_their_tabs(surfaces: Seq<Surface>, window: usize, k: int)
    requires
        0 <= k < tabs_of(surfaces, window).len(),
    ensures
        ({
            let tab = tabs_of(surfaces, window)[k];
            let own = surfaces.filter(
                |s: Surface| s.window_index == window && s.tab_index == tab,
            );
            let plan = tab_plans(surfaces, window)[k];
            &&& own.len() > 0
            &&& plan.title == own.last().title
            &&& plan.tree == split_tree(
                own.map_values(
                    |s: Surface|
                        Pane {
                            dir: s.working_dir,
                            x: s.rect.x as int,
                            y: s.rect.y as int,
                            width: s.rect.width as int,
                            height: s.rect.height as int,
                        },
                ),
            )
            &&& tab_plans(surfaces, window).len() == tabs_of(surfaces, window).len()
        }),
{
    let tab = tabs_of(surfaces, window)[k];
    let own = surfaces.filter(|s: Surface| s.window_index == window && s.tab_index == tab);
    tabs_in_order(surfaces, window);
    tabs_hold_their_surfaces(surfaces, window, tab);
    assert(tabs_of(surfaces, window).contains(tab));
    let panes = panes_of(surfaces, window, tab);
    let wanted = own.map_values(
        |s: Surface|
            Pane {
                dir: s.working_dir,
                x: s.rect.x as int,
                y: s.rect.y as int,
                width: s.rect.width as int,
                height: s.rect.height as int,
            },
    );
    assert forall|i: int| 0 <= i < panes.len() implies panes[i] == wanted[i] by {
        assert(panes[i].dir == own[i].working_dir);
    }
    assert(panes =~= wanted);
}

/// The frame of a window is the one that was captured last for its index, and there is none
/// where none was.
pub proof fn frames_are_those_captured(windows: Seq<CapturedWindow>, window: usize)
    ensures
        ({
            let own = windows.filter(|w: CapturedWindow| w.window_index == window);
            frame_of(windows, window) == if own.len() == 0 {
                None
            } else {
                Some(own.last().frame)
            }
        }),
    decreases windows.len(),
{
    reveal(Seq::filter);
    if windows.len() > 0 {
        frames_are_those_captured(windows.drop_last(), window);
    }
}

// Several windows.
/// Two lines that do the same, to things that may be called otherwise: they make a
/// configuration, give one the same directory, open or name a window or a tab, set the same
/// title, or split in the same direction.
pub open spec fn alike(a: Seq<char>, b: Seq<char>) -> bool {
    ||| a == b
    ||| exists|m: Seq<char>, n: Seq<char>|
        a == #[trigger] config_line(m) && b == #[trigger] config_line(n)
    ||| exists|m: Seq<char>, n: Seq<char>, dir: Seq<char>|
        a == #[trigger] dir_line(m, dir) && b == #[trigger] dir_line(n, dir)
    ||| exists|m: Seq<char>, n: Seq<char>, title: Seq<char>|
        a == #[trigger] title_line(m, title) && b == #[trigger] title_line(n, title)
    ||| exists|m: Seq<char>, n: Seq<char>, v: Seq<char>, w: Seq<char>, right: bool|
        a == #[trigger] split_line(m, v, right) && b == #[trigger] split_line(n, w, right)
    ||| exists|m: Seq<char>, n: Seq<char>, v: Seq<char>, w: Seq<char>|
        a == #[trigger] new_window_line(v, m) && b == #[trigger] new_window_line(w, n)
    ||| exists|m: Seq<char>, n: Seq<char>, v: Seq<char>, w: Seq<char>|
        a == #[trigger] window_root_line(v, m) && b == #[trigger] window_root_line(w, n)
    ||| exists|m: Seq<char>, n: Seq<char>, t: Seq<char>, u: Seq<char>, v: Seq<char>, w: Seq<char>|
        a == #[trigger] new_tab_line(t, v, m) && b == #[trigger] new_tab_line(u, w, n)
    ||| exists|m: Seq<char>, n: Seq<char>, t: Seq<char>, u: Seq<char>|
        a == #[trigger] tab_root_line(t, m) && b == #[trigger] tab_root_line(u, n)
}

/// Lines that do the same, one by one.
pub open spec fn all_alike(a: Seq<Seq<char>>, b: Seq<Seq<char>>) -> bool {
    a.len() == b.len() && forall|i: int| 0 <= i < a.len() ==> alike(#[trigger] a[i], b[i])
}

/// Lists of lines that do the same, one behind the other.
proof fn lemma_alike_add(
    a: Seq<Seq<char>>,
    b: Seq<Seq<char>>,
    c: Seq<Seq<char>>,
    d: Seq<Seq<char>>,
)
    requires
        all_alike(a, b),
        all_alike(c, d),
    ensures
        all_alike(a + c, b + d),
{
    assert forall|i: int| 0 <= i < (a + c).len() implies alike(#[trigger] (a + c)[i], (b + d)[i]) by {
        if i < a.len() {
            assert(alike(a[i], b[i]));
        } else {
            assert(alike(c[i - a.len()], d[i - a.len()]));
        }
    }
}

/// Making a configuration for a directory.
proof fn lemma_configs_alike(m: Seq<char>, n: Seq<char>, dir: Seq<char>)
    ensures
        all_alike(config_lines(m, dir), config_lines(n, dir)),
{
    let a = config_lines(m, dir);
    let b = config_lines(n, dir);
    assert forall|i: int| 0 <= i < a.len() implies alike(#[trigger] a[i], b[i]) by {
        if i == 1 {
            assert(a[1] == config_line(m) && b[1] == config_line(n));
        } else if i == 2 {
            assert(a[2] == dir_line(m, dir) && b[2] == dir_line(n, dir));
        }
    }
}

/// Replaying splits does the same whatever the panes are called.
proof fn lemma_splits_alike(
    tree: SplitTree,
    v: Seq<char>,
    p: Seq<char>,
    w: Seq<char>,
    q: Seq<char>,
    n: nat,
)
    ensures
        all_alike(split_lines(tree, v, p, n), split_lines(tree, w, q, n)),
    decreases tree,
{
    let x = pane_name(p, n);
    let y = pane_name(q, n);
    match tree {
        SplitTree::Leaf(_) => {},
        SplitTree::Vertical(a, b) => {
            lemma_configs_alike(x, y, anchor(*b).dir);
            let f = config_lines(x, anchor(*b).dir);
            let g = config_lines(y, anchor(*b).dir);
            let s = seq![split_line(x, v, true)];
            let t = seq![split_line(y, w, true)];
            assert(alike(s[0], t[0]));
            lemma_alike_add(f, g, s, t);
            assert(f.push(s[0]) =~= f + s && g.push(t[0]) =~= g + t);
            lemma_splits_alike(*a, v, p, w, q, n + 1);
            lemma_splits_alike(*b, "p"@ + x, p, "p"@ + y, q, n + 1 + split_count(*a));
            lemma_alike_add(
                f + s,
                g + t,
                split_lines(*a, v, p, n + 1),
                split_lines(*a, w, q, n + 1),
            );
            lemma_alike_add(
                f + s + split_lines(*a, v, p, n + 1),
                g + t + split_lines(*a, w, q, n + 1),
                split_lines(*b, "p"@ + x, p, n + 1 + split_count(*a)),
                split_lines(*b, "p"@ + y, q, n + 1 + split_count(*a)),
            );
        },
        SplitTree::Horizontal(a, b) => {
            lemma_configs_alike(x, y, anchor(*b).dir);
            let f = config_lines(x, anchor(*b).dir);
            let g = config_lines(y, anchor(*b).dir);
            let s = seq![split_line(x, v, false)];
            let t = seq![split_line(y, w, false)];
            assert(alike(s[0], t[0]));
            lemma_alike_add(f, g, s, t);
            assert(f.push(s[0]) =~= f + s && g.push(t[0]) =~= g + t);
            lemma_splits_alike(*a, v, p, w, q, n + 1);
            lemma_splits_alike(*b, "p"@ + x, p, "p"@ + y, q, n + 1 + split_count(*a));
            lemma_alike_add(
                f + s,
                g + t,
                split_lines(*a, v, p, n + 1),
                split_lines(*a, w, q, n + 1),
            );
            lemma_alike_add(
                f + s + split_lines(*a, v, p, n + 1),
                g + t + split_lines(*a, w, q, n + 1),
                split_lines(*b, "p"@ + x, p, n + 1 + split_count(*a)),
                split_lines(*b, "p"@ + y, q, n + 1 + split_count(*a)),
            );
        },
    }
}

/// A tab is restored by lines that do the same, in whichever window it is.
proof fn lemma_tab_alike(tab: TabPlan, m: bool, w: usize, o: bool, v: usize, i: nat, n: nat)
    ensures
        all_alike(tab_lines(tab, m, w, i, n), tab_lines(tab, o, v, i, n)),
{
    let p = var_prefix(m, w);
    let q = var_prefix(o, v);
    let x = pane_name(p, n);
    let y = pane_name(q, n);
    let dir = anchor(tab.tree).dir;
    lemma_configs_alike(x, y, dir);
    let a = root_lines(m, w, i, n);
    let b = root_lines(o, v, i, n);
    assert(all_alike(a, b)) by {
        if i == 0 {
            assert(a[0] == new_window_line(window_var(m, w), x));
            assert(b[0] == new_window_line(window_var(o, v), y));
            assert(a[1] == window_root_line(window_var(m, w), x));
            assert(b[1] == window_root_line(window_var(o, v), y));
            assert(alike(a[0], b[0]));
            assert(alike(a[1], b[1]));
        } else {
            let t = tab_var(tab_group(m, w), i);
            let u = tab_var(tab_group(o, v), i);
            assert(a[0] == new_tab_line(t, window_var(m, w), x));
            assert(b[0] == new_tab_line(u, window_var(o, v), y));
            assert(a[1] == tab_root_line(t, x));
            assert(b[1] == tab_root_line(u, y));
            assert(alike(a[0], b[0]));
            assert(alike(a[1], b[1]));
        }
    }
    let c = if tab.title.len() > 0 {
        seq![title_line(x, tab.title)]
    } else {
        seq![]
    };
    let d = if tab.title.len() > 0 {
        seq![title_line(y, tab.title)]
    } else {
        seq![]
    };
    assert(all_alike(c, d)) by {
        if tab.title.len() > 0 {
            assert(alike(c[0], d[0]));
        }
    }
    lemma_splits_alike(tab.tree, "p"@ + x, p, "p"@ + y, q, n + 1);
    lemma_alike_add(config_lines(x, dir), config_lines(y, dir), a, b);
    lemma_alike_add(config_lines(x, dir) + a, config_lines(y, dir) + b, c, d);
    lemma_alike_add(
        config_lines(x, dir) + a + c,
        config_lines(y, dir) + b + d,
        split_lines(tab.tree, "p"@ + x, p, n + 1),
        split_lines(tab.tree, "p"@ + y, q, n + 1),
    );
}

/// The tabs of a window of several are restored by lines that do the same as those of a
/// window alone: the same directories, titles and splits, in the same order. Only the names
/// of the variables differ.
pub proof fn several_windows_are_restored_like_one(
    tabs: Seq<TabPlan>,
    window: usize,
    alone: usize,
    k: int,
)
    ensures
        all_alike(tabs_lines(tabs, true, window, k), tabs_lines(tabs, false, alone, k)),
    decreases k,
{
    if k > 0 {
        several_windows_are_restored_like_one(tabs, window, alone, k - 1);
        lemma_tab_alike(
            tabs[k - 1],
            true,
            window,
            false,
            alone,
            (k - 1) as nat,
            first_pane(tabs, k - 1),
        );
        lemma_alike_add(
            tabs_lines(tabs, true, window, k - 1),
            tabs_lines(tabs, false, alone, k - 1),
            tab_lines(tabs[k - 1], true, window, (k - 1) as nat, first_pane(tabs, k - 1)),
            tab_lines(tabs[k - 1], false, alone, (k - 1) as nat, first_pane(tabs, k - 1)),
        );
    }
}

} // verus!
