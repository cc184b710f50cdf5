//! A tab's panes as a picture of characters.

use vstd::prelude::*;

use crate::layout::{WorkspacePaneLayout, WorkspaceTabLayout, PaneTree};
use crate::lines::fit_text;
use crate::text::{chars_of, string_of, trim_end_char_slice};
use crate::workspace::file_name_slice;

verus! {

/// The label of a pane: the last name of its directory.
pub open spec fn pane_label(dir: Seq<char>) -> Seq<char> {
    let trimmed = crate::text::trim_end_char(dir, '/');
    if trimmed.len() == 0 {
        "/"@
    } else {
        match crate::workspace::file_name(trimmed) {
            Some(name) => name,
            None => trimmed,
        }
    }
}

/// The label of a pane.
pub fn working_dir_label(working_dir: &str) -> (r: String)
    ensures
        r@ == pane_label(working_dir@),
{
    let chars = chars_of(working_dir);
    let trimmed = trim_end_char_slice(chars.as_slice(), '/');
    if trimmed.len() == 0 {
        return "/".to_string();
    }
    match file_name_slice(trimmed) {
        Some(name) => string_of(name),
        None => string_of(trimmed),
    }
}

/// The character at a cell of the picture of panes: a label in the middle of each pane,
/// and a line between two panes. A split that has no room for both shows its first pane.
pub open spec fn pane_cell(tree: PaneTree, w: int, h: int, x: int, y: int) -> char
    decreases tree,
{
    match tree {
        PaneTree::Leaf(dir) => {
            let label = crate::lines::fitted(pane_label(dir), w);
            let start = (w - label.len()) / 2;
            if y == h / 2 && start <= x < start + label.len() {
                label[x - start]
            } else {
                ' '
            }
        },
        PaneTree::SplitRight(left, right) => if w < 3 {
            pane_cell(*left, w, h, x, y)
        } else {
            let left_w = (w - 1) / 2;
            if x < left_w {
                pane_cell(*left, left_w, h, x, y)
            } else if x == left_w {
                '|'
            } else {
                pane_cell(*right, w - 1 - left_w, h, x - left_w - 1, y)
            }
        },
        PaneTree::SplitDown(top, bottom) => if h < 3 {
            pane_cell(*top, w, h, x, y)
        } else {
            let top_h = (h - 1) / 2;
            if y < top_h {
                pane_cell(*top, w, top_h, x, y)
            } else if y == top_h {
                '-'
            } else {
                pane_cell(*bottom, w, h - 1 - top_h, x, y - top_h - 1)
            }
        },
    }
}

/// The character at a cell of a tab's picture: the panes in a frame.
pub open spec fn tab_cell(tree: PaneTree, w: int, h: int, x: int, y: int) -> char {
    let side = x == 0 || x == w - 1;
    if y == 0 || y == h - 1 {
        if side {
            '+'
        } else {
            '-'
        }
    } else if side {
        '|'
    } else {
        pane_cell(tree, w - 2, h - 2, x - 1, y - 1)
    }
}

/// A tab's picture, row by row.
pub open spec fn tab_picture(tree: PaneTree, w: int, h: int) -> Seq<Seq<char>> {
    Seq::new(h as nat, |y: int| Seq::new(w as nat, |x: int| tab_cell(tree, w, h, x, y)))
}

/// The cells of a picture that is being drawn.
pub open spec fn drawn(buf: Seq<Vec<char>>, x: int, y: int) -> char {
    buf[y]@[x]
}

/// A picture of `w` by `h` cells.
pub open spec fn sized(buf: Seq<Vec<char>>, w: int, h: int) -> bool {
    buf.len() == h && forall|y: int| 0 <= y < h ==> (#[trigger] buf[y])@.len() == w
}

/// A cell of a part of a picture.
pub open spec fn within(x: int, y: int, w: int, h: int, cx: int, cy: int) -> bool {
    x <= cx < x + w && y <= cy < y + h
}

/// Puts a character into a cell.
fn put(buf: &mut Vec<Vec<char>>, x: usize, y: usize, c: char)
    requires
        y < old(buf)@.len(),
        x < old(buf)@[y as int]@.len(),
    ensures
        final(buf)@.len() == old(buf)@.len(),
        forall|i: int|
            0 <= i < old(buf)@.len() ==> (#[trigger] final(buf)@[i])@.len()
                == old(buf)@[i]@.len(),
        forall|cx: int, cy: int|
            #![trigger drawn(final(buf)@, cx, cy)]
            0 <= cy < old(buf)@.len() && 0 <= cx < old(buf)@[cy]@.len() ==> drawn(
                final(buf)@,
                cx,
                cy,
            ) == if cx == x && cy == y {
                c
            } else {
                drawn(old(buf)@, cx, cy)
            },
{
    let row = &mut buf[y];
    row.set(x, c);
}

/// Draws panes into a part of a picture that is blank.
fn render_pane_layout_ascii(
    layout: &WorkspacePaneLayout,
    x: usize,
    y: usize,
    w: usize,
    h: usize,
    buf: &mut Vec<Vec<char>>,
    Ghost(width): Ghost<int>,
    Ghost(height): Ghost<int>,
)
    requires
        sized(old(buf)@, width, height),
        x + w <= width,
        y + h <= height,
        width <= usize::MAX,
        height <= usize::MAX,
        forall|cx: int, cy: int|
            within(x as int, y as int, w as int, h as int, cx, cy) ==> #[trigger] drawn(
                old(buf)@,
                cx,
                cy,
            ) == ' ',
    ensures
        sized(final(buf)@, width, height),
        forall|cx: int, cy: int|
            #![trigger drawn(final(buf)@, cx, cy)]
            0 <= cx < width && 0 <= cy < height ==> drawn(final(buf)@, cx, cy) == if within(
                x as int,
                y as int,
                w as int,
                h as int,
                cx,
                cy,
            ) {
                pane_cell(
                    crate::layout::pane_tree(*layout),
                    w as int,
                    h as int,
                    cx - x,
                    cy - y,
                )
            } else {
                drawn(old(buf)@, cx, cy)
            },
    decreases layout,
{
    if w == 0 || h == 0 {
        return;
    }
    match layout {
        WorkspacePaneLayout::Leaf { working_dir } => {
            let label = working_dir_label(working_dir.as_str());
            let shown = fit_text(label.as_str(), w);
            let chars = chars_of(shown.as_str());
            proof {
                crate::lines::fitted_text_fits(label@, w as int);
            }
            let row: usize = y + h / 2;
            let start: usize = x + (w - chars.len()) / 2;
            let ghost begin = buf@;
            for i in 0..chars.len()
                invariant
                    sized(begin, width, height),
                    sized(buf@, width, height),
                    row < height,
                    width <= usize::MAX,
                    start + chars@.len() <= x + w <= width,
                    forall|cx: int, cy: int|
                        #![trigger drawn(buf@, cx, cy)]
                        0 <= cx < width && 0 <= cy < height ==> drawn(buf@, cx, cy) == if cy
                            == row && start <= cx < start + i {
                            chars@[cx - start]
                        } else {
                            drawn(begin, cx, cy)
                        },
            {
                put(buf, start + i, row, chars[i]);
            }
        },
        WorkspacePaneLayout::SplitRight { left, right } => {
            if w < 3 {
                render_pane_layout_ascii(left, x, y, w, h, buf, Ghost(width), Ghost(height));
                return;
            }
            let left_w: usize = (w - 1) / 2;
            let right_w: usize = w - 1 - left_w;
            let split_x: usize = x + left_w;
            let ghost begin = buf@;
            for yy in y..y + h
                invariant
                    sized(begin, width, height),
                    sized(buf@, width, height),
                    y + h <= height,
                    height <= usize::MAX,
                    x <= split_x < x + w <= width,
                    forall|cx: int, cy: int|
                        within(x as int, y as int, w as int, h as int, cx, cy)
                            ==> #[trigger] drawn(begin, cx, cy) == ' ',
                    forall|cx: int, cy: int|
                        #![trigger drawn(buf@, cx, cy)]
                        0 <= cx < width && 0 <= cy < height ==> drawn(buf@, cx, cy) == if cx
                            == split_x && y <= cy < yy {
                            '|'
                        } else {
                            drawn(begin, cx, cy)
                        },
            {
                put(buf, split_x, yy, '|');
            }
            render_pane_layout_ascii(left, x, y, left_w, h, buf, Ghost(width), Ghost(height));
            render_pane_layout_ascii(
                right,
                split_x + 1,
                y,
                right_w,
                h,
                buf,
                Ghost(width),
                Ghost(height),
            );
        },
        WorkspacePaneLayout::SplitDown { top, bottom } => {
            if h < 3 {
                render_pane_layout_ascii(top, x, y, w, h, buf, Ghost(width), Ghost(height));
                return;
            }
            let top_h: usize = (h - 1) / 2;
            let bottom_h: usize = h - 1 - top_h;
            let split_y: usize = y + top_h;
            let ghost begin = buf@;
            for xx in x..x + w
                invariant
                    sized(begin, width, height),
                    sized(buf@, width, height),
                    x + w <= width,
                    width <= usize::MAX,
                    y <= split_y < y + h <= height,
                    forall|cx: int, cy: int|
                        #![trigger drawn(buf@, cx, cy)]
                        0 <= cx < width && 0 <= cy < height ==> drawn(buf@, cx, cy) == if cy
                            == split_y && x <= cx < xx {
                            '-'
                        } else {
                            drawn(begin, cx, cy)
                        },
            {
                put(buf, xx, split_y, '-');
            }
            render_pane_layout_ascii(top, x, y, w, top_h, buf, Ghost(width), Ghost(height));
            render_pane_layout_ascii(
                bottom,
                x,
                split_y + 1,
                w,
                bottom_h,
                buf,
                Ghost(width),
                Ghost(height),
            );
        },
    }
}

/// A tab's picture: at least eight columns and three rows.
pub fn render_tab_layout_ascii(tab: &WorkspaceTabLayout, width: usize, height: usize) -> (r: Vec<
    String,
>)
    ensures
        crate::text::string_views(r@) == tab_picture(
            crate::layout::pane_tree(tab.root),
            crate::geometry::max(width as int, 8),
            crate::geometry::max(height as int, 3),
        ),
{
    let w: usize = if width > 8 {
        width
    } else {
        8
    };
    let h: usize = if height > 3 {
        height
    } else {
        3
    };
    let mut buf: Vec<Vec<char>> = Vec::new();
    for y in 0..h
        invariant
            w >= 8,
            h >= 3,
            sized(buf@, w as int, y as int),
            forall|cx: int, cy: int|
                #![trigger drawn(buf@, cx, cy)]
                0 <= cx < w && 0 <= cy < y ==> drawn(buf@, cx, cy) == if 1 <= cx < w - 1 && 1
                    <= cy < h - 1 {
                    ' '
                } else {
                    tab_cell(crate::layout::pane_tree(tab.root), w as int, h as int, cx, cy)
                },
    {
        let mut row: Vec<char> = Vec::new();
        for x in 0..w
            invariant
                w >= 8,
                h >= 3,
                y < h,
                row@.len() == x,
                forall|cx: int|
                    0 <= cx < x ==> #[trigger] row@[cx] == if 1 <= cx < w - 1 && 1 <= y < h
                        - 1 {
                        ' '
                    } else {
                        tab_cell(
                            crate::layout::pane_tree(tab.root),
                            w as int,
                            h as int,
                            cx,
                            y as int,
                        )
                    },
        {
            let side = x == 0 || x == w - 1;
            if y == 0 || y == h - 1 {
                row.push(
                    if side {
                        '+'
                    } else {
                        '-'
                    },
                );
            } else if side {
                row.push('|');
            } else {
                row.push(' ');
            }
        }
        let ghost before = buf@;
        buf.push(row);
        assert forall|cx: int, cy: int|
            #![trigger drawn(buf@, cx, cy)]
            0 <= cx < w && 0 <= cy < y + 1 implies drawn(buf@, cx, cy) == (if 1 <= cx < w - 1
            && 1 <= cy < h - 1 {
            ' '
        } else {
            tab_cell(crate::layout::pane_tree(tab.root), w as int, h as int, cx, cy)
        }) by {
            if cy < y {
                assert(drawn(before, cx, cy) == drawn(buf@, cx, cy));
            }
        }
    }
    let ghost framed = buf@;
    render_pane_layout_ascii(
        &tab.root,
        1,
        1,
        w - 2,
        h - 2,
        &mut buf,
        Ghost(w as int),
        Ghost(h as int),
    );
    let mut out: Vec<String> = Vec::new();
    let ghost tree = crate::layout::pane_tree(tab.root);
    assert forall|cx: int, cy: int|
        #![trigger drawn(buf@, cx, cy)]
        0 <= cx < w && 0 <= cy < h implies drawn(buf@, cx, cy) == tab_cell(
        tree,
        w as int,
        h as int,
        cx,
        cy,
    ) by {
        assert(drawn(framed, cx, cy) == drawn(framed, cx, cy));
    }
    for y in 0..h
        invariant
            sized(buf@, w as int, h as int),
            out@.len() == y,
            forall|cx: int, cy: int|
                #![trigger drawn(buf@, cx, cy)]
                0 <= cx < w && 0 <= cy < h ==> drawn(buf@, cx, cy) == tab_cell(
                    tree,
                    w as int,
                    h as int,
                    cx,
                    cy,
                ),
            forall|cy: int|
                0 <= cy < y ==> (#[trigger] out@[cy])@ == tab_picture(
                    tree,
                    w as int,
                    h as int,
                )[cy],
    {
        let text = string_of(buf[y].as_slice());
        assert(text@ =~= tab_picture(tree, w as int, h as int)[y as int]) by {
            assert forall|cx: int| 0 <= cx < w implies text@[cx] == tab_cell(
                tree,
                w as int,
                h as int,
                cx,
                y as int,
            ) by {
                assert(drawn(buf@, cx, y as int) == text@[cx]);
            }
        }
        out.push(text);
    }
    assert(crate::text::string_views(out@) =~= tab_picture(tree, w as int, h as int));
    out
}

/// A picture has the size that was asked for, and a frame around it, whatever the panes
/// are.
pub proof fn pictures_are_framed(tree: PaneTree, w: int, h: int, x: int, y: int)
    requires
        w >= 8,
        h >= 3,
        0 <= x < w,
        0 <= y < h,
    ensures
        tab_picture(tree, w, h).len() == h,
        tab_picture(tree, w, h)[y].len() == w,
        x == 0 || x == w - 1 || y == 0 || y == h - 1 ==> {
            let corner = (x == 0 || x == w - 1) && (y == 0 || y == h - 1);
            tab_picture(tree, w, h)[y][x] == if corner {
                '+'
            } else if y == 0 || y == h - 1 {
                '-'
            } else {
                '|'
            }
        },
{
}

/// The label of the only pane of a tab stands whole in the middle row, where it fits.
pub proof fn single_pane_is_labelled(dir: Seq<char>, w: int, h: int)
    requires
        h >= 1,
        pane_label(dir).len() <= w,
    ensures
        ({
            let start = (w - pane_label(dir).len()) / 2;
            forall|i: int|
                0 <= i < pane_label(dir).len() ==> pane_cell(
                    PaneTree::Leaf(dir),
                    w,
                    h,
                    start + i,
                    h / 2,
                ) == #[trigger] pane_label(dir)[i]
        }),
{
}

/// The picture of two panes side by side is a line in the middle, the picture of the left
/// one beside it and that of the right one behind it; that of two panes one above the other
/// is likewise a line with their pictures above and below.
pub proof fn pictures_show_both_sides(
    a: PaneTree,
    b: PaneTree,
    w: int,
    h: int,
    x: int,
    y: int,
)
    requires
        w >= 3,
        h >= 3,
        0 <= x < w,
        0 <= y < h,
    ensures
        ({
            let beside = PaneTree::SplitRight(Box::new(a), Box::new(b));
            let stacked = PaneTree::SplitDown(Box::new(a), Box::new(b));
            let mid = (w - 1) / 2;
            let half = (h - 1) / 2;
            &&& pane_cell(beside, w, h, mid, y) == '|'
            &&& x < mid ==> pane_cell(beside, w, h, x, y) == pane_cell(a, mid, h, x, y)
            &&& x > mid ==> pane_cell(beside, w, h, x, y) == pane_cell(
                b,
                w - mid - 1,
                h,
                x - mid - 1,
                y,
            )
            &&& pane_cell(stacked, w, h, x, half) == '-'
            &&& y < half ==> pane_cell(stacked, w, h, x, y) == pane_cell(a, w, half, x, y)
            &&& y > half ==> pane_cell(stacked, w, h, x, y) == pane_cell(
                b,
                w,
                h - half - 1,
                x,
                y - half - 1,
            )
        }),
{
}

/// A pane is labelled by the last name of its directory, whether or not slashes follow it;
/// the root directory is `/`.
pub proof fn panes_are_labelled_by_directory(parent: Seq<char>, name: Seq<char>)
    requires
        crate::path::plain_name(name),
        name != seq!['.', '.'],
    ensures
        pane_label(parent + seq!['/'] + name) == name,
        pane_label(parent + seq!['/'] + name + seq!['/']) == name,
        pane_label(seq!['/']) == seq!['/'],
        pane_label(name) == name,
{
    reveal_strlit("/");
    reveal_strlit(".");
    reveal_strlit("..");
    assert("/"@ =~= seq!['/']);
    assert("."@ =~= seq!['.']);
    assert(".."@ =~= seq!['.', '.']);
    let a = parent + seq!['/'] + name;
    let b = a + seq!['/'];
    assert(a.last() == name.last());
    assert(name.last() != '/') by {
        assert(name[name.len() - 1] == name.last());
    }
    assert(crate::text::trim_end_char(a, '/') == a);
    assert(b.drop_last() =~= a);
    assert(crate::text::trim_end_char(b, '/') == crate::text::trim_end_char(a, '/'));
    assert(seq!['/'].drop_last() =~= Seq::<char>::empty());
    assert(crate::text::trim_end_char(seq!['/'], '/') == crate::text::trim_end_char(
        Seq::<char>::empty(),
        '/',
    ));
    assert(crate::text::trim_end_char(name, '/') == name);
    crate::workspace::lemma_split_back(parent, name);
    crate::text::lemma_split_whole(name, '/');
    assert(crate::text::split(parent, '/').push(name).last() == name);
    assert(seq![name].last() == name);
}

/// A pane's picture is blank beside its label.
pub proof fn panes_are_blank_beside_labels(dir: Seq<char>, w: int, h: int, x: int, y: int)
    requires
        pane_label(dir).len() <= w,
        y != h / 2 || x < (w - pane_label(dir).len()) / 2 || x >= (w - pane_label(dir).len()) / 2
            + pane_label(dir).len(),
    ensures
        pane_cell(PaneTree::Leaf(dir), w, h, x, y) == ' ',
{
    crate::lines::fitted_text_fits(pane_label(dir), w);
}

} // verus!
