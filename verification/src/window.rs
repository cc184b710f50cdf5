//! Windows: their frames, as the Accessibility API reports them, and their ids.

use vstd::prelude::*;

use crate::applescript::apple_escape;
use crate::error::Error;
use crate::number::{i32_string, parse_i32};
use crate::text::{chars_of, lines_slice, precedes, same_str, split_slice, string_of, trim_slice};

verus! {

/// The position and size of a window on screen.
#[derive(Clone, Copy, Debug, PartialEq, Eq, Structural)]
pub struct WindowFrame {
    pub x: i32,
    pub y: i32,
    pub width: i32,
    pub height: i32,
}

impl WindowFrame {
    /// A frame of the given position and size.
    pub fn new(x: i32, y: i32, width: i32, height: i32) -> (r: Self)
        ensures
            r == (WindowFrame { x, y, width, height }),
    {
        Self { x, y, width, height }
    }
}

/// The frame that a line stands for: x, y, width and height, apart by tabs.
pub open spec fn window_frame(raw: Seq<char>) -> Result<WindowFrame, Error> {
    let parts = crate::text::split(crate::text::trim(raw), '\t');
    if parts.len() != 4 {
        Err(Error::FrameUnreadable)
    } else {
        match (
            crate::number::parse_signed(crate::text::trim(parts[0])),
            crate::number::parse_signed(crate::text::trim(parts[1])),
            crate::number::parse_signed(crate::text::trim(parts[2])),
            crate::number::parse_signed(crate::text::trim(parts[3])),
        ) {
            (None, _, _, _) => Err(Error::FrameX),
            (_, None, _, _) => Err(Error::FrameY),
            (_, _, None, _) => Err(Error::FrameWidth),
            (_, _, _, None) => Err(Error::FrameHeight),
            (Some(x), Some(y), Some(width), Some(height)) => if width <= 0 || height <= 0 {
                Err(Error::FrameNotPositive)
            } else {
                Ok(
                    WindowFrame {
                        x: x as i32,
                        y: y as i32,
                        width: width as i32,
                        height: height as i32,
                    },
                )
            },
        }
    }
}

/// Reads a window's frame.
pub fn parse_window_frame(raw: &str) -> (r: Result<WindowFrame, Error>)
    ensures
        r == window_frame(raw@),
{
    let raw_chars = chars_of(raw);
    let parts = split_slice(trim_slice(raw_chars.as_slice()), '\t');
    assert(crate::text::views(parts@).len() == parts.len());
    if parts.len() != 4 {
        return Err(Error::FrameUnreadable);
    }
    let x = match parse_i32(trim_slice(parts[0])) {
        Some(x) => x,
        None => {
            return Err(Error::FrameX);
        },
    };
    let y = match parse_i32(trim_slice(parts[1])) {
        Some(y) => y,
        None => {
            return Err(Error::FrameY);
        },
    };
    let width = match parse_i32(trim_slice(parts[2])) {
        Some(width) => width,
        None => {
            return Err(Error::FrameWidth);
        },
    };
    let height = match parse_i32(trim_slice(parts[3])) {
        Some(height) => height,
        None => {
            return Err(Error::FrameHeight);
        },
    };
    if width <= 0 || height <= 0 {
        return Err(Error::FrameNotPositive);
    }
    Ok(WindowFrame { x, y, width, height })
}

/// The script that moves a window to a frame. Where no window has the id, it moves the
/// first one.
pub open spec fn reposition_script(id: Seq<char>, frame: WindowFrame) -> Seq<char> {
    "tell application \"System Events\"\n  tell process \"Ghostty\"\n    set matchingWindow to missing value\n    repeat with candidate in windows\n      try\n        if value of attribute \"AXIdentifier\" of candidate is \""@ + crate::applescript::escaped(id)
        + "\" then\n          set matchingWindow to candidate\n          exit repeat\n        end if\n      end try\n    end repeat\n    if matchingWindow is missing value then\n      if (count of windows) is 0 then error \"Ghostty has no visible window\"\n      set matchingWindow to window 1\n    end if\n    set position of matchingWindow to {"@
        + crate::number::signed_decimal(frame.x as int) + ", "@ + crate::number::signed_decimal(
        frame.y as int,
    ) + "}\n    set size of matchingWindow to {"@ + crate::number::signed_decimal(frame.width as int) + ", "@
        + crate::number::signed_decimal(frame.height as int) + "}\n  end tell\nend tell"@
}

/// Builds the script that moves a window to a frame.
pub fn build_reposition_script(window_id: &str, frame: &WindowFrame) -> (r: String)
    ensures
        r@ == reposition_script(window_id@, *frame),
{
    let mut out =
        "tell application \"System Events\"\n  tell process \"Ghostty\"\n    set matchingWindow to missing value\n    repeat with candidate in windows\n      try\n        if value of attribute \"AXIdentifier\" of candidate is \"".to_string();
    out.append(apple_escape(window_id).as_str());
    out.append(
        "\" then\n          set matchingWindow to candidate\n          exit repeat\n        end if\n      end try\n    end repeat\n    if matchingWindow is missing value then\n      if (count of windows) is 0 then error \"Ghostty has no visible window\"\n      set matchingWindow to window 1\n    end if\n    set position of matchingWindow to {",
    );
    out.append(i32_string(frame.x).as_str());
    out.append(", ");
    out.append(i32_string(frame.y).as_str());
    out.append("}\n    set size of matchingWindow to {");
    out.append(i32_string(frame.width).as_str());
    out.append(", ");
    out.append(i32_string(frame.height).as_str());
    out.append("}\n  end tell\nend tell");
    out
}

// Window ids.
/// `id` put into a list in the order of texts, unless it is there already.
pub open spec fn insert_id(ids: Seq<Seq<char>>, id: Seq<char>) -> Seq<Seq<char>>
    decreases ids.len(),
{
    if ids.len() == 0 {
        seq![id]
    } else if id == ids[0] {
        ids
    } else if crate::text::comes_before(id, ids[0]) {
        seq![id] + ids
    } else {
        seq![ids[0]] + insert_id(ids.skip(1), id)
    }
}

/// The ids on these lines, without white space around them and without blank ones: in
/// the order of texts, each once.
pub open spec fn ids_of(lines: Seq<Seq<char>>) -> Seq<Seq<char>>
    decreases lines.len(),
{
    if lines.len() == 0 {
        seq![]
    } else {
        let rest = ids_of(lines.drop_last());
        let id = crate::text::trim(lines.last());
        if id.len() == 0 {
            rest
        } else {
            insert_id(rest, id)
        }
    }
}

/// The window ids that a script printed.
pub open spec fn window_ids(output: Seq<char>) -> Seq<Seq<char>> {
    ids_of(crate::text::lines(output))
}

/// Each id comes before those behind it.
pub open spec fn ids_ordered(ids: Seq<Seq<char>>) -> bool {
    forall|i: int, j: int| 0 <= i < j < ids.len() ==> crate::text::comes_before(ids[i], ids[j])
}

/// Inserting an id keeps the order and adds that id alone.
proof fn lemma_insert_id(ids: Seq<Seq<char>>, id: Seq<char>)
    requires
        ids_ordered(ids),
    ensures
        ids_ordered(insert_id(ids, id)),
        forall|x: Seq<char>| #[trigger]
            insert_id(ids, id).contains(x) <==> ids.contains(x) || x == id,
    decreases ids.len(),
{
    let out = insert_id(ids, id);
    if ids.len() == 0 {
        assert(out[0] == id);
    } else if id == ids[0] {
        assert(ids.contains(id));
    } else if crate::text::comes_before(id, ids[0]) {
        assert forall|i: int, j: int| 0 <= i < j < out.len() implies crate::text::comes_before(
            out[i],
            out[j],
        ) by {
            if i > 0 {
                assert(crate::text::comes_before(ids[i - 1], ids[j - 1]));
            } else if j > 1 {
                assert(crate::text::comes_before(ids[0], ids[j - 1]));
                crate::text::order_is_transitive(id, ids[0], ids[j - 1]);
            }
        }
        assert forall|x: Seq<char>| ids.contains(x) || x == id implies #[trigger] out.contains(
            x,
        ) by {
            if ids.contains(x) {
                let i = choose|i: int| 0 <= i < ids.len() && ids[i] == x;
                assert(out[i + 1] == x);
            } else {
                assert(out[0] == x);
            }
        }
        assert forall|x: Seq<char>| #[trigger] out.contains(x) implies ids.contains(x) || x
            == id by {
            let i = choose|i: int| 0 <= i < out.len() && out[i] == x;
            if i > 0 {
                assert(ids[i - 1] == x);
            }
        }
    } else {
        let rest = ids.skip(1);
        assert(ids_ordered(rest)) by {
            assert forall|i: int, j: int|
                0 <= i < j < rest.len() implies crate::text::comes_before(rest[i], rest[j]) by {
                assert(crate::text::comes_before(ids[i + 1], ids[j + 1]));
            }
        }
        lemma_insert_id(rest, id);
        crate::text::order_is_total(id, ids[0]);
        let tail = insert_id(rest, id);
        assert forall|x: Seq<char>| #[trigger] tail.contains(x) implies crate::text::comes_before(
            ids[0],
            x,
        ) by {
            if rest.contains(x) {
                let i = choose|i: int| 0 <= i < rest.len() && rest[i] == x;
                assert(crate::text::comes_before(ids[0], ids[i + 1]));
            }
        }
        assert forall|i: int, j: int| 0 <= i < j < out.len() implies crate::text::comes_before(
            out[i],
            out[j],
        ) by {
            assert(tail.contains(tail[j - 1]));
            if i > 0 {
                assert(crate::text::comes_before(tail[i - 1], tail[j - 1]));
            }
        }
        assert forall|x: Seq<char>| ids.contains(x) || x == id implies #[trigger] out.contains(
            x,
        ) by {
            if x == ids[0] {
                assert(out[0] == x);
            } else {
                if ids.contains(x) {
                    let i = choose|i: int| 0 <= i < ids.len() && ids[i] == x;
                    assert(rest[i - 1] == x);
                    assert(rest.contains(x));
                }
                assert(tail.contains(x));
                let j = choose|j: int| 0 <= j < tail.len() && tail[j] == x;
                assert(out[j + 1] == x);
            }
        }
        assert forall|x: Seq<char>| #[trigger] out.contains(x) implies ids.contains(x) || x
            == id by {
            let i = choose|i: int| 0 <= i < out.len() && out[i] == x;
            if i == 0 {
                assert(ids[0] == x);
            } else {
                assert(tail[i - 1] == x);
                assert(tail.contains(x));
                if rest.contains(x) {
                    let j = choose|j: int| 0 <= j < rest.len() && rest[j] == x;
                    assert(ids[j + 1] == x);
                }
            }
        }
    }
}

/// Window ids come in the order of texts, each once, and are those on the lines that
/// are not blank.
pub proof fn ids_in_order(lines: Seq<Seq<char>>)
    ensures
        ids_ordered(ids_of(lines)),
        forall|x: Seq<char>| #[trigger]
            ids_of(lines).contains(x) <==> x.len() > 0 && exists|i: int|
                0 <= i < lines.len() && crate::text::trim(#[trigger] lines[i]) == x,
    decreases lines.len(),
{
    if lines.len() > 0 {
        let front = lines.drop_last();
        ids_in_order(front);
        let id = crate::text::trim(lines.last());
        lemma_insert_id(ids_of(front), id);
        assert forall|x: Seq<char>| #[trigger] ids_of(lines).contains(x) implies x.len() > 0
            && exists|i: int|
            0 <= i < lines.len() && crate::text::trim(#[trigger] lines[i]) == x by {
            if ids_of(front).contains(x) {
                let i = choose|i: int|
                    0 <= i < front.len() && crate::text::trim(#[trigger] front[i]) == x;
                assert(crate::text::trim(lines[i]) == x);
            } else {
                assert(crate::text::trim(lines[lines.len() - 1]) == x);
            }
        }
        assert forall|x: Seq<char>|
            x.len() > 0 && (exists|i: int|
                0 <= i < lines.len() && crate::text::trim(#[trigger] lines[i])
                    == x) implies #[trigger] ids_of(lines).contains(x) by {
            let i = choose|i: int|
                0 <= i < lines.len() && crate::text::trim(#[trigger] lines[i]) == x;
            if i < front.len() {
                assert(crate::text::trim(front[i]) == x);
                assert(ids_of(front).contains(x));
            }
        }
    }
}

/// Where `insert_id` puts an id.
proof fn lemma_insert_id_at(ids: Seq<Seq<char>>, id: Seq<char>, at: int)
    requires
        0 <= at <= ids.len(),
        forall|j: int|
            0 <= j < at ==> ids[j] != id && !crate::text::comes_before(id, #[trigger] ids[j]),
        at < ids.len() ==> ids[at] == id || crate::text::comes_before(id, ids[at]),
    ensures
        insert_id(ids, id) == if at < ids.len() && ids[at] == id {
            ids
        } else {
            ids.insert(at, id)
        },
    decreases ids.len(),
{
    if ids.len() == 0 {
        assert(ids.insert(at, id) == seq![id]);
    } else if at == 0 {
        assert(seq![id] + ids == ids.insert(0, id));
    } else {
        assert(ids[0] != id);
        let rest = ids.skip(1);
        assert forall|j: int| 0 <= j < at - 1 implies rest[j] != id && !crate::text::comes_before(
            id,
            #[trigger] rest[j],
        ) by {
            assert(rest[j] == ids[j + 1]);
        }
        lemma_insert_id_at(rest, id, at - 1);
        if at < ids.len() && ids[at] == id {
            assert(seq![ids[0]] + rest == ids);
        } else {
            assert(seq![ids[0]] + rest.insert(at - 1, id) == ids.insert(at, id));
        }
    }
}

/// Puts an id into an ordered list.
fn insert_window_id(ids: &mut Vec<String>, id: String)
    ensures
        crate::text::string_views(final(ids)@) == insert_id(
            crate::text::string_views(old(ids)@),
            id@,
        ),
{
    let ghost start = crate::text::string_views(ids@);
    let mut i: usize = 0;
    while i < ids.len() && !same_str(id.as_str(), ids[i].as_str()) && !precedes(
        chars_of(id.as_str()).as_slice(),
        chars_of(ids[i].as_str()).as_slice(),
    )
        invariant
            start == crate::text::string_views(ids@),
            i <= ids.len(),
            forall|j: int|
                0 <= j < i ==> start[j] != id@ && !crate::text::comes_before(
                    id@,
                    #[trigger] start[j],
                ),
        decreases ids.len() - i,
    {
        i = i + 1;
    }
    proof {
        lemma_insert_id_at(start, id@, i as int);
    }
    if i == ids.len() || !same_str(id.as_str(), ids[i].as_str()) {
        let ghost text = id@;
        ids.insert(i, id);
        assert(crate::text::string_views(ids@) == start.insert(i as int, text));
    }
}

/// Reads the window ids that a script printed.
pub fn parse_window_ids(output: &str) -> (r: Vec<String>)
    ensures
        crate::text::string_views(r@) == window_ids(output@),
{
    let output_chars = chars_of(output);
    let lines = lines_slice(output_chars.as_slice());
    let ghost all = crate::text::views(lines@);
    let mut ids: Vec<String> = Vec::new();
    for i in 0..lines.len()
        invariant
            all == crate::text::views(lines@),
            crate::text::string_views(ids@) == ids_of(all.take(i as int)),
    {
        assert(all.take(i as int + 1).drop_last() == all.take(i as int));
        assert(all.take(i as int + 1).last() == lines@[i as int]@);
        let id = trim_slice(lines[i]);
        if id.len() > 0 {
            insert_window_id(&mut ids, string_of(id));
        }
    }
    assert(all.take(all.len() as int) == all);
    ids
}

/// `id` is among these ids.
fn holds_id(ids: &Vec<String>, id: &str) -> (r: bool)
    ensures
        r == crate::text::string_views(ids@).contains(id@),
{
    let ghost all = crate::text::string_views(ids@);
    for i in 0..ids.len()
        invariant
            all == crate::text::string_views(ids@),
            forall|j: int| 0 <= j < i ==> all[j] != id@,
    {
        if same_str(ids[i].as_str(), id) {
            assert(all[i as int] == id@);
            return true;
        }
    }
    false
}

/// How often the windows are asked for while a new one is expected.
pub const GHOSTTY_DISCOVERY_ATTEMPTS: usize = 100;

/// How long to wait between two such attempts, in milliseconds.
pub const GHOSTTY_DISCOVERY_DELAY_MS: u64 = 50;

/// What follows from one look at the windows while a new one is expected.
#[derive(Clone, Debug, PartialEq, Eq)]
pub enum Discovery {
    /// The new window has this id.
    Found(String),
    /// There is no new window yet: wait, and look again.
    Wait,
    /// There is no new window, and this was the last attempt.
    TimedOut,
}

/// The first of the current ids that was not there before.
pub open spec fn new_id(existing: Seq<Seq<char>>, current: Seq<Seq<char>>) -> Option<Seq<char>>
    decreases current.len(),
{
    if current.len() == 0 {
        None
    } else if !existing.contains(current[0]) {
        Some(current[0])
    } else {
        new_id(existing, current.skip(1))
    }
}

/// Finds the first of the current ids that was not there before.
pub fn find_new_window_id(existing: &Vec<String>, current: &Vec<String>) -> (r: Option<String>)
    ensures
        crate::text::opt_view(r) == new_id(
            crate::text::string_views(existing@),
            crate::text::string_views(current@),
        ),
{
    let ghost old_ids = crate::text::string_views(existing@);
    let ghost all = crate::text::string_views(current@);
    assert(all.skip(0) == all);
    for i in 0..current.len()
        invariant
            old_ids == crate::text::string_views(existing@),
            all == crate::text::string_views(current@),
            new_id(old_ids, all) == new_id(old_ids, all.skip(i as int)),
    {
        assert(all.skip(i as int)[0] == current@[i as int]@);
        if !holds_id(existing, current[i].as_str()) {
            return Some(current[i].clone());
        }
        assert(all.skip(i as int).skip(1) == all.skip(i as int + 1));
    }
    None
}

/// Decides how the search for a new window goes on after the look number `attempt`,
/// counted from 0.
pub fn discover_new_window(attempt: usize, existing: &Vec<String>, current: &Vec<String>) -> (r:
    Discovery)
    ensures
        match new_id(
            crate::text::string_views(existing@),
            crate::text::string_views(current@),
        ) {
            Some(id) => r matches Discovery::Found(found) && found@ == id,
            None => if attempt + 1 < GHOSTTY_DISCOVERY_ATTEMPTS {
                r is Wait
            } else {
                r is TimedOut
            },
        },
{
    match find_new_window_id(existing, current) {
        Some(id) => Discovery::Found(id),
        None => if attempt < GHOSTTY_DISCOVERY_ATTEMPTS - 1 {
            Discovery::Wait
        } else {
            Discovery::TimedOut
        },
    }
}

/// A new id is one of the current ids that was not there before; there is none only
/// where all of them were.
pub proof fn new_id_is_new(existing: Seq<Seq<char>>, current: Seq<Seq<char>>)
    ensures
        match new_id(existing, current) {
            Some(id) => current.contains(id) && !existing.contains(id),
            None => forall|id: Seq<char>| #[trigger] current.contains(id) ==> existing.contains(id),
        },
    decreases current.len(),
{
    if current.len() > 0 {
        let rest = current.skip(1);
        new_id_is_new(existing, rest);
        if existing.contains(current[0]) {
            match new_id(existing, rest) {
                Some(id) => {
                    let i = choose|i: int| 0 <= i < rest.len() && rest[i] == id;
                    assert(current[i + 1] == id);
                },
                None => {
                    assert forall|id: Seq<char>| #[trigger]
                        current.contains(id) implies existing.contains(id) by {
                        let i = choose|i: int| 0 <= i < current.len() && current[i] == id;
                        if i > 0 {
                            assert(rest[i - 1] == id);
                            assert(rest.contains(id));
                        }
                    }
                },
            }
        } else {
            assert(current[0] == new_id(existing, current)->0);
        }
    }
}

/// The new id is the first of the current ones that was not there before.
pub proof fn first_new_id_is_taken(existing: Seq<Seq<char>>, current: Seq<Seq<char>>, i: int)
    requires
        0 <= i < current.len(),
        !existing.contains(current[i]),
        forall|j: int| 0 <= j < i ==> existing.contains(#[trigger] current[j]),
    ensures
        new_id(existing, current) == Some(current[i]),
    decreases current.len(),
{
    if i > 0 {
        assert(existing.contains(current[0]));
        let rest = current.skip(1);
        assert(rest[i - 1] == current[i]);
        assert forall|j: int| 0 <= j < i - 1 implies existing.contains(#[trigger] rest[j]) by {
            assert(rest[j] == current[j + 1]);
        }
        first_new_id_is_taken(existing, rest, i - 1);
    }
}

/// A frame that was written as four numbers apart by tabs is read back, if it has an
/// extent; with white space around it, too.
pub proof fn frames_read_back(frame: WindowFrame)
    ensures
        ({
            let text = crate::number::signed_decimal(frame.x as int) + seq!['\t']
                + crate::number::signed_decimal(frame.y as int) + seq!['\t']
                + crate::number::signed_decimal(frame.width as int) + seq!['\t']
                + crate::number::signed_decimal(frame.height as int);
            let r = if frame.width > 0 && frame.height > 0 {
                Ok::<WindowFrame, Error>(frame)
            } else {
                Err::<WindowFrame, Error>(Error::FrameNotPositive)
            };
            window_frame(text) == r && window_frame(text + seq!['\n']) == r
        }),
{
    let a = crate::number::signed_decimal(frame.x as int);
    let b = crate::number::signed_decimal(frame.y as int);
    let c = crate::number::signed_decimal(frame.width as int);
    let d = crate::number::signed_decimal(frame.height as int);
    let tab = seq!['\t'];
    lemma_number_field(frame.x as int);
    lemma_number_field(frame.y as int);
    lemma_number_field(frame.width as int);
    lemma_number_field(frame.height as int);
    let text = a + tab + b + tab + c + tab + d;
    assert(text =~= a + tab + (b + tab + (c + tab + d)));
    crate::text::lemma_split_front(a, '\t', b + tab + (c + tab + d));
    crate::text::lemma_split_front(b, '\t', c + tab + d);
    crate::text::lemma_split_front(c, '\t', d);
    crate::text::lemma_split_whole(d, '\t');
    assert(text[0] == a[0]);
    assert(text.last() == d.last());
    crate::text::lemma_trimmed(text);
    let more = text + seq!['\n'];
    assert(more[0] == a[0]);
    assert(crate::text::trim_start(more) == more);
    assert(more.drop_last() =~= text);
    assert(crate::text::trim_end(more) == crate::text::trim_end(text));
    let parts = crate::text::split(text, '\t');
    assert(parts =~= seq![a, b, c, d]);
}

/// A number is a field: no tab in it, and no white space around it.
proof fn lemma_number_field(n: int)
    requires
        i32::MIN <= n <= i32::MAX,
    ensures
        ({
            let t = crate::number::signed_decimal(n);
            &&& t.len() > 0
            &&& !crate::text::white_space(t[0])
            &&& !crate::text::white_space(t.last())
            &&& !crate::text::has_char(t, '\t')
            &&& crate::text::trim(t) == t
            &&& crate::number::parse_signed(t) == Some(n)
        }),
{
    crate::number::signed_reads_back(n as i32);
    crate::capture::lemma_signed_plain(n);
    let t = crate::number::signed_decimal(n);
    if n < 0 {
        assert(t[0] == '-');
    } else {
        crate::number::decimal_reads_back(n as nat);
    }
}

/// The script that moves a window looks for its id, just as it is, and sets the position and
/// the size of the frame, each once and in this order.
pub proof fn windows_are_moved_to_the_frame(id: Seq<char>, frame: WindowFrame)
    ensures
        ({
            let script = reposition_script(id, frame);
            let place = "set position of matchingWindow to {"@ + crate::number::signed_decimal(
                frame.x as int,
            ) + ", "@ + crate::number::signed_decimal(frame.y as int) + "}"@;
            let size = "set size of matchingWindow to {"@ + crate::number::signed_decimal(
                frame.width as int,
            ) + ", "@ + crate::number::signed_decimal(frame.height as int) + "}"@;
            exists|a: int, b: int, c: int|
                {
                    &&& #[trigger] crate::text::occurs_at(
                        script,
                        "if value of attribute \"AXIdentifier\" of candidate is "@,
                        a,
                    )
                    &&& (match crate::applescript::literal_prefix(
                        script.skip(
                            a + "if value of attribute \"AXIdentifier\" of candidate is "@.len(),
                        ),
                    ) {
                        Some((text, _)) => text == id,
                        None => false,
                    })
                    &&& #[trigger] crate::text::occurs_at(script, place, b)
                    &&& #[trigger] crate::text::occurs_at(script, size, c)
                    &&& a < b < c
                }
        }),
{
    let head =
        "tell application \"System Events\"\n  tell process \"Ghostty\"\n    set matchingWindow to missing value\n    repeat with candidate in windows\n      try\n        if value of attribute \"AXIdentifier\" of candidate is \""@;
    let found =
        "\" then\n          set matchingWindow to candidate\n          exit repeat\n        end if\n      end try\n    end repeat\n    if matchingWindow is missing value then\n      if (count of windows) is 0 then error \"Ghostty has no visible window\"\n      set matchingWindow to window 1\n    end if\n    set position of matchingWindow to {"@;
    let between = "}\n    set size of matchingWindow to {"@;
    let tail = "}\n  end tell\nend tell"@;
    let asked = "if value of attribute \"AXIdentifier\" of candidate is "@;
    let moved = "set position of matchingWindow to {"@;
    let sized = "set size of matchingWindow to {"@;
    let e = crate::applescript::escaped(id);
    let x = crate::number::signed_decimal(frame.x as int);
    let y = crate::number::signed_decimal(frame.y as int);
    let w = crate::number::signed_decimal(frame.width as int);
    let h = crate::number::signed_decimal(frame.height as int);
    let script = reposition_script(id, frame);
    lemma_reposition_parts();
    reveal_strlit("}");
    reveal_strlit("}\n  end tell\nend tell");
    reveal_strlit("}\n    set size of matchingWindow to {");
    let place = moved + x + ", "@ + y + "}"@;
    let size = sized + w + ", "@ + h + "}"@;
    let a = head.len() - 1 - asked.len();
    let b = head.len() + e.len() + found.len() - moved.len();
    let c = b + place.len() - 1 + between.len() - sized.len();
    assert(script.subrange(a, a + asked.len()) =~= head.subrange(a, a + asked.len()));
    assert(crate::text::occurs_at(script, asked, a));
    let rest = found.skip(1) + x + ", "@ + y + between + w + ", "@ + h + tail;
    let literal = script.skip(a + asked.len());
    assert(found[0] == '"');
    assert(literal =~= seq!['"'] + (e + seq!['"'] + rest));
    assert(literal[0] == '"');
    assert(literal.skip(1) =~= e + seq!['"'] + rest);
    crate::applescript::escaped_reads_back(id, rest);
    assert(script.subrange(b, b + place.len()) =~= place) by {
        assert(found.skip(found.len() - moved.len()) == moved);
        assert(between[0] == '}');
    }
    assert(crate::text::occurs_at(script, place, b));
    assert(script.subrange(c, c + size.len()) =~= size) by {
        assert(between.skip(between.len() - sized.len()) == sized);
        assert(tail[0] == '}');
    }
    assert(crate::text::occurs_at(script, size, c));
}

/// The fixed parts of the script that moves a window.
proof fn lemma_reposition_parts()
    ensures
        ({
            let head =
                "tell application \"System Events\"\n  tell process \"Ghostty\"\n    set matchingWindow to missing value\n    repeat with candidate in windows\n      try\n        if value of attribute \"AXIdentifier\" of candidate is \""@;
            let found =
                "\" then\n          set matchingWindow to candidate\n          exit repeat\n        end if\n      end try\n    end repeat\n    if matchingWindow is missing value then\n      if (count of windows) is 0 then error \"Ghostty has no visible window\"\n      set matchingWindow to window 1\n    end if\n    set position of matchingWindow to {"@;
            let between = "}\n    set size of matchingWindow to {"@;
            let asked = "if value of attribute \"AXIdentifier\" of candidate is "@;
            let moved = "set position of matchingWindow to {"@;
            let sized = "set size of matchingWindow to {"@;
            &&& head.len() > asked.len() && head.last() == '"'
            &&& head.subrange(head.len() - 1 - asked.len(), head.len() - 1) == asked
            &&& found.len() > moved.len() && found[0] == '"'
            &&& found.skip(found.len() - moved.len()) == moved
            &&& between.len() > sized.len() && between[0] == '}'
            &&& between.skip(between.len() - sized.len()) == sized
        }),
{
    reveal_strlit(
        "tell application \"System Events\"\n  tell process \"Ghostty\"\n    set matchingWindow to missing value\n    repeat with candidate in windows\n      try\n        if value of attribute \"AXIdentifier\" of candidate is \"",
    );
    reveal_strlit(
        "\" then\n          set matchingWindow to candidate\n          exit repeat\n        end if\n      end try\n    end repeat\n    if matchingWindow is missing value then\n      if (count of windows) is 0 then error \"Ghostty has no visible window\"\n      set matchingWindow to window 1\n    end if\n    set position of matchingWindow to {",
    );
    reveal_strlit("}\n    set size of matchingWindow to {");
    reveal_strlit("if value of attribute \"AXIdentifier\" of candidate is ");
    reveal_strlit("set position of matchingWindow to {");
    reveal_strlit("set size of matchingWindow to {");
    let head =
        "tell application \"System Events\"\n  tell process \"Ghostty\"\n    set matchingWindow to missing value\n    repeat with candidate in windows\n      try\n        if value of attribute \"AXIdentifier\" of candidate is \""@;
    let found =
        "\" then\n          set matchingWindow to candidate\n          exit repeat\n        end if\n      end try\n    end repeat\n    if matchingWindow is missing value then\n      if (count of windows) is 0 then error \"Ghostty has no visible window\"\n      set matchingWindow to window 1\n    end if\n    set position of matchingWindow to {"@;
    let between = "}\n    set size of matchingWindow to {"@;
    let asked = "if value of attribute \"AXIdentifier\" of candidate is "@;
    let moved = "set position of matchingWindow to {"@;
    let sized = "set size of matchingWindow to {"@;
    assert(head.subrange(head.len() - 1 - asked.len(), head.len() - 1) =~= asked);
    assert(found.skip(found.len() - moved.len()) =~= moved);
    assert(between.skip(between.len() - sized.len()) =~= sized);
}

/// A line is a frame only if it holds four numbers, the last two positive; the error names
/// the first one that is not a number.
pub proof fn frames_hold_four_numbers(fields: Seq<Seq<char>>)
    requires
        fields.len() > 0,
        forall|i: int| 0 <= i < fields.len() ==> !crate::text::has_char(#[trigger] fields[i], '\t'),
        crate::text::trim(crate::text::join(fields, "\t"@)) == crate::text::join(fields, "\t"@),
    ensures
        ({
            let r = window_frame(crate::text::join(fields, "\t"@));
            let number = |i: int| crate::number::parse_signed(crate::text::trim(fields[i]));
            if fields.len() != 4 {
                r == Err::<WindowFrame, Error>(Error::FrameUnreadable)
            } else {
                &&& r == Err::<WindowFrame, Error>(Error::FrameX) <==> number(0) is None
                &&& r == Err::<WindowFrame, Error>(Error::FrameY) <==> number(0) is Some
                    && number(1) is None
                &&& r == Err::<WindowFrame, Error>(Error::FrameWidth) <==> number(0) is Some
                    && number(1) is Some && number(2) is None
                &&& r == Err::<WindowFrame, Error>(Error::FrameHeight) <==> number(0) is Some
                    && number(1) is Some && number(2) is Some && number(3) is None
            }
        }),
{
    reveal_strlit("\t");
    assert("\t"@ =~= seq!['\t']);
    crate::text::split_of_join(fields, '\t');
}

} // verus!
