//! Reading scripts back: the layout parser finds in a restore script the tabs and splits
//! that the capture held, and the rows that are read from a script of plain tabs are the
//! ones that it was built from.

use vstd::prelude::*;

verus! {

// Texts inside lines.
/// ` to ` stands at `j` with `x` behind it.
spec fn to_before(s: Seq<char>, j: int, x: char) -> bool {
    &&& 0 <= j
    &&& j + 4 < s.len()
    &&& s[j] == ' '
    &&& s[j + 1] == 't'
    &&& s[j + 2] == 'o'
    &&& s[j + 3] == ' '
    &&& s[j + 4] == x
}

/// ` to ` with `x` behind it stands nowhere.
spec fn no_to(s: Seq<char>, x: char) -> bool {
    forall|j: int| !(#[trigger] to_before(s, j, x))
}

/// A piece of a line in which, and at whose end, ` to ` with `x` behind it does not
/// start.
spec fn quiet(piece: Seq<char>, x: char) -> bool {
    forall|k: int|
        0 <= k < piece.len() && #[trigger] piece[k] == ' ' ==> {
            &&& k + 1 < piece.len()
            &&& {
                ||| piece[k + 1] != 't'
                ||| k + 2 < piece.len() && piece[k + 2] != 'o'
                ||| k + 4 < piece.len() && piece[k + 4] != x
            }
        }
}

/// A word in front changes nothing.
proof fn lemma_word_front(word: Seq<char>, s: Seq<char>, x: char)
    requires
        !crate::text::has_char(word, ' '),
        no_to(s, x),
    ensures
        no_to(word + s, x),
{
    let all = word + s;
    assert forall|j: int| !(#[trigger] to_before(all, j, x)) by {
        if to_before(all, j, x) {
            if j < word.len() {
                assert(word[j] == ' ');
            } else {
                assert(to_before(s, j - word.len(), x));
            }
        }
    }
}

/// A quiet piece in front changes nothing.
proof fn lemma_piece_front(piece: Seq<char>, s: Seq<char>, x: char)
    requires
        quiet(piece, x),
        no_to(s, x),
    ensures
        no_to(piece + s, x),
{
    let all = piece + s;
    assert forall|j: int| !(#[trigger] to_before(all, j, x)) by {
        if to_before(all, j, x) {
            if j < piece.len() {
                assert(piece[j] == ' ');
                assert(all[j + 1] == piece[j + 1]);
            } else {
                assert(to_before(s, j - piece.len(), x));
            }
        }
    }
}

/// Digits hold no space.
proof fn lemma_name_is_word(name: Seq<char>, x: char)
    requires
        crate::number::all_digits(name),
    ensures
        !crate::text::has_char(name, ' '),
        no_to(name, x),
{
    if crate::text::has_char(name, ' ') {
        let i = choose|i: int| 0 <= i < name.len() && name[i] == ' ';
        assert(crate::number::is_digit(name[i]));
    }
    assert forall|j: int| !(#[trigger] to_before(name, j, x)) by {
        if to_before(name, j, x) {
            assert(crate::number::is_digit(name[j]));
        }
    }
}

/// A text where nothing reads so holds no such command.
proof fn lemma_no_focus(s: Seq<char>)
    requires
        no_to(s, 'f'),
    ensures
        crate::text::split_once(s, " to focused terminal of "@) is None,
{
    let n = " to focused terminal of "@;
    reveal_strlit(" to focused terminal of ");
    crate::text::lemma_find_from(s, n, 0);
    if let Some(i) = crate::text::find(s, n) {
        let piece = s.subrange(i, i + n.len());
        assert(piece[0] == n[0] && piece[1] == n[1] && piece[2] == n[2] && piece[3] == n[3]
            && piece[4] == n[4]);
        assert(to_before(s, i, 'f'));
    }
}

/// A text where nothing reads so holds no such command.
proof fn lemma_no_split(s: Seq<char>)
    requires
        no_to(s, 's'),
    ensures
        crate::text::split_once(s, " to split "@) is None,
{
    let n = " to split "@;
    reveal_strlit(" to split ");
    crate::text::lemma_find_from(s, n, 0);
    if let Some(i) = crate::text::find(s, n) {
        let piece = s.subrange(i, i + n.len());
        assert(piece[0] == n[0] && piece[1] == n[1] && piece[2] == n[2] && piece[3] == n[3]
            && piece[4] == n[4]);
        assert(to_before(s, i, 's'));
    }
}

/// Four spaces in front of a line are white space, and all of it.
proof fn lemma_trim_indented(line: Seq<char>)
    requires
        line.len() > 4,
        line[0] == ' ' && line[1] == ' ' && line[2] == ' ' && line[3] == ' ',
        !crate::text::white_space(line[4]),
        !crate::text::white_space(line.last()),
    ensures
        crate::text::trim(line) == line.skip(4),
{
    let a = line.skip(1);
    let b = a.skip(1);
    let c = b.skip(1);
    let d = c.skip(1);
    assert(d == line.skip(4));
    assert(crate::text::trim_start(line) == crate::text::trim_start(a));
    assert(crate::text::trim_start(a) == crate::text::trim_start(b));
    assert(crate::text::trim_start(b) == crate::text::trim_start(c));
    assert(crate::text::trim_start(c) == crate::text::trim_start(d));
    crate::text::lemma_trimmed(d);
}

/// The part in front of the first `n` is found where nothing before it starts like `n`.
proof fn lemma_split_once_at(a: Seq<char>, n: Seq<char>, b: Seq<char>)
    requires
        n.len() > 0,
        !crate::text::has_char(a, n[0]),
    ensures
        crate::text::split_once(a + n + b, n) == Some((a, b)),
{
    let s = a + n + b;
    let at = a.len() as int;
    assert(s.subrange(at, at + n.len()) == n);
    assert(crate::text::occurs_at(s, n, at));
    assert forall|j: int| 0 <= j < at implies !crate::text::occurs_at(s, n, j) by {
        if crate::text::occurs_at(s, n, j) {
            assert(s.subrange(j, j + n.len())[0] == s[j]);
            assert(a[j] == n[0]);
        }
    }
    crate::text::lemma_find_from_is(s, n, 0, at);
    assert(s.take(at) == a);
    assert(s.skip(at + n.len()) == b);
}

// What single lines say.
/// A line that speaks of no tab, pane or configuration.
spec fn says_nothing(line: Seq<char>) -> bool {
    let t = crate::text::trim(line);
    &&& crate::layout::root_pane_var(t) is None
    &&& crate::applescript::title_action(t) is None
    &&& crate::layout::split_command(t) is None
    &&& crate::layout::config_dir(line) is None
}

/// A name made of digits.
spec fn is_name(name: Seq<char>) -> bool {
    name.len() > 0 && crate::number::all_digits(name)
}

/// A pane's number is such a name, and reads back.
proof fn lemma_name(n: nat)
    requires
        n <= usize::MAX,
    ensures
        is_name(crate::number::decimal(n)),
        crate::restore_script::pane_name(""@, n) == crate::number::decimal(n),
        crate::number::parse_digits(crate::number::decimal(n), usize::MAX as int) == Some(n as int),
        crate::number::parse_unsigned(crate::number::decimal(n), usize::MAX as int) == Some(
            n as int,
        ),
{
    reveal_strlit("");
    crate::number::decimal_reads_back(n);
    crate::number::unsigned_reads_back(n, usize::MAX as int);
    assert(""@ + crate::number::decimal(n) == crate::number::decimal(n));
}

/// A text that does not start with `set ` or `perform ` says nothing.
proof fn lemma_other_start(line: Seq<char>)
    requires
        ({
            let t = crate::text::trim(line);
            t.len() == 0 || (t[0] != 's' && t[0] != 'p')
        }),
    ensures
        says_nothing(line),
{
    let t = crate::text::trim(line);
    reveal_strlit("set ");
    reveal_strlit("perform action \"set_tab_title:");
    reveal_strlit("set initial working directory of cfg");
    if crate::text::starts_with(t, "set "@) {
        assert(t.take(4)[0] == t[0]);
    }
    if crate::text::starts_with(t, "perform action \"set_tab_title:"@) {
        assert(t.take("perform action \"set_tab_title:"@.len() as int)[0] == t[0]);
    }
    if crate::text::starts_with(t, "set initial working directory of cfg"@) {
        assert(t.take("set initial working directory of cfg"@.len() as int)[0] == t[0]);
    }
}

/// A `set` line without a command says nothing.
proof fn lemma_plain_set(line: Seq<char>)
    requires
        line.len() > 8,
        line.take(8) == "    set "@,
        !crate::text::white_space(line.last()),
        line[8] != 'i',
        no_to(line.skip(8), 'f'),
        no_to(line.skip(8), 's'),
    ensures
        says_nothing(line),
{
    reveal_strlit("    set ");
    reveal_strlit("set ");
    reveal_strlit("perform action \"set_tab_title:");
    reveal_strlit("set initial working directory of cfg");
    assert(line.take(8)[0] == line[0] && line.take(8)[1] == line[1] && line.take(8)[2] == line[2]
        && line.take(8)[3] == line[3] && line.take(8)[4] == line[4]);
    lemma_trim_indented(line);
    let t = line.skip(4);
    assert(t.take(4) == "set "@) by {
        assert(line.take(8)[5] == line[5] && line.take(8)[6] == line[6] && line.take(8)[7]
            == line[7]);
    }
    assert(t.skip(4) == line.skip(8));
    lemma_no_focus(line.skip(8));
    lemma_no_split(line.skip(8));
    if crate::text::starts_with(t, "perform action \"set_tab_title:"@) {
        assert(t.take("perform action \"set_tab_title:"@.len() as int)[0] == t[0]);
    }
    if crate::text::starts_with(t, "set initial working directory of cfg"@) {
        assert(t.take("set initial working directory of cfg"@.len() as int)[4] == t[4]);
    }
}

/// The line that makes a configuration says nothing.
proof fn lemma_config_line(name: Seq<char>)
    requires
        is_name(name),
    ensures
        says_nothing(crate::restore_script::config_line(name)),
{
    let line = crate::restore_script::config_line(name);
    reveal_strlit("    set cfg");
    reveal_strlit("    set ");
    reveal_strlit(" to new surface configuration");
    let tail = " to new surface configuration"@;
    assert(line.take(8) == "    set "@);
    let word = seq!['c', 'f', 'g'] + name;
    assert(line.skip(8) == word + tail);
    assert(!crate::text::has_char(seq!['c', 'f', 'g'], ' '));
    lemma_name_is_word(name, 'f');
    crate::text::lemma_concat_absent(seq!['c', 'f', 'g'], name, ' ');
    assert(tail + Seq::<char>::empty() == tail);
    lemma_piece_front(tail, Seq::<char>::empty(), 'f');
    lemma_piece_front(tail, Seq::<char>::empty(), 's');
    lemma_word_front(word, tail, 'f');
    lemma_word_front(word, tail, 's');
    assert(line.last() == tail.last());
    lemma_plain_set(line);
}

/// The line that opens the window says nothing.
proof fn lemma_new_window_line(name: Seq<char>)
    requires
        is_name(name),
    ensures
        says_nothing(crate::restore_script::new_window_line("win"@, name)),
{
    let line = crate::restore_script::new_window_line("win"@, name);
    reveal_strlit("    set ");
    reveal_strlit("win");
    reveal_strlit(" to new window with configuration cfg");
    let mid = " to new window with configuration cfg"@;
    assert(line.take(8) == "    set "@);
    assert(line.skip(8) == "win"@ + (mid + name));
    lemma_name_is_word(name, 'f');
    lemma_name_is_word(name, 's');
    lemma_piece_front(mid, name, 'f');
    lemma_piece_front(mid, name, 's');
    assert(!crate::text::has_char("win"@, ' '));
    lemma_word_front("win"@, mid + name, 'f');
    lemma_word_front("win"@, mid + name, 's');
    assert(crate::number::is_digit(name[name.len() - 1]));
    assert(line.last() == name.last());
    lemma_plain_set(line);
}

/// A tab's variable holds no space.
proof fn lemma_tab_var_is_word(group: nat, i: nat)
    ensures
        !crate::text::has_char(crate::restore_script::tab_var(group, i), ' '),
        crate::restore_script::tab_var(group, i).len() > 6,
        crate::text::starts_with(crate::restore_script::tab_var(group, i), "newtab"@),
        crate::number::is_digit(crate::restore_script::tab_var(group, i).last()),
{
    reveal_strlit("newtab");
    reveal_strlit("_");
    let g = crate::number::decimal(group);
    let k = crate::number::decimal(i);
    crate::number::decimal_reads_back(group);
    crate::number::decimal_reads_back(i);
    lemma_name_is_word(g, 'f');
    lemma_name_is_word(k, 'f');
    assert(!crate::text::has_char("newtab"@, ' '));
    assert(!crate::text::has_char("_"@, ' '));
    crate::text::lemma_concat_absent("newtab"@, g, ' ');
    crate::text::lemma_concat_absent("newtab"@ + g, "_"@, ' ');
    crate::text::lemma_concat_absent("newtab"@ + g + "_"@, k, ' ');
    let var = crate::restore_script::tab_var(group, i);
    assert(var.take(6) == "newtab"@);
    assert(crate::number::is_digit(k[k.len() - 1]));
    assert(var.last() == k.last());
}

/// The line that opens a tab says nothing.
proof fn lemma_new_tab_line(group: nat, i: nat, name: Seq<char>)
    requires
        is_name(name),
    ensures
        says_nothing(
            crate::restore_script::new_tab_line(
                crate::restore_script::tab_var(group, i),
                "win"@,
                name,
            ),
        ),
{
    let var = crate::restore_script::tab_var(group, i);
    let line = crate::restore_script::new_tab_line(var, "win"@, name);
    reveal_strlit("    set ");
    reveal_strlit("win");
    reveal_strlit("newtab");
    reveal_strlit(" to new tab in ");
    reveal_strlit(" with configuration cfg");
    lemma_tab_var_is_word(group, i);
    let mid = " to new tab in "@ + "win"@ + " with configuration cfg"@;
    assert(line.take(8) == "    set "@);
    assert(line.skip(8) == var + (mid + name));
    lemma_name_is_word(name, 'f');
    lemma_name_is_word(name, 's');
    lemma_piece_front(mid, name, 'f');
    lemma_piece_front(mid, name, 's');
    lemma_word_front(var, mid + name, 'f');
    lemma_word_front(var, mid + name, 's');
    assert(crate::number::is_digit(name[name.len() - 1]));
    assert(line.last() == name.last());
    assert(var.take(6)[0] == var[0]);
    lemma_plain_set(line);
}

/// A variable is its own trimmed text.
proof fn lemma_pane_var(name: Seq<char>)
    requires
        is_name(name),
    ensures
        crate::text::trim("p"@ + name) == "p"@ + name,
        !crate::text::has_char("p"@ + name, ' '),
        crate::layout::var_index("p"@ + name) == match crate::number::parse_digits(
            name,
            usize::MAX as int,
        ) {
            Some(n) => n,
            None => 0,
        },
{
    reveal_strlit("p");
    let var = "p"@ + name;
    assert(crate::number::is_digit(name[name.len() - 1]));
    assert(var.last() == name.last());
    crate::text::lemma_trimmed(var);
    lemma_name_is_word(name, 'f');
    assert(!crate::text::has_char("p"@, ' '));
    crate::text::lemma_concat_absent("p"@, name, ' ');
    assert(crate::number::is_digit(name[0]));
    assert(var.skip(1) == name);
    assert(crate::layout::before_digits(name) == 0);
    assert(crate::layout::before_digits(var) == 1);
}

/// The line that names a tab's first pane gives it to that variable.
proof fn lemma_root_line(line: Seq<char>, name: Seq<char>, tail: Seq<char>)
    requires
        is_name(name),
        line == "    set p"@ + name + " to focused terminal of "@ + tail,
        crate::text::starts_with(tail, "selected tab of win"@) || crate::text::starts_with(
            tail,
            "newtab"@,
        ),
        !crate::text::white_space(tail.last()),
    ensures
        crate::layout::root_pane_var(crate::text::trim(line)) == Some("p"@ + name),
        crate::layout::config_dir(line) is None,
        crate::applescript::title_action(crate::text::trim(line)) is None,
{
    reveal_strlit("    set p");
    reveal_strlit("set ");
    reveal_strlit("p");
    reveal_strlit("selected tab of win");
    reveal_strlit("newtab");
    reveal_strlit(" to focused terminal of ");
    reveal_strlit("set initial working directory of cfg");
    reveal_strlit("perform action \"set_tab_title:");
    let n = " to focused terminal of "@;
    assert(tail.len() > 0);
    assert(line.last() == tail.last());
    lemma_trim_indented(line);
    let t = line.skip(4);
    assert(t.take(4) == "set "@);
    let var = "p"@ + name;
    assert(t.skip(4) == var + n + tail);
    lemma_pane_var(name);
    lemma_split_once_at(var, n, tail);
    if crate::text::starts_with(t, "set initial working directory of cfg"@) {
        assert(t.take("set initial working directory of cfg"@.len() as int)[4] == t[4]);
    }
    if crate::text::starts_with(t, "perform action \"set_tab_title:"@) {
        assert(t.take("perform action \"set_tab_title:"@.len() as int)[0] == t[0]);
    }
}

/// The line that sets a title is read as that title for that pane.
proof fn lemma_title_line(name: Seq<char>, title: Seq<char>)
    requires
        name.len() > 0,
        crate::number::is_digit(name.last()),
    ensures
        ({
            let line = crate::restore_script::title_line(name, title);
            let t = crate::text::trim(line);
            &&& crate::layout::root_pane_var(t) is None
            &&& crate::layout::config_dir(line) is None
            &&& crate::applescript::title_action(t) == Some((title, "p"@ + name))
        }),
{
    let line = crate::restore_script::title_line(name, title);
    let esc = crate::applescript::escaped(title);
    reveal_strlit("    perform action \"set_tab_title:");
    reveal_strlit("perform action \"set_tab_title:");
    reveal_strlit("\" on p");
    reveal_strlit(" on ");
    reveal_strlit("p");
    reveal_strlit("set ");
    reveal_strlit("set initial working directory of cfg");
    assert(line.last() == name.last());
    lemma_trim_indented(line);
    let t = line.skip(4);
    let head = "perform action \"set_tab_title:"@;
    assert(t.take(head.len() as int) == head);
    let rest = " on p"@ + name;
    reveal_strlit(" on p");
    assert(t.skip(head.len() as int) == esc + seq!['"'] + rest);
    crate::applescript::escaped_reads_back(title, rest);
    assert(rest.take(4) == " on "@);
    assert(rest.skip(4) == "p"@ + name);
    if crate::text::starts_with(t, "set "@) {
        assert(t.take(4)[0] == t[0]);
    }
    if crate::text::starts_with(t, "set initial working directory of cfg"@) {
        assert(t.take("set initial working directory of cfg"@.len() as int)[0] == t[0]);
    }
}

/// The line that splits a pane is read as that split.
proof fn lemma_split_line(name: Seq<char>, target: Seq<char>, right: bool)
    requires
        is_name(name),
        is_name(target),
        crate::number::parse_unsigned(name, usize::MAX as int) is Some,
    ensures
        ({
            let line = crate::restore_script::split_line(name, "p"@ + target, right);
            let t = crate::text::trim(line);
            &&& crate::layout::root_pane_var(t) is None
            &&& crate::layout::config_dir(line) is None
            &&& crate::applescript::title_action(t) is None
            &&& crate::layout::split_command(t) == Some(
                crate::layout::Split {
                    new_var: "p"@ + name,
                    target: "p"@ + target,
                    right,
                    config: crate::number::parse_unsigned(name, usize::MAX as int)->0,
                },
            )
        }),
{
    let line = crate::restore_script::split_line(name, "p"@ + target, right);
    reveal_strlit("    set p");
    reveal_strlit("set ");
    reveal_strlit("p");
    reveal_strlit(" to split ");
    reveal_strlit(" direction ");
    reveal_strlit("right");
    reveal_strlit("down");
    reveal_strlit(" with configuration cfg");
    reveal_strlit("set initial working directory of cfg");
    reveal_strlit("perform action \"set_tab_title:");
    let way = if right {
        "right"@
    } else {
        "down"@
    };
    let cfg = " with configuration cfg"@;
    assert(crate::number::is_digit(name[name.len() - 1]));
    assert(line.last() == name.last());
    lemma_trim_indented(line);
    let t = line.skip(4);
    assert(t.take(4) == "set "@);
    let var = "p"@ + name;
    let other = "p"@ + target;
    let last = way + cfg + name;
    let mid = other + " direction "@ + last;
    let s = t.skip(4);
    assert(s == var + " to split "@ + mid);
    lemma_pane_var(name);
    lemma_pane_var(target);
    // Nothing reads as a root line.
    lemma_name_is_word(name, 'f');
    lemma_piece_front(cfg, name, 'f');
    assert(!crate::text::has_char(way, ' '));
    lemma_word_front(way, cfg + name, 'f');
    assert(way + (cfg + name) == last);
    lemma_piece_front(" direction "@ + way, cfg + name, 'f');
    assert(" direction "@ + way + (cfg + name) == " direction "@ + last);
    lemma_word_front(other, " direction "@ + last, 'f');
    assert(other + (" direction "@ + last) == mid);
    let seam = " to split "@ + "p"@;
    lemma_word_front(target, " direction "@ + last, 'f');
    lemma_name_is_word(target, 'f');
    lemma_piece_front(seam, target + (" direction "@ + last), 'f');
    assert(seam + (target + (" direction "@ + last)) == " to split "@ + mid);
    lemma_word_front(var, " to split "@ + mid, 'f');
    assert(var + (" to split "@ + mid) == s);
    lemma_no_focus(s);
    // The parts of the split.
    lemma_split_once_at(var, " to split "@, mid);
    lemma_split_once_at(other, " direction "@, last);
    lemma_split_once_at(way, cfg, name);
    crate::text::lemma_trimmed(way);
    assert(crate::number::is_digit(name[0]));
    crate::text::lemma_trimmed(name);
    assert("right"@ != "down"@) by {
        assert("right"@.len() != "down"@.len());
    }
    if crate::text::starts_with(t, "set initial working directory of cfg"@) {
        assert(t.take("set initial working directory of cfg"@.len() as int)[4] == t[4]);
    }
    if crate::text::starts_with(t, "perform action \"set_tab_title:"@) {
        assert(t.take("perform action \"set_tab_title:"@.len() as int)[0] == t[0]);
    }
}

/// A working directory whose line reads as the line that names a tab's first pane.
pub open spec fn reads_as_root(dir: Seq<char>) -> bool {
    match crate::text::split_once(
        crate::applescript::escaped(dir) + seq!['"'],
        " to focused terminal of "@,
    ) {
        Some((_, after)) => crate::text::starts_with(after, "selected tab of win"@)
            || crate::text::starts_with(after, "newtab"@) || crate::text::starts_with(
            after,
            "tab"@,
        ),
        None => false,
    }
}

/// Where `n` does not start in the front of a text, it is found behind that.
proof fn lemma_find_behind(a: Seq<char>, b: Seq<char>, n: Seq<char>)
    requires
        forall|j: int| 0 <= j < a.len() ==> !crate::text::occurs_at(a + b, n, j),
    ensures
        crate::text::split_once(a + b, n) == match crate::text::split_once(b, n) {
            Some((front, back)) => Some((a + front, back)),
            None => None,
        },
{
    let s = a + b;
    let m = a.len() as int;
    crate::text::lemma_find_from(s, n, 0);
    crate::text::lemma_find_from(b, n, 0);
    assert forall|i: int| 0 <= i implies #[trigger] crate::text::occurs_at(b, n, i)
        == crate::text::occurs_at(s, n, m + i) by {
        if i + n.len() <= b.len() {
            assert(b.subrange(i, i + n.len()) == s.subrange(m + i, m + i + n.len()));
        }
    }
    match crate::text::find(b, n) {
        Some(i) => {
            assert(crate::text::occurs_at(s, n, m + i));
            assert forall|j: int| 0 <= j < m + i implies !crate::text::occurs_at(s, n, j) by {
                if j >= m {
                    assert(!crate::text::occurs_at(b, n, j - m));
                }
            }
            crate::text::lemma_find_from_is(s, n, 0, m + i);
            assert(s.take(m + i) == a + b.take(i));
            assert(s.skip(m + i + n.len()) == b.skip(i + n.len()));
        },
        None => {
            if let Some(j) = crate::text::find(s, n) {
                assert(crate::text::occurs_at(b, n, j - m));
            }
        },
    }
}

/// What follows a match in a text that ends with a quote is no number.
proof fn lemma_quoted_rest(s: Seq<char>, n: Seq<char>)
    requires
        s.len() > 0,
        s.last() == '"',
    ensures
        match crate::text::split_once(s, n) {
            Some((_, back)) => (back.len() > 0 ==> back.last() == '"')
                && crate::number::parse_unsigned(
                crate::text::trim(back),
                usize::MAX as int,
            ) is None,
            None => true,
        },
{
    crate::text::lemma_find_from(s, n, 0);
    if let Some((_, back)) = crate::text::split_once(s, n) {
        let t = crate::text::trim(back);
        if back.len() == 0 {
            assert(t.len() == 0);
        } else {
            assert(back.last() == s.last());
            crate::text::lemma_trim_start(back);
            let u = crate::text::trim_start(back);
            if u.len() == 0 {
                assert(crate::text::white_space(back[back.len() - 1]));
            }
            assert(u.last() == '"');
            assert(t == u);
            if t[0] == '+' {
                assert(t.skip(1).last() == '"');
                let d = t.skip(1);
                assert(!crate::number::is_digit(d[d.len() - 1]));
            } else {
                assert(!crate::number::is_digit(t[t.len() - 1]));
            }
        }
    }
}

/// A line that ends with a quote splits no pane.
proof fn lemma_quoted_is_no_split(t: Seq<char>)
    requires
        t.len() > 4,
        t.last() == '"',
    ensures
        crate::layout::split_command(t) is None,
{
    reveal_strlit("set ");
    if let Some(rest) = crate::text::strip_prefix(t, "set "@) {
        assert(rest.last() == '"');
        lemma_quoted_rest(rest, " to split "@);
        if let Some((_, rest)) = crate::text::split_once(rest, " to split "@) {
            if rest.len() > 0 {
                lemma_quoted_rest(rest, " direction "@);
                if let Some((_, rest)) = crate::text::split_once(rest, " direction "@) {
                    if rest.len() > 0 {
                        lemma_quoted_rest(rest, " with configuration cfg"@);
                    } else {
                        lemma_empty_has_none(rest, " with configuration cfg"@);
                    }
                }
            } else {
                lemma_empty_has_none(rest, " direction "@);
            }
        }
    }
}

/// Nothing is found in an empty text.
proof fn lemma_empty_has_none(s: Seq<char>, n: Seq<char>)
    requires
        s.len() == 0,
        n == " direction "@ || n == " with configuration cfg"@,
    ensures
        crate::text::split_once(s, n) is None,
{
    reveal_strlit(" direction ");
    reveal_strlit(" with configuration cfg");
    crate::text::lemma_find_from(s, n, 0);
}

/// The line that gives a configuration its working directory is read as that.
#[verifier::rlimit(30)]
proof fn lemma_dir_line(name: Seq<char>, dir: Seq<char>)
    requires
        is_name(name),
        crate::number::parse_digits(name, usize::MAX as int) is Some,
    ensures
        ({
            let line = crate::restore_script::dir_line(name, dir);
            let t = crate::text::trim(line);
            &&& !reads_as_root(dir) ==> crate::layout::root_pane_var(t) is None
            &&& crate::applescript::title_action(t) is None
            &&& crate::layout::split_command(t) is None
            &&& crate::layout::config_dir(line) == Some(
                (crate::number::parse_digits(name, usize::MAX as int)->0, dir),
            )
        }),
{
    let line = crate::restore_script::dir_line(name, dir);
    let esc = crate::applescript::escaped(dir);
    reveal_strlit("    set initial working directory of cfg");
    reveal_strlit("set initial working directory of cfg");
    reveal_strlit(" to \"");
    reveal_strlit(" to ");
    reveal_strlit("\"");
    reveal_strlit("set ");
    reveal_strlit("perform action \"set_tab_title:");
    assert(line.last() == '"');
    lemma_trim_indented(line);
    let t = line.skip(4);
    let quoted = esc + seq!['"'];
    // The configuration.
    let prefix = "set initial working directory of cfg"@;
    let open = " to \""@;
    assert(t.take(prefix.len() as int) == prefix);
    let rest = name + (open + quoted);
    assert(t.skip(prefix.len() as int) == rest);
    assert forall|i: int| 0 <= i < name.len() implies crate::number::is_digit(
        #[trigger] rest[i],
    ) by {
        assert(crate::number::is_digit(name[i]));
    }
    crate::applescript::lemma_digit_run_is(rest, name.len() as int);
    assert(rest.take(name.len() as int) == name);
    let after = open + quoted;
    assert(rest.skip(name.len() as int) == after);
    assert(after.take(4) == " to "@);
    let value = after.skip(4);
    assert(value == seq!['"'] + quoted);
    assert(crate::text::trim_start(value) == value);
    assert(value.skip(1) == esc + seq!['"'] + Seq::<char>::empty());
    crate::applescript::escaped_reads_back(dir, Seq::<char>::empty());
    // No root line.
    assert(t.take(4) == "set "@);
    let front = prefix.skip(4) + name + open;
    assert(t.skip(4) == front + quoted);
    assert(quiet(front, 'f')) by {
        let a = prefix.skip(4);
        assert forall|k: int| 0 <= k < front.len() && #[trigger] front[k] == ' ' implies k + 1
            < front.len() && (front[k + 1] != 't' || k + 2 < front.len() && front[k + 2] != 'o' || k
            + 4 < front.len() && front[k + 4] != 'f') by {
            if k < a.len() {
                assert(a[k] == ' ');
                assert(front[k + 1] == a[k + 1]);
            } else if k < a.len() + name.len() {
                assert(crate::number::is_digit(name[k - a.len()]));
            } else {
                let m = k - a.len() - name.len();
                assert(open[m] == ' ');
            }
        }
    }
    let n = " to focused terminal of "@;
    reveal_strlit(" to focused terminal of ");
    let s = front + quoted;
    assert forall|j: int| 0 <= j < front.len() implies !crate::text::occurs_at(s, n, j) by {
        if crate::text::occurs_at(s, n, j) {
            let piece = s.subrange(j, j + n.len());
            assert(piece[0] == s[j] && piece[1] == s[j + 1] && piece[2] == s[j + 2] && piece[3]
                == s[j + 3] && piece[4] == s[j + 4]);
            assert(front[j] == ' ');
            assert(s[j + 1] == front[j + 1]);
        }
    }
    lemma_find_behind(front, quoted, n);
    // No title and no split.
    lemma_quoted_is_no_split(t);
    if crate::text::starts_with(t, "perform action \"set_tab_title:"@) {
        assert(t.take("perform action \"set_tab_title:"@.len() as int)[0] == t[0]);
    }
}

// Trees while they are read.
/// The tree with `x` in place of the panes that `var` holds.
spec fn put(
    tree: crate::layout::HeldTree,
    var: Seq<char>,
    x: crate::layout::HeldTree,
) -> crate::layout::HeldTree
    decreases tree,
{
    match tree {
        crate::layout::HeldTree::Leaf(held, _) => if held == Some(var) {
            x
        } else {
            tree
        },
        crate::layout::HeldTree::Right(a, b) => crate::layout::HeldTree::Right(
            Box::new(put(*a, var, x)),
            Box::new(put(*b, var, x)),
        ),
        crate::layout::HeldTree::Down(a, b) => crate::layout::HeldTree::Down(
            Box::new(put(*a, var, x)),
            Box::new(put(*b, var, x)),
        ),
    }
}

/// The panes that `var` holds are in `dir`.
spec fn held_in(tree: crate::layout::HeldTree, var: Seq<char>, dir: Seq<char>) -> bool
    decreases tree,
{
    match tree {
        crate::layout::HeldTree::Leaf(held, d) => held == Some(var) ==> d == dir,
        crate::layout::HeldTree::Right(a, b) => held_in(*a, var, dir) && held_in(*b, var, dir),
        crate::layout::HeldTree::Down(a, b) => held_in(*a, var, dir) && held_in(*b, var, dir),
    }
}

/// A split puts a pair of panes in place of one.
spec fn pair(
    var: Seq<char>,
    dir: Seq<char>,
    new_var: Seq<char>,
    new_dir: Seq<char>,
    right: bool,
) -> crate::layout::HeldTree {
    let kept = crate::layout::HeldTree::Leaf(Some(var), dir);
    let added = crate::layout::HeldTree::Leaf(Some(new_var), new_dir);
    if right {
        crate::layout::HeldTree::Right(Box::new(kept), Box::new(added))
    } else {
        crate::layout::HeldTree::Down(Box::new(kept), Box::new(added))
    }
}

proof fn lemma_split_is_put(
    tree: crate::layout::HeldTree,
    var: Seq<char>,
    new_var: Seq<char>,
    right: bool,
    dir: Seq<char>,
    new_dir: Seq<char>,
)
    requires
        var != new_var,
        !crate::layout::holds(tree, new_var),
        held_in(tree, var, dir),
    ensures
        crate::layout::split_pane(tree, var, new_var, right, new_dir) == put(
            tree,
            var,
            pair(var, dir, new_var, new_dir, right),
        ),
    decreases tree,
{
    match tree {
        crate::layout::HeldTree::Leaf(_, _) => {},
        crate::layout::HeldTree::Right(a, b) => {
            lemma_split_is_put(*a, var, new_var, right, dir, new_dir);
            lemma_split_is_put(*b, var, new_var, right, dir, new_dir);
        },
        crate::layout::HeldTree::Down(a, b) => {
            lemma_split_is_put(*a, var, new_var, right, dir, new_dir);
            lemma_split_is_put(*b, var, new_var, right, dir, new_dir);
        },
    }
}

/// Two replacements are one, where the second does not reach beside the first.
proof fn lemma_put_put(
    tree: crate::layout::HeldTree,
    v: Seq<char>,
    x: crate::layout::HeldTree,
    w: Seq<char>,
    y: crate::layout::HeldTree,
)
    requires
        v == w || !crate::layout::holds(tree, w),
    ensures
        put(put(tree, v, x), w, y) == put(tree, v, put(x, w, y)),
    decreases tree,
{
    match tree {
        crate::layout::HeldTree::Leaf(_, _) => {},
        crate::layout::HeldTree::Right(a, b) => {
            lemma_put_put(*a, v, x, w, y);
            lemma_put_put(*b, v, x, w, y);
        },
        crate::layout::HeldTree::Down(a, b) => {
            lemma_put_put(*a, v, x, w, y);
            lemma_put_put(*b, v, x, w, y);
        },
    }
}

/// Replacing panes by themselves changes nothing, nor does replacing none.
proof fn lemma_put_same(tree: crate::layout::HeldTree, v: Seq<char>, dir: Seq<char>)
    ensures
        held_in(tree, v, dir) ==> put(
            tree,
            v,
            crate::layout::HeldTree::Leaf(Some(v), dir),
        ) == tree,
    decreases tree,
{
    match tree {
        crate::layout::HeldTree::Leaf(_, _) => {},
        crate::layout::HeldTree::Right(a, b) => {
            lemma_put_same(*a, v, dir);
            lemma_put_same(*b, v, dir);
        },
        crate::layout::HeldTree::Down(a, b) => {
            lemma_put_same(*a, v, dir);
            lemma_put_same(*b, v, dir);
        },
    }
}

/// Replacing no pane changes nothing.
proof fn lemma_put_none(
    tree: crate::layout::HeldTree,
    v: Seq<char>,
    x: crate::layout::HeldTree,
)
    requires
        !crate::layout::holds(tree, v),
    ensures
        put(tree, v, x) == tree,
    decreases tree,
{
    match tree {
        crate::layout::HeldTree::Leaf(_, _) => {},
        crate::layout::HeldTree::Right(a, b) => {
            lemma_put_none(*a, v, x);
            lemma_put_none(*b, v, x);
        },
        crate::layout::HeldTree::Down(a, b) => {
            lemma_put_none(*a, v, x);
            lemma_put_none(*b, v, x);
        },
    }
}

/// Who holds panes after a replacement, and where.
proof fn lemma_put_holds(
    tree: crate::layout::HeldTree,
    v: Seq<char>,
    x: crate::layout::HeldTree,
    w: Seq<char>,
    dir: Seq<char>,
)
    ensures
        crate::layout::holds(put(tree, v, x), w) == ((w != v && crate::layout::holds(tree, w)) || (
        crate::layout::holds(tree, v) && crate::layout::holds(x, w))),
        (w == v || held_in(tree, w, dir)) && held_in(x, w, dir) ==> held_in(
            put(tree, v, x),
            w,
            dir,
        ),
    decreases tree,
{
    match tree {
        crate::layout::HeldTree::Leaf(_, _) => {},
        crate::layout::HeldTree::Right(a, b) => {
            lemma_put_holds(*a, v, x, w, dir);
            lemma_put_holds(*b, v, x, w, dir);
        },
        crate::layout::HeldTree::Down(a, b) => {
            lemma_put_holds(*a, v, x, w, dir);
            lemma_put_holds(*b, v, x, w, dir);
        },
    }
}

/// The variable of the `n`th pane of a single window.
spec fn var(n: nat) -> Seq<char> {
    "p"@ + crate::number::decimal(n)
}

/// Different panes have different variables.
proof fn lemma_vars_differ(a: nat, b: nat)
    ensures
        var(a) == var(b) ==> a == b,
{
    reveal_strlit("p");
    crate::number::decimal_reads_back(a);
    crate::number::decimal_reads_back(b);
    assert(var(a).skip(1) == crate::number::decimal(a));
    assert(var(b).skip(1) == crate::number::decimal(b));
}

/// No pane from the `n`th on is held.
spec fn fresh(tree: crate::layout::HeldTree, n: nat) -> bool {
    forall|k: nat| n <= k ==> !crate::layout::holds(tree, #[trigger] var(k))
}

/// A split tree whose panes are held: the anchor by `v`, the others by the variables of
/// the panes from the `n`th on.
spec fn labelled(
    tree: crate::restore_script::SplitTree,
    v: Seq<char>,
    n: nat,
) -> crate::layout::HeldTree
    decreases tree,
{
    match tree {
        crate::restore_script::SplitTree::Leaf(pane) => crate::layout::HeldTree::Leaf(
            Some(v),
            pane.dir,
        ),
        crate::restore_script::SplitTree::Vertical(a, b) => crate::layout::HeldTree::Right(
            Box::new(labelled(*a, v, n + 1)),
            Box::new(labelled(*b, var(n), n + 1 + crate::restore_script::split_count(*a))),
        ),
        crate::restore_script::SplitTree::Horizontal(a, b) => crate::layout::HeldTree::Down(
            Box::new(labelled(*a, v, n + 1)),
            Box::new(labelled(*b, var(n), n + 1 + crate::restore_script::split_count(*a))),
        ),
    }
}

/// Who holds the panes of a labelled tree.
proof fn lemma_labelled_holds(
    tree: crate::restore_script::SplitTree,
    v: Seq<char>,
    n: nat,
    w: Seq<char>,
)
    ensures
        crate::layout::holds(labelled(tree, v, n), w) ==> w == v || exists|k: nat|
            n <= k < n + crate::restore_script::split_count(tree) && w == #[trigger] var(k),
        crate::layout::holds(labelled(tree, v, n), v),
        crate::layout::held_dir(labelled(tree, v, n), v) == Some(
            crate::restore_script::anchor(tree).dir,
        ),
    decreases tree,
{
    match tree {
        crate::restore_script::SplitTree::Leaf(_) => {},
        crate::restore_script::SplitTree::Vertical(a, b) => {
            lemma_labelled_holds(*a, v, n + 1, w);
            lemma_labelled_holds(
                *b,
                var(n),
                n + 1 + crate::restore_script::split_count(*a),
                w,
            );
        },
        crate::restore_script::SplitTree::Horizontal(a, b) => {
            lemma_labelled_holds(*a, v, n + 1, w);
            lemma_labelled_holds(
                *b,
                var(n),
                n + 1 + crate::restore_script::split_count(*a),
                w,
            );
        },
    }
}

/// A labelled tree holds no pane from its end on, nor one before it but `v`.
proof fn lemma_labelled_range(
    tree: crate::restore_script::SplitTree,
    v: Seq<char>,
    n: nat,
    k: nat,
)
    requires
        v != var(k),
        k < n || n + crate::restore_script::split_count(tree) <= k,
    ensures
        !crate::layout::holds(labelled(tree, v, n), var(k)),
{
    lemma_labelled_holds(tree, v, n, var(k));
    if crate::layout::holds(labelled(tree, v, n), var(k)) {
        let m = choose|m: nat|
            n <= m < n + crate::restore_script::split_count(tree) && var(k) == #[trigger] var(m);
        lemma_vars_differ(k, m);
    }
}

/// The panes of a split tree.
pub open spec fn tree_panes(tree: crate::restore_script::SplitTree) -> crate::layout::PaneTree
    decreases tree,
{
    match tree {
        crate::restore_script::SplitTree::Leaf(pane) => crate::layout::PaneTree::Leaf(pane.dir),
        crate::restore_script::SplitTree::Vertical(a, b) => crate::layout::PaneTree::SplitRight(
            Box::new(tree_panes(*a)),
            Box::new(tree_panes(*b)),
        ),
        crate::restore_script::SplitTree::Horizontal(a, b) => crate::layout::PaneTree::SplitDown(
            Box::new(tree_panes(*a)),
            Box::new(tree_panes(*b)),
        ),
    }
}

/// Labels do not change the panes.
proof fn lemma_labelled_panes(tree: crate::restore_script::SplitTree, v: Seq<char>, n: nat)
    ensures
        crate::layout::panes_only(labelled(tree, v, n)) == tree_panes(tree),
    decreases tree,
{
    match tree {
        crate::restore_script::SplitTree::Leaf(_) => {},
        crate::restore_script::SplitTree::Vertical(a, b) => {
            lemma_labelled_panes(*a, v, n + 1);
            lemma_labelled_panes(*b, var(n), n + 1 + crate::restore_script::split_count(*a));
        },
        crate::restore_script::SplitTree::Horizontal(a, b) => {
            lemma_labelled_panes(*a, v, n + 1);
            lemma_labelled_panes(*b, var(n), n + 1 + crate::restore_script::split_count(*a));
        },
    }
}

// Replaying lines.
/// Reading goes on where it stopped.
proof fn lemma_lines_append(
    tabs: Seq<crate::layout::OpenTab>,
    a: Seq<Seq<char>>,
    b: Seq<Seq<char>>,
    dirs: Seq<(int, Seq<char>)>,
)
    ensures
        crate::layout::after_lines(tabs, a + b, dirs) == crate::layout::after_lines(
            crate::layout::after_lines(tabs, a, dirs),
            b,
            dirs,
        ),
    decreases b.len(),
{
    if b.len() == 0 {
        assert(a + b == a);
    } else {
        lemma_lines_append(tabs, a, b.drop_last(), dirs);
        assert((a + b).drop_last() == a + b.drop_last());
    }
}

/// Reading one line.
proof fn lemma_one_line(
    tabs: Seq<crate::layout::OpenTab>,
    line: Seq<char>,
    dirs: Seq<(int, Seq<char>)>,
)
    ensures
        crate::layout::after_lines(tabs, seq![line], dirs) == crate::layout::after_line(
            tabs,
            line,
            dirs,
        ),
{
    assert(seq![line].drop_last() == Seq::<Seq<char>>::empty());
    assert(crate::layout::after_lines(tabs, seq![line].drop_last(), dirs) == tabs);
}

/// Configurations of two runs of lines.
proof fn lemma_dirs_append(a: Seq<Seq<char>>, b: Seq<Seq<char>>)
    ensures
        crate::layout::config_dirs(a + b) == crate::layout::config_dirs(a)
            + crate::layout::config_dirs(b),
    decreases b.len(),
{
    if b.len() == 0 {
        assert(a + b == a);
        assert(crate::layout::config_dirs(a) + crate::layout::config_dirs(b)
            == crate::layout::config_dirs(a));
    } else {
        lemma_dirs_append(a, b.drop_last());
        assert((a + b).drop_last() == a + b.drop_last());
        let x = crate::layout::config_dirs(a);
        let y = crate::layout::config_dirs(b.drop_last());
        if let Some(entry) = crate::layout::config_dir(b.last()) {
            assert((x + y).push(entry) == x + y.push(entry));
        }
    }
}

/// The configuration of one line.
proof fn lemma_dirs_one(line: Seq<char>)
    ensures
        crate::layout::config_dirs(seq![line]) == match crate::layout::config_dir(line) {
            Some(entry) => seq![entry],
            None => seq![],
        },
{
    assert(seq![line].drop_last() == Seq::<Seq<char>>::empty());
    assert(crate::layout::config_dirs(seq![line].drop_last()) == Seq::<(int, Seq<char>)>::empty());
}

/// Entries for other configurations do not matter.
proof fn lemma_dir_of_front(a: Seq<(int, Seq<char>)>, b: Seq<(int, Seq<char>)>, index: int)
    requires
        forall|i: int| 0 <= i < b.len() ==> (#[trigger] b[i]).0 != index,
    ensures
        crate::layout::dir_of(a + b, index) == crate::layout::dir_of(a, index),
    decreases b.len(),
{
    if b.len() == 0 {
        assert(a + b == a);
    } else {
        let c = b.drop_last();
        assert forall|i: int| 0 <= i < c.len() implies (#[trigger] c[i]).0 != index by {
            assert(c[i] == b[i]);
        }
        lemma_dir_of_front(a, c, index);
        assert((a + b).drop_last() == a + c);
        assert(b[b.len() - 1].0 != index);
    }
}

/// The configurations of the splits of a tree, from the `n`th on.
spec fn tree_dirs(tree: crate::restore_script::SplitTree, n: nat) -> Seq<(int, Seq<char>)>
    decreases tree,
{
    match tree {
        crate::restore_script::SplitTree::Leaf(_) => seq![],
        crate::restore_script::SplitTree::Vertical(a, b) => seq![
            (n as int, crate::restore_script::anchor(*b).dir),
        ] + tree_dirs(*a, n + 1) + tree_dirs(
            *b,
            n + 1 + crate::restore_script::split_count(*a),
        ),
        crate::restore_script::SplitTree::Horizontal(a, b) => seq![
            (n as int, crate::restore_script::anchor(*b).dir),
        ] + tree_dirs(*a, n + 1) + tree_dirs(
            *b,
            n + 1 + crate::restore_script::split_count(*a),
        ),
    }
}

/// All entries have indexes from `low` up to `high`.
spec fn indexes_in(dirs: Seq<(int, Seq<char>)>, low: nat, high: nat) -> bool {
    forall|i: int| 0 <= i < dirs.len() ==> low <= (#[trigger] dirs[i]).0 < high
}

/// The configurations of a tree have its numbers.
proof fn lemma_tree_dirs_range(tree: crate::restore_script::SplitTree, n: nat)
    ensures
        indexes_in(
            tree_dirs(tree, n),
            n,
            n + crate::restore_script::split_count(tree),
        ),
    decreases tree,
{
    match tree {
        crate::restore_script::SplitTree::Leaf(_) => {},
        crate::restore_script::SplitTree::Vertical(a, b) => {
            lemma_tree_dirs_range(*a, n + 1);
            lemma_tree_dirs_range(*b, n + 1 + crate::restore_script::split_count(*a));
        },
        crate::restore_script::SplitTree::Horizontal(a, b) => {
            lemma_tree_dirs_range(*a, n + 1);
            lemma_tree_dirs_range(*b, n + 1 + crate::restore_script::split_count(*a));
        },
    }
}

/// `dirs` gives each split of the tree the working directory that it needs.
spec fn covers(
    dirs: Seq<(int, Seq<char>)>,
    tree: crate::restore_script::SplitTree,
    n: nat,
) -> bool
    decreases tree,
{
    match tree {
        crate::restore_script::SplitTree::Leaf(_) => true,
        crate::restore_script::SplitTree::Vertical(a, b) => {
            &&& crate::layout::dir_of(dirs, n as int) == Some(
                crate::restore_script::anchor(*b).dir,
            )
            &&& covers(dirs, *a, n + 1)
            &&& covers(dirs, *b, n + 1 + crate::restore_script::split_count(*a))
        },
        crate::restore_script::SplitTree::Horizontal(a, b) => {
            &&& crate::layout::dir_of(dirs, n as int) == Some(
                crate::restore_script::anchor(*b).dir,
            )
            &&& covers(dirs, *a, n + 1)
            &&& covers(dirs, *b, n + 1 + crate::restore_script::split_count(*a))
        },
    }
}

/// An entry is found where nothing behind it has its index.
proof fn lemma_dir_of_entry(
    a: Seq<(int, Seq<char>)>,
    index: int,
    dir: Seq<char>,
    b: Seq<(int, Seq<char>)>,
)
    requires
        forall|i: int| 0 <= i < b.len() ==> (#[trigger] b[i]).0 != index,
    ensures
        crate::layout::dir_of(a + seq![(index, dir)] + b, index) == Some(dir),
{
    let c = a + seq![(index, dir)];
    lemma_dir_of_front(c, b, index);
    assert(c.last() == (index, dir));
}

/// The configurations of a tree cover it, whatever stands in front of them and behind
/// them with other numbers.
proof fn lemma_covers(
    a: Seq<(int, Seq<char>)>,
    tree: crate::restore_script::SplitTree,
    n: nat,
    b: Seq<(int, Seq<char>)>,
)
    requires
        forall|i: int|
            0 <= i < b.len() ==> n + crate::restore_script::split_count(tree) <= (
            #[trigger] b[i]).0,
    ensures
        covers(a + tree_dirs(tree, n) + b, tree, n),
    decreases tree,
{
    match tree {
        crate::restore_script::SplitTree::Leaf(_) => {},
        crate::restore_script::SplitTree::Vertical(x, y) => {
            lemma_covers_halves(a, *x, *y, n, b);
            let m = n + 1 + crate::restore_script::split_count(*x);
            let entry = seq![(n as int, crate::restore_script::anchor(*y).dir)];
            let dx = tree_dirs(*x, n + 1);
            let dy = tree_dirs(*y, m);
            lemma_covers(a + entry, *x, n + 1, dy + b);
            lemma_covers(a + entry + dx, *y, m, b);
            assert(a + (entry + dx + dy) + b == a + entry + dx + (dy + b));
            assert(a + (entry + dx + dy) + b == a + entry + dx + dy + b);
        },
        crate::restore_script::SplitTree::Horizontal(x, y) => {
            lemma_covers_halves(a, *x, *y, n, b);
            let m = n + 1 + crate::restore_script::split_count(*x);
            let entry = seq![(n as int, crate::restore_script::anchor(*y).dir)];
            let dx = tree_dirs(*x, n + 1);
            let dy = tree_dirs(*y, m);
            lemma_covers(a + entry, *x, n + 1, dy + b);
            lemma_covers(a + entry + dx, *y, m, b);
            assert(a + (entry + dx + dy) + b == a + entry + dx + (dy + b));
            assert(a + (entry + dx + dy) + b == a + entry + dx + dy + b);
        },
    }
}

/// The entry of a split is found behind its halves' entries.
proof fn lemma_covers_halves(
    a: Seq<(int, Seq<char>)>,
    x: crate::restore_script::SplitTree,
    y: crate::restore_script::SplitTree,
    n: nat,
    b: Seq<(int, Seq<char>)>,
)
    requires
        forall|i: int|
            0 <= i < b.len() ==> n + 1 + crate::restore_script::split_count(x)
                + crate::restore_script::split_count(y) <= (#[trigger] b[i]).0,
    ensures
        ({
            let m = n + 1 + crate::restore_script::split_count(x);
            let entry = seq![(n as int, crate::restore_script::anchor(y).dir)];
            let dx = tree_dirs(x, n + 1);
            let dy = tree_dirs(y, m);
            &&& crate::layout::dir_of(a + (entry + dx + dy) + b, n as int) == Some(
                crate::restore_script::anchor(y).dir,
            )
            &&& forall|i: int| 0 <= i < (dy + b).len() ==> m <= (#[trigger] (dy + b)[i]).0
        }),
{
    let m = n + 1 + crate::restore_script::split_count(x);
    let dir = crate::restore_script::anchor(y).dir;
    let entry = seq![(n as int, dir)];
    let dx = tree_dirs(x, n + 1);
    let dy = tree_dirs(y, m);
    lemma_tree_dirs_range(x, n + 1);
    lemma_tree_dirs_range(y, m);
    let rest = dx + dy + b;
    assert forall|i: int| 0 <= i < rest.len() implies (#[trigger] rest[i]).0 != n as int by {
        if i < dx.len() {
            assert(rest[i] == dx[i]);
        } else if i < dx.len() + dy.len() {
            assert(rest[i] == dy[i - dx.len()]);
        } else {
            assert(rest[i] == b[i - dx.len() - dy.len()]);
        }
    }
    lemma_dir_of_entry(a, n as int, dir, rest);
    assert(a + (entry + dx + dy) + b == a + entry + rest);
    assert forall|i: int| 0 <= i < (dy + b).len() implies m <= (#[trigger] (dy + b)[i]).0 by {
        if i < dy.len() {
            assert((dy + b)[i] == dy[i]);
        } else {
            assert((dy + b)[i] == b[i - dy.len()]);
        }
    }
}

// Replaying the splits of a tab.
/// A working directory that a script can hold and read back: no line break in it, and
/// its line is not taken for the line that names a tab's first pane.
pub open spec fn readable_dir(dir: Seq<char>) -> bool {
    !crate::text::has_char(dir, '\n') && !reads_as_root(dir)
}

/// What an escaped text starts with, it starts with itself, as far as that needs no
/// escaping.
proof fn lemma_escaped_start(s: Seq<char>, m: Seq<char>)
    requires
        !crate::text::has_char(m, '\\'),
        !crate::text::has_char(m, '"'),
        m.len() <= crate::applescript::escaped(s).len() + 1,
        (crate::applescript::escaped(s) + seq!['"']).take(m.len() as int) == m,
    ensures
        m.len() <= s.len(),
        s.take(m.len() as int) == m,
    decreases m.len(),
{
    let all = crate::applescript::escaped(s) + seq!['"'];
    if m.len() > 0 {
        assert(all.take(m.len() as int)[0] == m[0]);
        assert(m[0] != '"' && m[0] != '\\');
        assert(s.len() > 0);
        let t = s.skip(1);
        let head = crate::applescript::escaped_char(s[0]);
        assert(all[0] == head[0]);
        assert(head == seq![s[0]]);
        let rest = crate::applescript::escaped(t) + seq!['"'];
        let k = m.skip(1);
        assert(rest =~= all.skip(1));
        assert(rest.take(k.len() as int) =~= all.take(m.len() as int).skip(1));
        assert forall|c: char| !crate::text::has_char(m, c) implies !#[trigger] crate::text::has_char(
            k,
            c,
        ) by {
            if crate::text::has_char(k, c) {
                let i = choose|i: int| 0 <= i < k.len() && k[i] == c;
                assert(m[i + 1] == c);
            }
        }
        lemma_escaped_start(t, k);
        assert(s.take(m.len() as int) =~= seq![s[0]] + t.take(k.len() as int));
        assert(m =~= seq![m[0]] + k);
    } else {
        assert(s.take(0) =~= m);
    }
}

/// A text that needs no escaping stands in an escaped text only where it stands in the
/// text itself.
proof fn lemma_escaped_holds(s: Seq<char>, m: Seq<char>, i: int)
    requires
        m.len() > 0,
        !crate::text::has_char(m, '\\'),
        !crate::text::has_char(m, '"'),
        crate::text::occurs_at(crate::applescript::escaped(s) + seq!['"'], m, i),
    ensures
        crate::text::contains(s, m),
    decreases s.len(),
{
    let all = crate::applescript::escaped(s) + seq!['"'];
    let piece = all.subrange(i, i + m.len());
    assert(piece[0] == m[0]);
    assert(m[0] != '"' && m[0] != '\\');
    assert(s.len() > 0);
    let t = s.skip(1);
    let head = crate::applescript::escaped_char(s[0]);
    let rest = crate::applescript::escaped(t) + seq!['"'];
    assert(all =~= head + rest);
    if i < head.len() {
        assert(all[i] == head[i]);
        assert(i == 0);
        assert(all.take(m.len() as int) =~= piece);
        lemma_escaped_start(s, m);
        assert(s.subrange(0, m.len() as int) =~= s.take(m.len() as int));
        assert(crate::text::occurs_at(s, m, 0));
    } else {
        let k = i - head.len();
        assert(rest.subrange(k, k + m.len()) =~= piece);
        assert(crate::text::occurs_at(rest, m, k));
        lemma_escaped_holds(t, m, k);
        let j = choose|j: int| crate::text::occurs_at(t, m, j);
        assert(s.subrange(j + 1, j + 1 + m.len()) =~= t.subrange(j, j + m.len()));
        assert(crate::text::occurs_at(s, m, j + 1));
    }
}

/// A working directory can be read back where it holds no line break and does not speak
/// of a focused terminal.
pub proof fn ordinary_dirs_are_readable(dir: Seq<char>)
    requires
        !crate::text::has_char(dir, '\n'),
        !crate::text::contains(dir, " to focused terminal of "@),
    ensures
        readable_dir(dir),
{
    reveal_strlit(" to focused terminal of ");
    let m = " to focused terminal of "@;
    let all = crate::applescript::escaped(dir) + seq!['"'];
    assert(!crate::text::has_char(m, '\\'));
    assert(!crate::text::has_char(m, '"'));
    crate::text::lemma_find_from(all, m, 0);
    if let Some(i) = crate::text::find(all, m) {
        lemma_escaped_holds(dir, m, i);
    }
}

/// All working directories of a tree can be read back.
spec fn readable_tree(tree: crate::restore_script::SplitTree) -> bool
    decreases tree,
{
    match tree {
        crate::restore_script::SplitTree::Leaf(pane) => readable_dir(pane.dir),
        crate::restore_script::SplitTree::Vertical(a, b) => readable_tree(*a) && readable_tree(*b),
        crate::restore_script::SplitTree::Horizontal(a, b) => readable_tree(*a) && readable_tree(
            *b,
        ),
    }
}

/// So can that of its anchor.
proof fn lemma_readable_anchor(tree: crate::restore_script::SplitTree)
    requires
        readable_tree(tree),
    ensures
        readable_dir(crate::restore_script::anchor(tree).dir),
    decreases tree,
{
    match tree {
        crate::restore_script::SplitTree::Leaf(_) => {},
        crate::restore_script::SplitTree::Vertical(a, _) => {
            lemma_readable_anchor(*a);
        },
        crate::restore_script::SplitTree::Horizontal(a, _) => {
            lemma_readable_anchor(*a);
        },
    }
}

/// A blank line says nothing.
proof fn lemma_blank_line()
    ensures
        says_nothing(""@),
{
    reveal_strlit("");
    assert(crate::text::trim(""@).len() == 0);
    lemma_other_start(""@);
}

/// The lines that make a configuration change no tab and give it its directory.
proof fn lemma_config_lines(
    tabs: Seq<crate::layout::OpenTab>,
    n: nat,
    dir: Seq<char>,
    dirs: Seq<(int, Seq<char>)>,
)
    requires
        n <= usize::MAX,
        !reads_as_root(dir),
    ensures
        ({
            let lines = crate::restore_script::config_lines(crate::number::decimal(n), dir);
            &&& crate::layout::after_lines(tabs, lines, dirs) == tabs
            &&& crate::layout::config_dirs(lines) == seq![(n as int, dir)]
        }),
{
    let name = crate::number::decimal(n);
    lemma_name(n);
    let a = ""@;
    let b = crate::restore_script::config_line(name);
    let c = crate::restore_script::dir_line(name, dir);
    let lines = crate::restore_script::config_lines(name, dir);
    lemma_blank_line();
    lemma_config_line(name);
    lemma_dir_line(name, dir);
    assert(lines == seq![a] + seq![b] + seq![c]);
    lemma_lines_append(tabs, seq![a] + seq![b], seq![c], dirs);
    lemma_lines_append(tabs, seq![a], seq![b], dirs);
    lemma_one_line(tabs, a, dirs);
    lemma_one_line(tabs, b, dirs);
    lemma_one_line(tabs, c, dirs);
    lemma_dirs_append(seq![a] + seq![b], seq![c]);
    lemma_dirs_append(seq![a], seq![b]);
    lemma_dirs_one(a);
    lemma_dirs_one(b);
    lemma_dirs_one(c);
    assert(Seq::<(int, Seq<char>)>::empty() + Seq::<(int, Seq<char>)>::empty() + seq![
        (n as int, dir),
    ] == seq![(n as int, dir)]);
}

/// The last tab with another tree.
spec fn with_tree(
    tabs: Seq<crate::layout::OpenTab>,
    tree: crate::layout::HeldTree,
) -> Seq<crate::layout::OpenTab> {
    tabs.drop_last().push(crate::layout::OpenTab { tree, ..tabs.last() })
}

/// The lines of one split, on the pane of `var(m)`, in `dir`.
proof fn lemma_split_step(
    tabs: Seq<crate::layout::OpenTab>,
    m: nat,
    n: nat,
    right: bool,
    dir: Seq<char>,
    new_dir: Seq<char>,
    dirs: Seq<(int, Seq<char>)>,
)
    requires
        tabs.len() > 0,
        m < n <= usize::MAX,
        !reads_as_root(new_dir),
        crate::layout::holds(tabs.last().tree, var(m)),
        held_in(tabs.last().tree, var(m), dir),
        fresh(tabs.last().tree, n),
        crate::layout::dir_of(dirs, n as int) == Some(new_dir),
    ensures
        ({
            let name = crate::number::decimal(n);
            let lines = crate::restore_script::config_lines(name, new_dir).push(
                crate::restore_script::split_line(name, var(m), right),
            );
            let next = put(
                tabs.last().tree,
                var(m),
                pair(var(m), dir, var(n), new_dir, right),
            );
            &&& crate::layout::after_lines(tabs, lines, dirs) == with_tree(tabs, next)
            &&& crate::layout::config_dirs(lines) == seq![(n as int, new_dir)]
            &&& crate::layout::holds(next, var(m))
            &&& held_in(next, var(m), dir)
            &&& fresh(next, n + 1)
        }),
{
    let name = crate::number::decimal(n);
    let tree = tabs.last().tree;
    let x = pair(var(m), dir, var(n), new_dir, right);
    let next = put(tree, var(m), x);
    let head = crate::restore_script::config_lines(name, new_dir);
    let line = crate::restore_script::split_line(name, var(m), right);
    lemma_name(m);
    lemma_name(n);
    lemma_vars_differ(m, n);
    lemma_config_lines(tabs, n, new_dir, dirs);
    lemma_split_line(name, crate::number::decimal(m), right);
    assert(head.push(line) == head + seq![line]);
    lemma_lines_append(tabs, head, seq![line], dirs);
    lemma_one_line(tabs, line, dirs);
    lemma_split_is_put(tree, var(m), var(n), right, dir, new_dir);
    lemma_dirs_append(head, seq![line]);
    lemma_dirs_one(line);
    assert(seq![(n as int, new_dir)] + Seq::<(int, Seq<char>)>::empty() == seq![
        (n as int, new_dir),
    ]);
    // The variables after the split.
    let kept = crate::layout::HeldTree::Leaf(Some(var(m)), dir);
    let added = crate::layout::HeldTree::Leaf(Some(var(n)), new_dir);
    assert(held_in(kept, var(m), dir) && held_in(added, var(m), dir));
    assert(crate::layout::holds(kept, var(m)));
    lemma_put_holds(tree, var(m), x, var(m), dir);
    assert forall|k: nat| n + 1 <= k implies !crate::layout::holds(next, #[trigger] var(k)) by {
        lemma_vars_differ(k, m);
        lemma_vars_differ(k, n);
        lemma_put_holds(tree, var(m), x, var(k), dir);
        assert(!crate::layout::holds(kept, var(k)) && !crate::layout::holds(added, var(k)));
    }
}

/// After the first half of a split was replayed, the second half's pane waits.
proof fn lemma_second_half(
    tree: crate::layout::HeldTree,
    a: crate::restore_script::SplitTree,
    m: nat,
    n: nat,
    right: bool,
    dir: Seq<char>,
    new_dir: Seq<char>,
)
    requires
        m < n,
        crate::layout::holds(tree, var(m)),
        fresh(tree, n),
    ensures
        ({
            let x = pair(var(m), dir, var(n), new_dir, right);
            let next = put(put(tree, var(m), x), var(m), labelled(a, var(m), n + 1));
            &&& crate::layout::holds(next, var(n))
            &&& held_in(next, var(n), new_dir)
            &&& fresh(next, n + 1 + crate::restore_script::split_count(a))
        }),
{
    let x = pair(var(m), dir, var(n), new_dir, right);
    let one = put(tree, var(m), x);
    let la = labelled(a, var(m), n + 1);
    let next = put(one, var(m), la);
    let kept = crate::layout::HeldTree::Leaf(Some(var(m)), dir);
    let added = crate::layout::HeldTree::Leaf(Some(var(n)), new_dir);
    lemma_vars_differ(m, n);
    lemma_labelled_range(a, var(m), n + 1, n);
    assert(crate::layout::holds(added, var(n)));
    assert(held_in(kept, var(n), new_dir) && held_in(added, var(n), new_dir));
    assert(held_in(x, var(n), new_dir));
    lemma_absent_held_in(tree, var(n), new_dir);
    lemma_absent_held_in(la, var(n), new_dir);
    lemma_put_holds(tree, var(m), x, var(n), new_dir);
    lemma_put_holds(one, var(m), la, var(n), new_dir);
    assert forall|k: nat|
        n + 1 + crate::restore_script::split_count(a) <= k implies !crate::layout::holds(
        next,
        #[trigger] var(k),
    ) by {
        lemma_vars_differ(k, m);
        lemma_vars_differ(k, n);
        lemma_labelled_range(a, var(m), n + 1, k);
        lemma_put_holds(tree, var(m), x, var(k), dir);
        lemma_put_holds(one, var(m), la, var(k), dir);
        assert(!crate::layout::holds(kept, var(k)) && !crate::layout::holds(added, var(k)));
    }
}

/// A variable that holds nothing holds all it holds anywhere.
proof fn lemma_absent_held_in(tree: crate::layout::HeldTree, v: Seq<char>, dir: Seq<char>)
    requires
        !crate::layout::holds(tree, v),
    ensures
        held_in(tree, v, dir),
    decreases tree,
{
    match tree {
        crate::layout::HeldTree::Leaf(_, _) => {},
        crate::layout::HeldTree::Right(a, b) => {
            lemma_absent_held_in(*a, v, dir);
            lemma_absent_held_in(*b, v, dir);
        },
        crate::layout::HeldTree::Down(a, b) => {
            lemma_absent_held_in(*a, v, dir);
            lemma_absent_held_in(*b, v, dir);
        },
    }
}

/// Replaying both halves puts the whole labelled split in place of the pane.
proof fn lemma_halves_make_whole(
    tree: crate::layout::HeldTree,
    a: crate::restore_script::SplitTree,
    b: crate::restore_script::SplitTree,
    m: nat,
    n: nat,
    right: bool,
    dir: Seq<char>,
    new_dir: Seq<char>,
)
    requires
        m < n,
        fresh(tree, n),
    ensures
        ({
            let x = pair(var(m), dir, var(n), new_dir, right);
            let la = labelled(a, var(m), n + 1);
            let lb = labelled(b, var(n), n + 1 + crate::restore_script::split_count(a));
            let whole = if right {
                crate::layout::HeldTree::Right(Box::new(la), Box::new(lb))
            } else {
                crate::layout::HeldTree::Down(Box::new(la), Box::new(lb))
            };
            put(put(put(tree, var(m), x), var(m), la), var(n), lb) == put(tree, var(m), whole)
        }),
{
    let x = pair(var(m), dir, var(n), new_dir, right);
    let la = labelled(a, var(m), n + 1);
    let lb = labelled(b, var(n), n + 1 + crate::restore_script::split_count(a));
    lemma_vars_differ(m, n);
    lemma_labelled_range(a, var(m), n + 1, n);
    lemma_put_put(tree, var(m), x, var(m), la);
    let y = put(x, var(m), la);
    lemma_put_put(tree, var(m), y, var(n), lb);
    let kept = crate::layout::HeldTree::Leaf(Some(var(m)), dir);
    let added = crate::layout::HeldTree::Leaf(Some(var(n)), new_dir);
    assert(put(kept, var(m), la) == la);
    assert(put(added, var(m), la) == added);
    lemma_put_none(la, var(n), lb);
    assert(put(added, var(n), lb) == lb);
}

/// Replaying the lines of a tree's splits puts the labelled tree in place of the pane
/// that they start from.
proof fn lemma_replay(
    tabs: Seq<crate::layout::OpenTab>,
    tree: crate::restore_script::SplitTree,
    m: nat,
    n: nat,
    dirs: Seq<(int, Seq<char>)>,
)
    requires
        tabs.len() > 0,
        m < n,
        n + crate::restore_script::split_count(tree) <= usize::MAX + 1,
        readable_tree(tree),
        crate::layout::holds(tabs.last().tree, var(m)),
        held_in(tabs.last().tree, var(m), crate::restore_script::anchor(tree).dir),
        fresh(tabs.last().tree, n),
        covers(dirs, tree, n),
    ensures
        crate::layout::after_lines(
            tabs,
            crate::restore_script::split_lines(tree, var(m), ""@, n),
            dirs,
        ) == with_tree(tabs, put(tabs.last().tree, var(m), labelled(tree, var(m), n))),
    decreases tree,
{
    let start = tabs.last().tree;
    let dir = crate::restore_script::anchor(tree).dir;
    let name = crate::number::decimal(n);
    match tree {
        crate::restore_script::SplitTree::Leaf(_) => {
            lemma_put_same(start, var(m), dir);
            assert(with_tree(tabs, start) == tabs);
        },
        crate::restore_script::SplitTree::Vertical(a, b) => {
            lemma_name(n);
            let new_dir = crate::restore_script::anchor(*b).dir;
            lemma_readable_anchor(*b);
            lemma_split_step(tabs, m, n, true, dir, new_dir, dirs);
            let x = pair(var(m), dir, var(n), new_dir, true);
            let one = with_tree(tabs, put(start, var(m), x));
            lemma_replay(one, *a, m, n + 1, dirs);
            lemma_second_half(start, *a, m, n, true, dir, new_dir);
            let next = n + 1 + crate::restore_script::split_count(*a);
            let two = with_tree(one, put(one.last().tree, var(m), labelled(*a, var(m), n + 1)));
            lemma_replay(two, *b, n, next, dirs);
            lemma_halves_make_whole(start, *a, *b, m, n, true, dir, new_dir);
            let head = crate::restore_script::config_lines(name, new_dir).push(
                crate::restore_script::split_line(name, var(m), true),
            );
            let la = crate::restore_script::split_lines(*a, var(m), ""@, n + 1);
            let lb = crate::restore_script::split_lines(*b, var(n), ""@, next);
            lemma_lines_append(tabs, head + la, lb, dirs);
            lemma_lines_append(tabs, head, la, dirs);
            assert(two.drop_last() == tabs.drop_last());
        },
        crate::restore_script::SplitTree::Horizontal(a, b) => {
            lemma_name(n);
            let new_dir = crate::restore_script::anchor(*b).dir;
            lemma_readable_anchor(*b);
            lemma_split_step(tabs, m, n, false, dir, new_dir, dirs);
            let x = pair(var(m), dir, var(n), new_dir, false);
            let one = with_tree(tabs, put(start, var(m), x));
            lemma_replay(one, *a, m, n + 1, dirs);
            lemma_second_half(start, *a, m, n, false, dir, new_dir);
            let next = n + 1 + crate::restore_script::split_count(*a);
            let two = with_tree(one, put(one.last().tree, var(m), labelled(*a, var(m), n + 1)));
            lemma_replay(two, *b, n, next, dirs);
            lemma_halves_make_whole(start, *a, *b, m, n, false, dir, new_dir);
            let head = crate::restore_script::config_lines(name, new_dir).push(
                crate::restore_script::split_line(name, var(m), false),
            );
            let la = crate::restore_script::split_lines(*a, var(m), ""@, n + 1);
            let lb = crate::restore_script::split_lines(*b, var(n), ""@, next);
            lemma_lines_append(tabs, head + la, lb, dirs);
            lemma_lines_append(tabs, head, la, dirs);
            assert(two.drop_last() == tabs.drop_last());
        },
    }
}

/// The configurations of the lines of a tree's splits.
proof fn lemma_split_lines_dirs(tree: crate::restore_script::SplitTree, m: nat, n: nat)
    requires
        m < n,
        n + crate::restore_script::split_count(tree) <= usize::MAX + 1,
        readable_tree(tree),
    ensures
        crate::layout::config_dirs(
            crate::restore_script::split_lines(tree, var(m), ""@, n),
        ) == tree_dirs(tree, n),
    decreases tree,
{
    match tree {
        crate::restore_script::SplitTree::Leaf(_) => {},
        crate::restore_script::SplitTree::Vertical(a, b) => {
            lemma_pair_dirs(*a, *b, m, n, true);
            lemma_split_lines_dirs(*a, m, n + 1);
            lemma_split_lines_dirs(*b, n, n + 1 + crate::restore_script::split_count(*a));
        },
        crate::restore_script::SplitTree::Horizontal(a, b) => {
            lemma_pair_dirs(*a, *b, m, n, false);
            lemma_split_lines_dirs(*a, m, n + 1);
            lemma_split_lines_dirs(*b, n, n + 1 + crate::restore_script::split_count(*a));
        },
    }
}

/// The configurations of the lines of one split and its halves.
proof fn lemma_pair_dirs(
    a: crate::restore_script::SplitTree,
    b: crate::restore_script::SplitTree,
    m: nat,
    n: nat,
    right: bool,
)
    requires
        m < n <= usize::MAX,
        readable_tree(b),
    ensures
        ({
            let name = crate::restore_script::pane_name(""@, n);
            let new_dir = crate::restore_script::anchor(b).dir;
            let head = crate::restore_script::config_lines(name, new_dir).push(
                crate::restore_script::split_line(name, var(m), right),
            );
            let la = crate::restore_script::split_lines(a, var(m), ""@, n + 1);
            let lb = crate::restore_script::split_lines(
                b,
                "p"@ + name,
                ""@,
                n + 1 + crate::restore_script::split_count(a),
            );
            &&& crate::layout::config_dirs(head + la + lb) == seq![(n as int, new_dir)]
                + crate::layout::config_dirs(la) + crate::layout::config_dirs(lb)
            &&& "p"@ + name == var(n)
        }),
{
    let name = crate::number::decimal(n);
    lemma_name(n);
    lemma_name(m);
    let new_dir = crate::restore_script::anchor(b).dir;
    lemma_readable_anchor(b);
    let config = crate::restore_script::config_lines(name, new_dir);
    let line = crate::restore_script::split_line(name, var(m), right);
    lemma_config_lines(seq![], n, new_dir, seq![]);
    lemma_split_line(name, crate::number::decimal(m), right);
    assert(config.push(line) == config + seq![line]);
    lemma_dirs_append(config, seq![line]);
    lemma_dirs_one(line);
    assert(seq![(n as int, new_dir)] + Seq::<(int, Seq<char>)>::empty() == seq![
        (n as int, new_dir),
    ]);
    let la = crate::restore_script::split_lines(a, var(m), ""@, n + 1);
    let lb = crate::restore_script::split_lines(
        b,
        var(n),
        ""@,
        n + 1 + crate::restore_script::split_count(a),
    );
    lemma_dirs_append(config.push(line) + la, lb);
    lemma_dirs_append(config.push(line), la);
}

// Replaying tabs.
/// A tab that can be read back.
spec fn readable_plan(plan: crate::restore_script::TabPlan) -> bool {
    readable_tree(plan.tree) && !crate::text::has_char(plan.title, '\n')
}

/// A tab as it is read, whose first pane is the `n`th.
spec fn open_tab(plan: crate::restore_script::TabPlan, n: nat) -> crate::layout::OpenTab {
    crate::layout::OpenTab {
        root_var: var(n),
        title: if plan.title.len() > 0 {
            Some(plan.title)
        } else {
            None
        },
        tree: labelled(plan.tree, var(n), n + 1),
    }
}

/// The configurations of a tab.
spec fn tab_dirs(plan: crate::restore_script::TabPlan, n: nat) -> Seq<(int, Seq<char>)> {
    seq![(n as int, crate::restore_script::anchor(plan.tree).dir)] + tree_dirs(plan.tree, n + 1)
}

/// The lines that open a tab add it, with its first pane.
proof fn lemma_root_lines(
    tabs: Seq<crate::layout::OpenTab>,
    window: usize,
    i: nat,
    n: nat,
    dirs: Seq<(int, Seq<char>)>,
)
    requires
        n <= usize::MAX,
    ensures
        ({
            let lines = crate::restore_script::root_lines(false, window, i, n);
            &&& crate::layout::after_lines(tabs, lines, dirs) == tabs.push(
                crate::layout::OpenTab {
                    root_var: var(n),
                    title: None,
                    tree: crate::layout::HeldTree::Leaf(
                        Some(var(n)),
                        crate::layout::dir_or_empty(dirs, n as int),
                    ),
                },
            )
            &&& crate::layout::config_dirs(lines) == Seq::<(int, Seq<char>)>::empty()
        }),
{
    let name = crate::number::decimal(n);
    lemma_name(n);
    lemma_pane_var(name);
    let lines = crate::restore_script::root_lines(false, window, i, n);
    reveal_strlit("win");
    reveal_strlit("selected tab of win");
    if i == 0 {
        lemma_new_window_line(name);
        reveal_strlit(" to focused terminal of selected tab of ");
        reveal_strlit(" to focused terminal of ");
        reveal_strlit("    set p");
        let line = crate::restore_script::window_root_line("win"@, name);
        assert(line == "    set p"@ + name + " to focused terminal of "@ + "selected tab of win"@);
        assert("selected tab of win"@.take("selected tab of win"@.len() as int)
            == "selected tab of win"@);
        lemma_root_line(line, name, "selected tab of win"@);
        assert(lines == seq![lines[0]] + seq![line]);
    } else {
        let tab = crate::restore_script::tab_var(1, i);
        lemma_tab_var_is_word(1, i);
        lemma_new_tab_line(1, i, name);
        let line = crate::restore_script::tab_root_line(tab, name);
        lemma_root_line(line, name, tab);
        assert(lines == seq![lines[0]] + seq![line]);
    }
    let a = lines[0];
    let b = lines[1];
    lemma_lines_append(tabs, seq![a], seq![b], dirs);
    lemma_one_line(tabs, a, dirs);
    lemma_one_line(tabs, b, dirs);
    lemma_dirs_append(seq![a], seq![b]);
    lemma_dirs_one(a);
    lemma_dirs_one(b);
}

/// Replaying the lines of a tab adds the tab as it was captured.
proof fn lemma_tab_replays(
    tabs: Seq<crate::layout::OpenTab>,
    plan: crate::restore_script::TabPlan,
    window: usize,
    i: nat,
    n: nat,
    dirs: Seq<(int, Seq<char>)>,
)
    requires
        readable_plan(plan),
        n + 1 + crate::restore_script::split_count(plan.tree) <= usize::MAX + 1,
        crate::layout::dir_of(dirs, n as int) == Some(
            crate::restore_script::anchor(plan.tree).dir,
        ),
        covers(dirs, plan.tree, n + 1),
    ensures
        crate::layout::after_lines(
            tabs,
            crate::restore_script::tab_lines(plan, false, window, i, n),
            dirs,
        ) == tabs.push(open_tab(plan, n)),
{
    let name = crate::number::decimal(n);
    let dir = crate::restore_script::anchor(plan.tree).dir;
    lemma_name(n);
    lemma_readable_anchor(plan.tree);
    let head = crate::restore_script::config_lines(name, dir);
    let roots = crate::restore_script::root_lines(false, window, i, n);
    let title = if plan.title.len() > 0 {
        seq![crate::restore_script::title_line(name, plan.title)]
    } else {
        seq![]
    };
    let splits = crate::restore_script::split_lines(plan.tree, var(n), ""@, n + 1);
    lemma_lines_append(tabs, head + roots + title, splits, dirs);
    lemma_lines_append(tabs, head + roots, title, dirs);
    lemma_lines_append(tabs, head, roots, dirs);
    lemma_config_lines(tabs, n, dir, dirs);
    lemma_root_lines(tabs, window, i, n, dirs);
    let opened = crate::layout::OpenTab {
        root_var: var(n),
        title: None,
        tree: crate::layout::HeldTree::Leaf(Some(var(n)), dir),
    };
    let one = tabs.push(opened);
    let titled = crate::layout::OpenTab { title: open_tab(plan, n).title, ..opened };
    let two = tabs.push(titled);
    if plan.title.len() > 0 {
        let line = title[0];
        lemma_title_line(name, plan.title);
        lemma_pane_var(name);
        lemma_one_line(one, line, dirs);
        assert(title == seq![line]);
        assert(one.drop_last() == tabs);
    } else {
        assert(two == one);
    }
    assert(crate::layout::after_lines(one, title, dirs) == two);
    assert forall|k: nat| n + 1 <= k implies !crate::layout::holds(
        two.last().tree,
        #[trigger] var(k),
    ) by {
        lemma_vars_differ(k, n);
    }
    lemma_replay(two, plan.tree, n, n + 1, dirs);
    assert(put(two.last().tree, var(n), labelled(plan.tree, var(n), n + 1)) == labelled(
        plan.tree,
        var(n),
        n + 1,
    ));
    assert(two.drop_last() == tabs);
}

/// The configurations of the lines of a tab.
proof fn lemma_tab_lines_dirs(
    plan: crate::restore_script::TabPlan,
    window: usize,
    i: nat,
    n: nat,
)
    requires
        readable_plan(plan),
        n + 1 + crate::restore_script::split_count(plan.tree) <= usize::MAX + 1,
    ensures
        crate::layout::config_dirs(
            crate::restore_script::tab_lines(plan, false, window, i, n),
        ) == tab_dirs(plan, n),
{
    let name = crate::number::decimal(n);
    let dir = crate::restore_script::anchor(plan.tree).dir;
    lemma_name(n);
    lemma_readable_anchor(plan.tree);
    let head = crate::restore_script::config_lines(name, dir);
    let roots = crate::restore_script::root_lines(false, window, i, n);
    let title = if plan.title.len() > 0 {
        seq![crate::restore_script::title_line(name, plan.title)]
    } else {
        seq![]
    };
    let splits = crate::restore_script::split_lines(plan.tree, var(n), ""@, n + 1);
    lemma_dirs_append(head + roots + title, splits);
    lemma_dirs_append(head + roots, title);
    lemma_dirs_append(head, roots);
    lemma_config_lines(seq![], n, dir, seq![]);
    lemma_root_lines(seq![], window, i, n, seq![]);
    lemma_split_lines_dirs(plan.tree, n, n + 1);
    if plan.title.len() > 0 {
        lemma_title_line(name, plan.title);
        lemma_dirs_one(title[0]);
        assert(title == seq![title[0]]);
    }
    let entry = seq![(n as int, dir)];
    let none = Seq::<(int, Seq<char>)>::empty();
    assert(entry + none + none + tree_dirs(plan.tree, n + 1) == tab_dirs(plan, n));
}

/// The configurations of the first `k` tabs.
spec fn tabs_dirs(plans: Seq<crate::restore_script::TabPlan>, k: int) -> Seq<(int, Seq<char>)>
    decreases k,
{
    if k <= 0 {
        seq![]
    } else {
        tabs_dirs(plans, k - 1) + tab_dirs(
            plans[k - 1],
            crate::restore_script::first_pane(plans, k - 1),
        )
    }
}

/// All tabs can be read back, and their panes have numbers.
spec fn readable_plans(plans: Seq<crate::restore_script::TabPlan>) -> bool {
    &&& forall|k: int| 0 <= k < plans.len() ==> readable_plan(#[trigger] plans[k])
    &&& crate::restore_script::first_pane(plans, plans.len() as int) <= usize::MAX + 1
}

/// Fewer tabs have smaller numbers.
proof fn lemma_first_pane_grows(plans: Seq<crate::restore_script::TabPlan>, j: int, k: int)
    requires
        0 <= j <= k,
    ensures
        crate::restore_script::first_pane(plans, j) <= crate::restore_script::first_pane(plans, k),
    decreases k,
{
    if j < k {
        lemma_first_pane_grows(plans, j, k - 1);
    }
}

/// The configurations of the first `k` tabs.
proof fn lemma_tabs_lines_dirs(
    plans: Seq<crate::restore_script::TabPlan>,
    window: usize,
    k: int,
)
    requires
        readable_plans(plans),
        0 <= k <= plans.len(),
    ensures
        crate::layout::config_dirs(
            crate::restore_script::tabs_lines(plans, false, window, k),
        ) == tabs_dirs(plans, k),
    decreases k,
{
    if k > 0 {
        lemma_tabs_lines_dirs(plans, window, k - 1);
        let n = crate::restore_script::first_pane(plans, k - 1);
        lemma_first_pane_grows(plans, k, plans.len() as int);
        assert(readable_plan(plans[k - 1]));
        lemma_tab_lines_dirs(plans[k - 1], window, (k - 1) as nat, n);
        lemma_dirs_append(
            crate::restore_script::tabs_lines(plans, false, window, k - 1),
            crate::restore_script::tab_lines(plans[k - 1], false, window, (k - 1) as nat, n),
        );
    }
}

/// The configurations of a tab are found among those of all, whatever stands behind
/// them with larger numbers.
proof fn lemma_tab_covered(
    plans: Seq<crate::restore_script::TabPlan>,
    k: int,
    count: int,
    b: Seq<(int, Seq<char>)>,
)
    requires
        0 <= k < count <= plans.len(),
        forall|i: int|
            0 <= i < b.len() ==> crate::restore_script::first_pane(plans, count) <= (
            #[trigger] b[i]).0,
    ensures
        ({
            let n = crate::restore_script::first_pane(plans, k);
            let dirs = tabs_dirs(plans, count) + b;
            &&& crate::layout::dir_of(dirs, n as int) == Some(
                crate::restore_script::anchor(plans[k].tree).dir,
            )
            &&& covers(dirs, plans[k].tree, n + 1)
        }),
    decreases count,
{
    let last = count - 1;
    let n = crate::restore_script::first_pane(plans, last);
    let front = tabs_dirs(plans, last);
    let mine = tab_dirs(plans[last], n);
    let tree = plans[last].tree;
    let entry = seq![(n as int, crate::restore_script::anchor(tree).dir)];
    let deep = tree_dirs(tree, n + 1);
    lemma_tree_dirs_range(tree, n + 1);
    if k == last {
        let rest = deep + b;
        assert forall|i: int| 0 <= i < rest.len() implies (#[trigger] rest[i]).0 != n as int by {
            if i < deep.len() {
                assert(rest[i] == deep[i]);
            } else {
                assert(rest[i] == b[i - deep.len()]);
            }
        }
        lemma_dir_of_entry(front, n as int, crate::restore_script::anchor(tree).dir, rest);
        lemma_covers(front + entry, tree, n + 1, b);
        assert(front + (entry + deep) + b == front + entry + rest);
        assert(front + (entry + deep) + b == front + entry + deep + b);
    } else {
        let rest = mine + b;
        assert forall|i: int| 0 <= i < rest.len() implies n <= (#[trigger] rest[i]).0 by {
            if i < mine.len() {
                if i > 0 {
                    assert(rest[i] == deep[i - 1]);
                }
            } else {
                assert(rest[i] == b[i - mine.len()]);
            }
        }
        lemma_tab_covered(plans, k, last, rest);
        assert(front + mine + b == front + rest);
    }
}

/// The first `k` tabs as they are read.
spec fn open_plans(plans: Seq<crate::restore_script::TabPlan>, k: int) -> Seq<
    crate::layout::OpenTab,
> {
    Seq::new(
        k as nat,
        |j: int| open_tab(plans[j], crate::restore_script::first_pane(plans, j)),
    )
}

/// Replaying the lines of the first `k` tabs adds them as they were captured.
proof fn lemma_tabs_replay(
    plans: Seq<crate::restore_script::TabPlan>,
    window: usize,
    k: int,
)
    requires
        readable_plans(plans),
        0 <= k <= plans.len(),
    ensures
        crate::layout::after_lines(
            seq![],
            crate::restore_script::tabs_lines(plans, false, window, k),
            tabs_dirs(plans, plans.len() as int),
        ) == open_plans(plans, k),
    decreases k,
{
    let dirs = tabs_dirs(plans, plans.len() as int);
    if k == 0 {
        assert(open_plans(plans, 0) == Seq::<crate::layout::OpenTab>::empty());
    } else {
        lemma_tabs_replay(plans, window, k - 1);
        let n = crate::restore_script::first_pane(plans, k - 1);
        lemma_first_pane_grows(plans, k, plans.len() as int);
        assert(readable_plan(plans[k - 1]));
        lemma_tab_covered(plans, k - 1, plans.len() as int, seq![]);
        assert(dirs + Seq::<(int, Seq<char>)>::empty() == dirs);
        lemma_tab_replays(
            open_plans(plans, k - 1),
            plans[k - 1],
            window,
            (k - 1) as nat,
            n,
            dirs,
        );
        lemma_lines_append(
            seq![],
            crate::restore_script::tabs_lines(plans, false, window, k - 1),
            crate::restore_script::tab_lines(plans[k - 1], false, window, (k - 1) as nat, n),
            dirs,
        );
        assert(open_plans(plans, k - 1).push(open_tab(plans[k - 1], n)) == open_plans(plans, k));
    }
}

// The lines of a script.
/// A line that can be read back, sets no custom configuration, and, in a script of one
/// window, speaks of no tab 0.
spec fn good_line(line: Seq<char>, multi: bool) -> bool {
    &&& crate::text::plain_line(line)
    &&& !crate::workspace::is_custom_line(line)
    &&& !multi ==> crate::workspace::fact_numbered(crate::workspace::tab_fact(line))
}

/// All lines are good.
spec fn good_lines(lines: Seq<Seq<char>>, multi: bool) -> bool {
    forall|i: int| 0 <= i < lines.len() ==> good_line(#[trigger] lines[i], multi)
}

/// Two runs of good lines are one.
proof fn lemma_good_append(a: Seq<Seq<char>>, b: Seq<Seq<char>>, multi: bool)
    requires
        good_lines(a, multi),
        good_lines(b, multi),
    ensures
        good_lines(a + b, multi),
{
    assert forall|i: int| 0 <= i < (a + b).len() implies good_line(
        #[trigger] (a + b)[i],
        multi,
    ) by {
        if i < a.len() {
            assert(good_line(a[i], multi));
        } else {
            assert(good_line(b[i - a.len()], multi));
        }
    }
}

/// What names a pane.
spec fn is_label(name: Seq<char>, multi: bool) -> bool {
    &&& name.len() > 0
    &&& crate::number::is_digit(name.last())
    &&& !crate::text::has_char(name, '\n')
    &&& !multi ==> exists|n: nat|
        1 <= n <= usize::MAX && name == #[trigger] crate::number::decimal(n)
}

/// Digits hold no line break.
proof fn lemma_digits_plain(n: nat)
    ensures
        !crate::text::has_char(crate::number::decimal(n), '\n'),
        crate::number::decimal(n).len() > 0,
        crate::number::is_digit(crate::number::decimal(n).last()),
{
    let d = crate::number::decimal(n);
    crate::number::decimal_reads_back(n);
    assert(crate::number::is_digit(d[d.len() - 1]));
    if crate::text::has_char(d, '\n') {
        let i = choose|i: int| 0 <= i < d.len() && d[i] == '\n';
        assert(crate::number::is_digit(d[i]));
    }
}

/// The names of panes are labels.
proof fn lemma_pane_name_is_label(multi: bool, window: usize, n: nat)
    requires
        1 <= n <= usize::MAX,
    ensures
        is_label(
            crate::restore_script::pane_name(crate::restore_script::var_prefix(multi, window), n),
            multi,
        ),
{
    reveal_strlit("_");
    reveal_strlit("");
    lemma_digits_plain(n);
    lemma_digits_plain(window as nat);
    let d = crate::number::decimal(n);
    let prefix = crate::restore_script::var_prefix(multi, window);
    assert(!crate::text::has_char(prefix, '\n')) by {
        if multi {
            assert(!crate::text::has_char("_"@, '\n'));
            crate::text::lemma_concat_absent(crate::number::decimal(window as nat), "_"@, '\n');
        }
    }
    crate::text::lemma_concat_absent(prefix, d, '\n');
    assert((prefix + d).last() == d.last());
    if !multi {
        assert(prefix + d == d);
    }
}

/// A label of a script of one window is a name.
proof fn lemma_label_is_name(name: Seq<char>)
    requires
        is_label(name, false),
    ensures
        is_name(name),
        crate::number::parse_digits(name, usize::MAX as int) is Some,
        crate::number::parse_digits(name, usize::MAX as int)->0 >= 1,
        crate::number::parse_unsigned(name, usize::MAX as int) is Some,
{
    let n = choose|n: nat| 1 <= n <= usize::MAX && name == #[trigger] crate::number::decimal(n);
    lemma_name(n);
}

/// A line that starts otherwise than a custom line is none.
proof fn lemma_not_custom(line: Seq<char>)
    requires
        ({
            let t = crate::text::trim(line);
            ||| t.len() < 13
            ||| t[0] != 's'
            ||| !(t[4] == 'c' && t[5] == 'o') && !(t[4] == 'i' && t[12] == 'i') && !(t[4] == 'w'
                && t[5] == 'a') && t[4] != 'e'
        }),
    ensures
        !crate::workspace::is_custom_line(line),
{
    let t = crate::text::trim(line);
    reveal_strlit("set command of cfg");
    reveal_strlit("set initial input of cfg");
    reveal_strlit("set wait after command of cfg");
    reveal_strlit("set environment variables of cfg");
    let a = "set command of cfg"@;
    let b = "set initial input of cfg"@;
    let c = "set wait after command of cfg"@;
    let d = "set environment variables of cfg"@;
    if crate::text::starts_with(t, a) {
        let h = t.take(a.len() as int);
        assert(h[0] == t[0] && h[4] == t[4] && h[5] == t[5]);
    }
    if crate::text::starts_with(t, b) {
        let h = t.take(b.len() as int);
        assert(h[0] == t[0] && h[4] == t[4] && h[12] == t[12]);
    }
    if crate::text::starts_with(t, c) {
        let h = t.take(c.len() as int);
        assert(h[0] == t[0] && h[4] == t[4] && h[5] == t[5]);
    }
    if crate::text::starts_with(t, d) {
        let h = t.take(d.len() as int);
        assert(h[0] == t[0] && h[4] == t[4]);
    }
}

/// A blank line is good.
proof fn lemma_good_blank(multi: bool)
    ensures
        good_line(""@, multi),
{
    reveal_strlit("");
    lemma_blank_line();
    assert(crate::text::trim(""@).len() == 0);
    lemma_not_custom(""@);
}

/// The lines of a configuration are good.
proof fn lemma_good_config(name: Seq<char>, dir: Seq<char>, multi: bool)
    requires
        is_label(name, multi),
        !crate::text::has_char(dir, '\n'),
    ensures
        good_lines(crate::restore_script::config_lines(name, dir), multi),
{
    reveal_strlit("    set cfg");
    reveal_strlit(" to new surface configuration");
    reveal_strlit("    set initial working directory of cfg");
    reveal_strlit(" to \"");
    reveal_strlit("\"");
    let a = crate::restore_script::config_line(name);
    let b = crate::restore_script::dir_line(name, dir);
    let esc = crate::applescript::escaped(dir);
    crate::applescript::escaped_keeps_lines(dir, '\n');
    lemma_good_blank(multi);
    // The configuration.
    assert(!crate::text::has_char("    set cfg"@, '\n'));
    assert(!crate::text::has_char(" to new surface configuration"@, '\n'));
    crate::text::lemma_concat_absent("    set cfg"@, name, '\n');
    crate::text::lemma_concat_absent(
        "    set cfg"@ + name,
        " to new surface configuration"@,
        '\n',
    );
    assert(a.last() == " to new surface configuration"@.last());
    lemma_trim_indented(a);
    lemma_not_custom(a);
    // The working directory.
    assert(!crate::text::has_char("    set initial working directory of cfg"@, '\n'));
    assert(!crate::text::has_char(" to \""@, '\n'));
    assert(!crate::text::has_char("\""@, '\n'));
    let p = "    set initial working directory of cfg"@;
    crate::text::lemma_concat_absent(p, name, '\n');
    crate::text::lemma_concat_absent(p + name, " to \""@, '\n');
    crate::text::lemma_concat_absent(p + name + " to \""@, esc, '\n');
    crate::text::lemma_concat_absent(p + name + " to \""@ + esc, "\""@, '\n');
    assert(b.last() == '"');
    lemma_trim_indented(b);
    lemma_not_custom(b);
    if !multi {
        lemma_label_is_name(name);
        lemma_config_line(name);
        lemma_dir_line(name, dir);
    }
    let lines = crate::restore_script::config_lines(name, dir);
    assert(lines[0] == ""@ && lines[1] == a && lines[2] == b);
}

/// The line of a split is good.
proof fn lemma_good_split(name: Seq<char>, target: Seq<char>, right: bool, multi: bool)
    requires
        is_label(name, multi),
        is_label(target, multi),
    ensures
        good_line(crate::restore_script::split_line(name, "p"@ + target, right), multi),
{
    reveal_strlit("    set p");
    reveal_strlit("p");
    reveal_strlit(" to split ");
    reveal_strlit(" direction ");
    reveal_strlit("right");
    reveal_strlit("down");
    reveal_strlit(" with configuration cfg");
    let way = if right {
        "right"@
    } else {
        "down"@
    };
    let line = crate::restore_script::split_line(name, "p"@ + target, right);
    assert(!crate::text::has_char("    set p"@, '\n'));
    assert(!crate::text::has_char("p"@, '\n'));
    assert(!crate::text::has_char(" to split "@, '\n'));
    assert(!crate::text::has_char(" direction "@, '\n'));
    assert(!crate::text::has_char(way, '\n'));
    assert(!crate::text::has_char(" with configuration cfg"@, '\n'));
    let a = "    set p"@ + name;
    crate::text::lemma_concat_absent("    set p"@, name, '\n');
    let b = a + " to split "@;
    crate::text::lemma_concat_absent(a, " to split "@, '\n');
    let c = b + ("p"@ + target);
    crate::text::lemma_concat_absent("p"@, target, '\n');
    crate::text::lemma_concat_absent(b, "p"@ + target, '\n');
    let d = c + " direction "@;
    crate::text::lemma_concat_absent(c, " direction "@, '\n');
    let e = d + way;
    crate::text::lemma_concat_absent(d, way, '\n');
    let f = e + " with configuration cfg"@;
    crate::text::lemma_concat_absent(e, " with configuration cfg"@, '\n');
    crate::text::lemma_concat_absent(f, name, '\n');
    assert(line == f + name);
    assert(line.last() == name.last());
    lemma_trim_indented(line);
    assert(line[8] == 'p');
    lemma_not_custom(line);
    if !multi {
        lemma_label_is_name(name);
        lemma_label_is_name(target);
        lemma_split_line(name, target, right);
    }
}

/// The line of a title is good.
proof fn lemma_good_title(name: Seq<char>, title: Seq<char>, multi: bool)
    requires
        is_label(name, multi),
        !crate::text::has_char(title, '\n'),
    ensures
        good_line(crate::restore_script::title_line(name, title), multi),
{
    reveal_strlit("    perform action \"set_tab_title:");
    reveal_strlit("\" on p");
    let line = crate::restore_script::title_line(name, title);
    let esc = crate::applescript::escaped(title);
    crate::applescript::escaped_keeps_lines(title, '\n');
    let p = "    perform action \"set_tab_title:"@;
    assert(!crate::text::has_char(p, '\n'));
    assert(!crate::text::has_char("\" on p"@, '\n'));
    crate::text::lemma_concat_absent(p, esc, '\n');
    crate::text::lemma_concat_absent(p + esc, "\" on p"@, '\n');
    crate::text::lemma_concat_absent(p + esc + "\" on p"@, name, '\n');
    assert(line.last() == name.last());
    lemma_trim_indented(line);
    lemma_not_custom(line);
    if !multi {
        lemma_label_is_name(name);
        lemma_title_line(name, title);
        reveal_strlit("p");
        reveal_strlit("term");
        let target = "p"@ + name;
        if crate::text::starts_with(target, "term"@) {
            assert(target.take(4)[0] == target[0]);
        }
        assert(target.take(1) == "p"@);
        assert(target.skip(1) == name);
        crate::applescript::lemma_digit_run_is(name, name.len() as int);
        assert(name.take(name.len() as int) == name);
    }
}

/// A variable that holds a window or a tab: one word.
spec fn is_holder(v: Seq<char>) -> bool {
    &&& v.len() >= 3
    &&& !crate::text::has_char(v, '\n')
    &&& !crate::text::white_space(v.last())
    &&& v.last() != '\r'
    &&& v[0] == 'n' || (v[0] == 'w' && v[1] == 'i')
}

/// The line `set` holder `middle` name is readable and not custom.
proof fn lemma_good_opening(
    line: Seq<char>,
    holder: Seq<char>,
    middle: Seq<char>,
    name: Seq<char>,
)
    requires
        is_holder(holder),
        !crate::text::has_char(middle, '\n'),
        !crate::text::has_char(name, '\n'),
        name.len() > 0,
        crate::number::is_digit(name.last()),
        line == "    set "@ + holder + middle + name,
    ensures
        crate::text::plain_line(line),
        !crate::workspace::is_custom_line(line),
{
    reveal_strlit("    set ");
    assert(!crate::text::has_char("    set "@, '\n'));
    crate::text::lemma_concat_absent("    set "@, holder, '\n');
    crate::text::lemma_concat_absent("    set "@ + holder, middle, '\n');
    crate::text::lemma_concat_absent("    set "@ + holder + middle, name, '\n');
    assert(line.last() == name.last());
    lemma_trim_indented(line);
    assert(line[8] == holder[0] && line[9] == holder[1]);
    lemma_not_custom(line);
}

/// The line `set p` name `middle` holder is readable and not custom.
proof fn lemma_good_naming(line: Seq<char>, name: Seq<char>, middle: Seq<char>, holder: Seq<char>)
    requires
        is_holder(holder),
        !crate::text::has_char(middle, '\n'),
        !crate::text::has_char(name, '\n'),
        line == "    set p"@ + name + middle + holder,
    ensures
        crate::text::plain_line(line),
        !crate::workspace::is_custom_line(line),
{
    reveal_strlit("    set p");
    assert(!crate::text::has_char("    set p"@, '\n'));
    crate::text::lemma_concat_absent("    set p"@, name, '\n');
    crate::text::lemma_concat_absent("    set p"@ + name, middle, '\n');
    crate::text::lemma_concat_absent("    set p"@ + name + middle, holder, '\n');
    assert(line.last() == holder.last());
    lemma_trim_indented(line);
    assert(line[8] == 'p');
    lemma_not_custom(line);
}

/// A window's variable is one word.
proof fn lemma_window_holder(multi: bool, window: usize)
    ensures
        is_holder(crate::restore_script::window_var(multi, window)),
{
    reveal_strlit("win");
    lemma_digits_plain(window as nat);
    assert(!crate::text::has_char("win"@, '\n'));
    crate::text::lemma_concat_absent("win"@, crate::number::decimal(window as nat), '\n');
}

/// A tab's variable is one word.
proof fn lemma_tab_holder(group: nat, i: nat)
    ensures
        is_holder(crate::restore_script::tab_var(group, i)),
{
    lemma_tab_var_is_word(group, i);
    lemma_tab_var_plain(group, i);
    reveal_strlit("newtab");
    let tab = crate::restore_script::tab_var(group, i);
    assert(tab.take(6)[0] == tab[0]);
}

/// The lines that open a tab are good.
#[verifier::rlimit(30)]
proof fn lemma_good_roots(multi: bool, window: usize, i: nat, n: nat)
    requires
        1 <= n <= usize::MAX,
    ensures
        good_lines(crate::restore_script::root_lines(multi, window, i, n), multi),
{
    let prefix = crate::restore_script::var_prefix(multi, window);
    let name = crate::restore_script::pane_name(prefix, n);
    lemma_pane_name_is_label(multi, window, n);
    let win = crate::restore_script::window_var(multi, window);
    let lines = crate::restore_script::root_lines(multi, window, i, n);
    lemma_window_holder(multi, window);
    if i == 0 {
        reveal_strlit(" to new window with configuration cfg");
        reveal_strlit(" to focused terminal of selected tab of ");
        let m = " to new window with configuration cfg"@;
        let f = " to focused terminal of selected tab of "@;
        assert(!crate::text::has_char(m, '\n'));
        assert(!crate::text::has_char(f, '\n'));
        lemma_good_opening(lines[0], win, m, name);
        lemma_good_naming(lines[1], name, f, win);
    } else {
        reveal_strlit(" to new tab in ");
        reveal_strlit(" with configuration cfg");
        reveal_strlit(" to focused terminal of ");
        let group = crate::restore_script::tab_group(multi, window);
        let tab = crate::restore_script::tab_var(group, i);
        lemma_tab_holder(group, i);
        let a = " to new tab in "@;
        let c = " with configuration cfg"@;
        let f = " to focused terminal of "@;
        assert(!crate::text::has_char(a, '\n'));
        assert(!crate::text::has_char(c, '\n'));
        assert(!crate::text::has_char(f, '\n'));
        crate::text::lemma_concat_absent(a, win, '\n');
        crate::text::lemma_concat_absent(a + win, c, '\n');
        assert("    set "@ + tab + a + win + c + name == "    set "@ + tab + (a + win + c) + name);
        lemma_good_opening(lines[0], tab, a + win + c, name);
        lemma_good_naming(lines[1], name, f, tab);
    }
    if !multi {
        lemma_label_is_name(name);
        lemma_good_single_roots(window, i, name);
    }
}

/// A tab's variable holds no line break.
proof fn lemma_tab_var_plain(group: nat, i: nat)
    ensures
        !crate::text::has_char(crate::restore_script::tab_var(group, i), '\n'),
{
    reveal_strlit("newtab");
    reveal_strlit("_");
    let g = crate::number::decimal(group);
    let k = crate::number::decimal(i);
    lemma_digits_plain(group);
    lemma_digits_plain(i);
    assert(!crate::text::has_char("newtab"@, '\n'));
    assert(!crate::text::has_char("_"@, '\n'));
    crate::text::lemma_concat_absent("newtab"@, g, '\n');
    crate::text::lemma_concat_absent("newtab"@ + g, "_"@, '\n');
    crate::text::lemma_concat_absent("newtab"@ + g + "_"@, k, '\n');
}

/// The lines that open a tab of a single window speak of no numbered tab.
proof fn lemma_good_single_roots(window: usize, i: nat, name: Seq<char>)
    requires
        is_name(name),
    ensures
        ({
            let win = crate::restore_script::window_var(false, window);
            let tab = crate::restore_script::tab_var(1, i);
            let nothing = crate::workspace::TabFact::Nothing;
            &&& crate::workspace::tab_fact(crate::restore_script::new_window_line(win, name))
                == nothing
            &&& crate::workspace::tab_fact(crate::restore_script::window_root_line(win, name))
                == nothing
            &&& crate::workspace::tab_fact(crate::restore_script::new_tab_line(tab, win, name))
                == nothing
            &&& crate::workspace::tab_fact(crate::restore_script::tab_root_line(tab, name))
                == nothing
        }),
{
    let tab = crate::restore_script::tab_var(1, i);
    lemma_new_window_line(name);
    lemma_new_tab_line(1, i, name);
    lemma_tab_var_is_word(1, i);
    reveal_strlit("win");
    reveal_strlit("selected tab of win");
    reveal_strlit(" to focused terminal of selected tab of ");
    reveal_strlit(" to focused terminal of ");
    reveal_strlit("    set p");
    let line = crate::restore_script::window_root_line("win"@, name);
    assert(line == "    set p"@ + name + " to focused terminal of "@ + "selected tab of win"@);
    assert("selected tab of win"@.take("selected tab of win"@.len() as int)
        == "selected tab of win"@);
    lemma_root_line(line, name, "selected tab of win"@);
    lemma_root_line(crate::restore_script::tab_root_line(tab, name), name, tab);
}

/// No working directory of a tree holds a line break.
spec fn plain_tree(tree: crate::restore_script::SplitTree) -> bool
    decreases tree,
{
    match tree {
        crate::restore_script::SplitTree::Leaf(pane) => !crate::text::has_char(pane.dir, '\n'),
        crate::restore_script::SplitTree::Vertical(a, b) => plain_tree(*a) && plain_tree(*b),
        crate::restore_script::SplitTree::Horizontal(a, b) => plain_tree(*a) && plain_tree(*b),
    }
}

/// Nor does that of its anchor.
proof fn lemma_plain_anchor(tree: crate::restore_script::SplitTree)
    requires
        plain_tree(tree),
    ensures
        !crate::text::has_char(crate::restore_script::anchor(tree).dir, '\n'),
    decreases tree,
{
    match tree {
        crate::restore_script::SplitTree::Leaf(_) => {},
        crate::restore_script::SplitTree::Vertical(a, _) => {
            lemma_plain_anchor(*a);
        },
        crate::restore_script::SplitTree::Horizontal(a, _) => {
            lemma_plain_anchor(*a);
        },
    }
}

/// The lines of a tree's splits are good.
proof fn lemma_good_splits(
    tree: crate::restore_script::SplitTree,
    target: Seq<char>,
    multi: bool,
    window: usize,
    n: nat,
)
    requires
        is_label(target, multi),
        plain_tree(tree),
        1 <= n,
        n + crate::restore_script::split_count(tree) <= usize::MAX + 1,
    ensures
        good_lines(
            crate::restore_script::split_lines(
                tree,
                "p"@ + target,
                crate::restore_script::var_prefix(multi, window),
                n,
            ),
            multi,
        ),
    decreases tree,
{
    let prefix = crate::restore_script::var_prefix(multi, window);
    let name = crate::restore_script::pane_name(prefix, n);
    match tree {
        crate::restore_script::SplitTree::Leaf(_) => {},
        crate::restore_script::SplitTree::Vertical(a, b) => {
            lemma_pane_name_is_label(multi, window, n);
            lemma_plain_anchor(*b);
            let dir = crate::restore_script::anchor(*b).dir;
            let line = crate::restore_script::split_line(name, "p"@ + target, true);
            lemma_good_config(name, dir, multi);
            lemma_good_split(name, target, true, multi);
            let next = n + 1 + crate::restore_script::split_count(*a);
            lemma_good_splits(*a, target, multi, window, n + 1);
            lemma_good_splits(*b, name, multi, window, next);
            let head = crate::restore_script::config_lines(name, dir);
            lemma_good_append(head, seq![line], multi);
            assert(head.push(line) == head + seq![line]);
            let la = crate::restore_script::split_lines(*a, "p"@ + target, prefix, n + 1);
            let lb = crate::restore_script::split_lines(*b, "p"@ + name, prefix, next);
            lemma_good_append(head.push(line), la, multi);
            lemma_good_append(head.push(line) + la, lb, multi);
        },
        crate::restore_script::SplitTree::Horizontal(a, b) => {
            lemma_pane_name_is_label(multi, window, n);
            lemma_plain_anchor(*b);
            let dir = crate::restore_script::anchor(*b).dir;
            let line = crate::restore_script::split_line(name, "p"@ + target, false);
            lemma_good_config(name, dir, multi);
            lemma_good_split(name, target, false, multi);
            let next = n + 1 + crate::restore_script::split_count(*a);
            lemma_good_splits(*a, target, multi, window, n + 1);
            lemma_good_splits(*b, name, multi, window, next);
            let head = crate::restore_script::config_lines(name, dir);
            lemma_good_append(head, seq![line], multi);
            assert(head.push(line) == head + seq![line]);
            let la = crate::restore_script::split_lines(*a, "p"@ + target, prefix, n + 1);
            let lb = crate::restore_script::split_lines(*b, "p"@ + name, prefix, next);
            lemma_good_append(head.push(line), la, multi);
            lemma_good_append(head.push(line) + la, lb, multi);
        },
    }
}

/// A tab without line breaks.
spec fn plain_plan(plan: crate::restore_script::TabPlan) -> bool {
    plain_tree(plan.tree) && !crate::text::has_char(plan.title, '\n')
}

/// The lines of a tab are good.
proof fn lemma_good_tab(
    plan: crate::restore_script::TabPlan,
    multi: bool,
    window: usize,
    i: nat,
    n: nat,
)
    requires
        plain_plan(plan),
        1 <= n,
        n + 1 + crate::restore_script::split_count(plan.tree) <= usize::MAX + 1,
    ensures
        good_lines(crate::restore_script::tab_lines(plan, multi, window, i, n), multi),
{
    let prefix = crate::restore_script::var_prefix(multi, window);
    let name = crate::restore_script::pane_name(prefix, n);
    lemma_pane_name_is_label(multi, window, n);
    lemma_plain_anchor(plan.tree);
    let head = crate::restore_script::config_lines(
        name,
        crate::restore_script::anchor(plan.tree).dir,
    );
    let roots = crate::restore_script::root_lines(multi, window, i, n);
    let title = if plan.title.len() > 0 {
        seq![crate::restore_script::title_line(name, plan.title)]
    } else {
        seq![]
    };
    let splits = crate::restore_script::split_lines(plan.tree, "p"@ + name, prefix, n + 1);
    lemma_good_config(name, crate::restore_script::anchor(plan.tree).dir, multi);
    lemma_good_roots(multi, window, i, n);
    lemma_good_title(name, plan.title, multi);
    lemma_good_splits(plan.tree, name, multi, window, n + 1);
    lemma_good_append(head, roots, multi);
    lemma_good_append(head + roots, title, multi);
    lemma_good_append(head + roots + title, splits, multi);
}

/// The lines of the first `k` tabs are good.
proof fn lemma_good_tabs(
    plans: Seq<crate::restore_script::TabPlan>,
    multi: bool,
    window: usize,
    k: int,
)
    requires
        0 <= k <= plans.len(),
        forall|j: int| 0 <= j < plans.len() ==> plain_plan(#[trigger] plans[j]),
        crate::restore_script::first_pane(plans, plans.len() as int) <= usize::MAX + 1,
    ensures
        good_lines(crate::restore_script::tabs_lines(plans, multi, window, k), multi),
        crate::restore_script::first_pane(plans, k) >= 1,
    decreases k,
{
    if k > 0 {
        lemma_good_tabs(plans, multi, window, k - 1);
        let n = crate::restore_script::first_pane(plans, k - 1);
        lemma_first_pane_grows(plans, k, plans.len() as int);
        assert(plain_plan(plans[k - 1]));
        lemma_good_tab(plans[k - 1], multi, window, (k - 1) as nat, n);
        lemma_good_append(
            crate::restore_script::tabs_lines(plans, multi, window, k - 1),
            crate::restore_script::tab_lines(plans[k - 1], multi, window, (k - 1) as nat, n),
            multi,
        );
    }
}

/// A signed number holds no line break.
proof fn lemma_signed_has_no_break(v: int)
    ensures
        !crate::text::has_char(crate::number::signed_decimal(v), '\n'),
{
    if v < 0 {
        lemma_digits_plain((-v) as nat);
        assert(!crate::text::has_char(seq!['-'], '\n'));
        crate::text::lemma_concat_absent(
            seq!['-'],
            crate::number::decimal((-v) as nat),
            '\n',
        );
    } else {
        lemma_digits_plain(v as nat);
    }
}

/// The lines of a window's frame are good.
proof fn lemma_good_frame(
    windows: Seq<crate::restore_script::CapturedWindow>,
    multi: bool,
    window: usize,
)
    ensures
        good_lines(crate::restore_script::frame_lines(windows, multi, window), multi),
{
    if let Some(frame) = crate::restore_script::frame_of(windows, window) {
        if multi {
            let prefix = crate::restore_script::var_prefix(multi, window);
            let line = crate::restore_script::frame_line(frame, prefix);
            lemma_good_blank(multi);
            reveal_strlit("    perform action \"set_frame:");
            reveal_strlit(",");
            reveal_strlit("\" on p");
            reveal_strlit("_");
            reveal_strlit("1");
            lemma_signed_has_no_break(frame.x as int);
            lemma_signed_has_no_break(frame.y as int);
            lemma_signed_has_no_break(frame.width as int);
            lemma_signed_has_no_break(frame.height as int);
            lemma_digits_plain(window as nat);
            assert(!crate::text::has_char("    perform action \"set_frame:"@, '\n'));
            assert(!crate::text::has_char(","@, '\n'));
            assert(!crate::text::has_char("\" on p"@, '\n'));
            assert(!crate::text::has_char("_"@, '\n'));
            assert(!crate::text::has_char("1"@, '\n'));
            crate::text::lemma_concat_absent(crate::number::decimal(window as nat), "_"@, '\n');
            let a = "    perform action \"set_frame:"@ + crate::number::signed_decimal(
                frame.x as int,
            );
            crate::text::lemma_concat_absent(
                "    perform action \"set_frame:"@,
                crate::number::signed_decimal(frame.x as int),
                '\n',
            );
            let b = a + ","@;
            crate::text::lemma_concat_absent(a, ","@, '\n');
            let c = b + crate::number::signed_decimal(frame.y as int);
            crate::text::lemma_concat_absent(
                b,
                crate::number::signed_decimal(frame.y as int),
                '\n',
            );
            let d = c + ","@;
            crate::text::lemma_concat_absent(c, ","@, '\n');
            let e = d + crate::number::signed_decimal(frame.width as int);
            crate::text::lemma_concat_absent(
                d,
                crate::number::signed_decimal(frame.width as int),
                '\n',
            );
            let f = e + ","@;
            crate::text::lemma_concat_absent(e, ","@, '\n');
            let g = f + crate::number::signed_decimal(frame.height as int);
            crate::text::lemma_concat_absent(
                f,
                crate::number::signed_decimal(frame.height as int),
                '\n',
            );
            let h = g + "\" on p"@;
            crate::text::lemma_concat_absent(g, "\" on p"@, '\n');
            let i = h + prefix;
            crate::text::lemma_concat_absent(h, prefix, '\n');
            crate::text::lemma_concat_absent(i, "1"@, '\n');
            assert(line == i + "1"@);
            assert(line.last() == '1');
            lemma_trim_indented(line);
            lemma_not_custom(line);
            let lines = crate::restore_script::frame_lines(windows, multi, window);
            assert(lines[0] == ""@ && lines[1] == line);
        }
    }
}

// From captures to tabs.
/// All working directories of a tree are so.
spec fn dirs_all(
    tree: crate::restore_script::SplitTree,
    f: spec_fn(Seq<char>) -> bool,
) -> bool
    decreases tree,
{
    match tree {
        crate::restore_script::SplitTree::Leaf(pane) => f(pane.dir),
        crate::restore_script::SplitTree::Vertical(a, b) => dirs_all(*a, f) && dirs_all(*b, f),
        crate::restore_script::SplitTree::Horizontal(a, b) => dirs_all(*a, f) && dirs_all(*b, f),
    }
}

/// What holds of the panes holds of the tree that is reconstructed from them.
proof fn lemma_split_tree_all(
    panes: Seq<crate::restore_script::Pane>,
    f: spec_fn(Seq<char>) -> bool,
)
    requires
        panes.len() > 0,
        forall|i: int| 0 <= i < panes.len() ==> f((#[trigger] panes[i]).dir),
    ensures
        dirs_all(crate::restore_script::split_tree(panes), f),
    decreases panes.len(),
{
    let x = crate::restore_script::Axis::X;
    let y = crate::restore_script::Axis::Y;
    crate::restore_script::divider_is_least(panes, x);
    crate::restore_script::divider_is_least(panes, y);
    assert(f(panes[0].dir));
    if panes.len() > 1 {
        if let Some(edge) = crate::restore_script::divider(panes, x) {
            lemma_parts_all(panes, x, edge, f);
            lemma_split_tree_all(crate::restore_script::panes_before(panes, x, edge), f);
            lemma_split_tree_all(crate::restore_script::panes_after(panes, x, edge), f);
        } else if let Some(edge) = crate::restore_script::divider(panes, y) {
            lemma_parts_all(panes, y, edge, f);
            lemma_split_tree_all(crate::restore_script::panes_before(panes, y, edge), f);
            lemma_split_tree_all(crate::restore_script::panes_after(panes, y, edge), f);
        }
    }
}

/// What holds of the panes holds of those on one side.
proof fn lemma_parts_all(
    panes: Seq<crate::restore_script::Pane>,
    axis: crate::restore_script::Axis,
    edge: int,
    f: spec_fn(Seq<char>) -> bool,
)
    requires
        forall|i: int| 0 <= i < panes.len() ==> f((#[trigger] panes[i]).dir),
    ensures
        ({
            let first = crate::restore_script::panes_before(panes, axis, edge);
            let second = crate::restore_script::panes_after(panes, axis, edge);
            &&& forall|i: int| 0 <= i < first.len() ==> f((#[trigger] first[i]).dir)
            &&& forall|i: int| 0 <= i < second.len() ==> f((#[trigger] second[i]).dir)
        }),
{
    let first = crate::restore_script::panes_before(panes, axis, edge);
    let second = crate::restore_script::panes_after(panes, axis, edge);
    crate::restore_script::lemma_parts_are_panes(panes, axis, edge);
    assert forall|i: int| 0 <= i < first.len() implies f((#[trigger] first[i]).dir) by {
        assert(first.contains(first[i]));
        assert(panes.contains(first[i]));
        let j = choose|j: int| 0 <= j < panes.len() && panes[j] == first[i];
        assert(f(panes[j].dir));
    }
    assert forall|i: int| 0 <= i < second.len() implies f((#[trigger] second[i]).dir) by {
        assert(second.contains(second[i]));
        assert(panes.contains(second[i]));
        let j = choose|j: int| 0 <= j < panes.len() && panes[j] == second[i];
        assert(f(panes[j].dir));
    }
}

/// What holds of the surfaces holds of the panes of a tab.
proof fn lemma_panes_all(
    surfaces: Seq<crate::restore_script::Surface>,
    window: usize,
    tab: usize,
    f: spec_fn(Seq<char>) -> bool,
)
    requires
        forall|i: int| 0 <= i < surfaces.len() ==> f((#[trigger] surfaces[i]).working_dir),
    ensures
        ({
            let panes = crate::restore_script::panes_of(surfaces, window, tab);
            forall|i: int| 0 <= i < panes.len() ==> f((#[trigger] panes[i]).dir)
        }),
    decreases surfaces.len(),
{
    if surfaces.len() > 0 {
        let rest = surfaces.drop_last();
        assert forall|i: int| 0 <= i < rest.len() implies f(
            (#[trigger] rest[i]).working_dir,
        ) by {
            assert(rest[i] == surfaces[i]);
        }
        lemma_panes_all(rest, window, tab, f);
        assert(f(surfaces[surfaces.len() - 1].working_dir));
        let before = crate::restore_script::panes_of(rest, window, tab);
        let panes = crate::restore_script::panes_of(surfaces, window, tab);
        assert forall|i: int| 0 <= i < panes.len() implies f((#[trigger] panes[i]).dir) by {
            if i < before.len() {
                assert(panes[i] == before[i]);
            }
        }
    }
}

/// A tab's title is that of a surface, or empty.
proof fn lemma_title_plain(
    surfaces: Seq<crate::restore_script::Surface>,
    window: usize,
    tab: usize,
)
    requires
        forall|i: int|
            0 <= i < surfaces.len() ==> !crate::text::has_char(
                (#[trigger] surfaces[i]).title,
                '\n',
            ),
    ensures
        !crate::text::has_char(crate::restore_script::title_of(surfaces, window, tab), '\n'),
    decreases surfaces.len(),
{
    if surfaces.len() > 0 {
        let rest = surfaces.drop_last();
        assert forall|i: int| 0 <= i < rest.len() implies !crate::text::has_char(
            (#[trigger] rest[i]).title,
            '\n',
        ) by {
            assert(rest[i] == surfaces[i]);
        }
        lemma_title_plain(rest, window, tab);
        assert(!crate::text::has_char(surfaces[surfaces.len() - 1].title, '\n'));
    }
}

/// The same of trees, said in two ways.
proof fn lemma_dirs_plain(tree: crate::restore_script::SplitTree)
    requires
        dirs_all(tree, |d: Seq<char>| !crate::text::has_char(d, '\n')),
    ensures
        plain_tree(tree),
    decreases tree,
{
    match tree {
        crate::restore_script::SplitTree::Leaf(_) => {},
        crate::restore_script::SplitTree::Vertical(a, b) => {
            lemma_dirs_plain(*a);
            lemma_dirs_plain(*b);
        },
        crate::restore_script::SplitTree::Horizontal(a, b) => {
            lemma_dirs_plain(*a);
            lemma_dirs_plain(*b);
        },
    }
}

/// The same of trees, said in two ways.
proof fn lemma_dirs_readable(tree: crate::restore_script::SplitTree)
    requires
        dirs_all(tree, |d: Seq<char>| readable_dir(d)),
    ensures
        readable_tree(tree),
    decreases tree,
{
    match tree {
        crate::restore_script::SplitTree::Leaf(_) => {},
        crate::restore_script::SplitTree::Vertical(a, b) => {
            lemma_dirs_readable(*a);
            lemma_dirs_readable(*b);
        },
        crate::restore_script::SplitTree::Horizontal(a, b) => {
            lemma_dirs_readable(*a);
            lemma_dirs_readable(*b);
        },
    }
}

/// No working directory or title of a capture holds a line break.
pub open spec fn without_breaks(surfaces: Seq<crate::restore_script::Surface>) -> bool {
    forall|i: int|
        0 <= i < surfaces.len() ==> !crate::text::has_char(
            (#[trigger] surfaces[i]).working_dir,
            '\n',
        ) && !crate::text::has_char(surfaces[i].title, '\n')
}

/// The tabs of such a capture.
proof fn lemma_plans_plain(surfaces: Seq<crate::restore_script::Surface>, window: usize)
    requires
        without_breaks(surfaces),
        surfaces.len() <= usize::MAX,
    ensures
        ({
            let plans = crate::restore_script::tab_plans(surfaces, window);
            &&& forall|j: int| 0 <= j < plans.len() ==> plain_plan(#[trigger] plans[j])
            &&& crate::restore_script::first_pane(plans, plans.len() as int) <= usize::MAX + 1
        }),
{
    let plans = crate::restore_script::tab_plans(surfaces, window);
    let tabs = crate::restore_script::tabs_of(surfaces, window);
    let f = |d: Seq<char>| !crate::text::has_char(d, '\n');
    crate::restore_script::pane_numbers_fit(surfaces, window, plans.len() as int);
    crate::restore_script::tabs_in_order(surfaces, window);
    assert forall|j: int| 0 <= j < plans.len() implies plain_plan(#[trigger] plans[j]) by {
        let tab = tabs[j];
        assert(tabs.contains(tab));
        lemma_panes_all(surfaces, window, tab, f);
        lemma_split_tree_all(crate::restore_script::panes_of(surfaces, window, tab), f);
        lemma_dirs_plain(plans[j].tree);
        lemma_title_plain(surfaces, window, tab);
    }
}

/// The tabs of a capture that can be read back.
proof fn lemma_plans_readable(surfaces: Seq<crate::restore_script::Surface>, window: usize)
    requires
        without_breaks(surfaces),
        forall|i: int|
            0 <= i < surfaces.len() ==> readable_dir((#[trigger] surfaces[i]).working_dir),
        surfaces.len() <= usize::MAX,
    ensures
        readable_plans(crate::restore_script::tab_plans(surfaces, window)),
{
    let plans = crate::restore_script::tab_plans(surfaces, window);
    let tabs = crate::restore_script::tabs_of(surfaces, window);
    let f = |d: Seq<char>| readable_dir(d);
    lemma_plans_plain(surfaces, window);
    crate::restore_script::tabs_in_order(surfaces, window);
    assert forall|j: int| 0 <= j < plans.len() implies readable_plan(#[trigger] plans[j]) by {
        let tab = tabs[j];
        assert(tabs.contains(tab));
        lemma_panes_all(surfaces, window, tab, f);
        lemma_split_tree_all(crate::restore_script::panes_of(surfaces, window, tab), f);
        lemma_dirs_readable(plans[j].tree);
        assert(plain_plan(plans[j]));
    }
}

/// The lines of the first `k` windows are good.
proof fn lemma_good_windows(
    windows: Seq<crate::restore_script::CapturedWindow>,
    surfaces: Seq<crate::restore_script::Surface>,
    k: int,
)
    requires
        without_breaks(surfaces),
        surfaces.len() <= usize::MAX,
        0 <= k <= crate::restore_script::windows_of(surfaces).len(),
    ensures
        good_lines(
            crate::restore_script::windows_lines(windows, surfaces, k),
            windows.len() > 1,
        ),
    decreases k,
{
    if k > 0 {
        let multi = windows.len() > 1;
        let window = crate::restore_script::windows_of(surfaces)[k - 1];
        let plans = crate::restore_script::tab_plans(surfaces, window);
        lemma_good_windows(windows, surfaces, k - 1);
        lemma_plans_plain(surfaces, window);
        lemma_good_tabs(plans, multi, window, plans.len() as int);
        lemma_good_frame(windows, multi, window);
        let a = crate::restore_script::tabs_lines(plans, multi, window, plans.len() as int);
        let b = crate::restore_script::frame_lines(windows, multi, window);
        lemma_good_append(a, b, multi);
        lemma_good_append(
            crate::restore_script::windows_lines(windows, surfaces, k - 1),
            a + b,
            multi,
        );
    }
}

/// The header of a script.
spec fn header(surfaces: Seq<crate::restore_script::Surface>) -> Seq<char> {
    "-- gtab: format=2 windows="@ + crate::number::decimal(
        crate::restore_script::windows_of(surfaces).len(),
    )
}

/// All lines of a script.
spec fn all_lines(
    windows: Seq<crate::restore_script::CapturedWindow>,
    surfaces: Seq<crate::restore_script::Surface>,
) -> Seq<Seq<char>> {
    seq![header(surfaces)] + crate::restore_script::body_lines(windows, surfaces)
}

/// The lines around the windows say nothing and are good.
proof fn lemma_frame_of_script(surfaces: Seq<crate::restore_script::Surface>, multi: bool)
    ensures
        says_nothing(header(surfaces)),
        good_line(header(surfaces), multi),
        says_nothing("tell application \"Ghostty\""@),
        good_line("tell application \"Ghostty\""@, multi),
        says_nothing("    activate"@),
        good_line("    activate"@, multi),
        says_nothing("end tell"@),
        good_line("end tell"@, multi),
{
    reveal_strlit("-- gtab: format=2 windows=");
    reveal_strlit("tell application \"Ghostty\"");
    reveal_strlit("    activate");
    reveal_strlit("end tell");
    let n = crate::restore_script::windows_of(surfaces).len();
    let d = crate::number::decimal(n);
    let h = header(surfaces);
    lemma_digits_plain(n);
    assert(!crate::text::has_char("-- gtab: format=2 windows="@, '\n'));
    crate::text::lemma_concat_absent("-- gtab: format=2 windows="@, d, '\n');
    assert(h.last() == d.last());
    crate::text::lemma_trimmed(h);
    lemma_other_start(h);
    lemma_not_custom(h);
    let t = "tell application \"Ghostty\""@;
    crate::text::lemma_trimmed(t);
    lemma_other_start(t);
    lemma_not_custom(t);
    assert(!crate::text::has_char(t, '\n'));
    let a = "    activate"@;
    lemma_trim_indented(a);
    lemma_other_start(a);
    lemma_not_custom(a);
    assert(!crate::text::has_char(a, '\n'));
    let e = "end tell"@;
    crate::text::lemma_trimmed(e);
    lemma_other_start(e);
    lemma_not_custom(e);
    assert(!crate::text::has_char(e, '\n'));
}

/// A script is read as its lines.
proof fn lemma_script_lines(
    windows: Seq<crate::restore_script::CapturedWindow>,
    surfaces: Seq<crate::restore_script::Surface>,
)
    requires
        without_breaks(surfaces),
        surfaces.len() <= usize::MAX,
    ensures
        good_lines(all_lines(windows, surfaces), windows.len() > 1),
        crate::text::lines(crate::restore_script::restore_script(windows, surfaces)) == all_lines(
            windows,
            surfaces,
        ),
{
    let multi = windows.len() > 1;
    let count = crate::restore_script::windows_of(surfaces).len() as int;
    let inner = crate::restore_script::windows_lines(windows, surfaces, count);
    let body = crate::restore_script::body_lines(windows, surfaces);
    let all = all_lines(windows, surfaces);
    let top = seq!["tell application \"Ghostty\""@, "    activate"@];
    lemma_frame_of_script(surfaces, multi);
    lemma_good_windows(windows, surfaces, count);
    assert(good_lines(top, multi));
    lemma_good_append(top, inner, multi);
    assert(good_lines(seq!["end tell"@], multi));
    lemma_good_append(top + inner, seq!["end tell"@], multi);
    assert(body == top + inner + seq!["end tell"@]);
    assert(good_lines(seq![header(surfaces)], multi));
    lemma_good_append(seq![header(surfaces)], body, multi);
    reveal_strlit("\n");
    reveal_strlit("end tell");
    assert("\n"@ == seq!['\n']);
    assert forall|i: int| 0 <= i < all.len() implies crate::text::plain_line(#[trigger] all[i]) by {
        assert(good_line(all[i], multi));
    }
    crate::text::lines_of_join(all);
    crate::text::lemma_join_front(all, "\n"@);
    assert(all.skip(1) == body);
    assert(all.last() == "end tell"@);
}

// What a script says, read back.
/// A captured tab as the preview shows it, the `i`th (from 0).
pub open spec fn shown_tab(
    plan: crate::restore_script::TabPlan,
    i: int,
    home: Seq<char>,
) -> crate::layout::TabLayout {
    crate::layout::TabLayout {
        title: if plan.title.len() > 0 {
            plan.title
        } else {
            crate::workspace::fallback_name(
                (i + 1) as nat,
                Some(crate::restore_script::anchor(plan.tree).dir),
                home,
            )
        },
        root: tree_panes(plan.tree),
    }
}

/// The tabs of a capture of one window.
pub open spec fn captured_plans(surfaces: Seq<crate::restore_script::Surface>) -> Seq<
    crate::restore_script::TabPlan,
> {
    let indexes = crate::restore_script::windows_of(surfaces);
    if indexes.len() == 0 {
        seq![]
    } else {
        crate::restore_script::tab_plans(surfaces, indexes[0])
    }
}

/// The layout that is read from the restore script of a window is the one that was
/// captured: the same tabs in order, with their titles, and in each the splits that its
/// panes' positions call for.
pub proof fn layout_reads_back(
    windows: Seq<crate::restore_script::CapturedWindow>,
    surfaces: Seq<crate::restore_script::Surface>,
    home: Seq<char>,
)
    requires
        windows.len() <= 1,
        crate::restore_script::windows_of(surfaces).len() <= 1,
        surfaces.len() <= usize::MAX,
        without_breaks(surfaces),
        forall|i: int|
            0 <= i < surfaces.len() ==> readable_dir((#[trigger] surfaces[i]).working_dir),
    ensures
        ({
            let script = crate::restore_script::restore_script(windows, surfaces);
            let shown = captured_plans(surfaces).map(
                |i: int, plan: crate::restore_script::TabPlan| shown_tab(plan, i, home),
            );
            crate::layout::script_layout(script, home) == shown
        }),
{
    let count = crate::restore_script::windows_of(surfaces).len() as int;
    let window = if count > 0 {
        crate::restore_script::windows_of(surfaces)[0]
    } else {
        0usize
    };
    let plans = captured_plans(surfaces);
    let inner = crate::restore_script::windows_lines(windows, surfaces, count);
    let tabs = crate::restore_script::tabs_lines(plans, false, window, plans.len() as int);
    let all = all_lines(windows, surfaces);
    lemma_script_lines(windows, surfaces);
    lemma_frame_of_script(surfaces, false);
    if count > 0 {
        lemma_plans_readable(surfaces, window);
    }
    lemma_tabs_lines_dirs(plans, window, plans.len() as int);
    lemma_tabs_replay(plans, window, plans.len() as int);
    // All lines around the tabs say nothing.
    let none = Seq::<Seq<char>>::empty();
    let h = header(surfaces);
    let t = "tell application \"Ghostty\""@;
    let a = "    activate"@;
    let e = "end tell"@;
    assert(crate::restore_script::windows_lines(windows, surfaces, 0) == none);
    assert(inner == tabs) by {
        if count > 0 {
            assert(crate::restore_script::frame_lines(windows, false, window) == none);
            assert(crate::restore_script::window_lines(windows, surfaces, window) == tabs + none);
            assert(none + (tabs + none) == tabs);
        }
    }
    assert(all == seq![h] + seq![t] + seq![a] + tabs + seq![e]);
    lemma_dirs_append(seq![h] + seq![t] + seq![a] + tabs, seq![e]);
    lemma_dirs_append(seq![h] + seq![t] + seq![a], tabs);
    lemma_dirs_append(seq![h] + seq![t], seq![a]);
    lemma_dirs_append(seq![h], seq![t]);
    lemma_dirs_one(h);
    lemma_dirs_one(t);
    lemma_dirs_one(a);
    lemma_dirs_one(e);
    let dirs = tabs_dirs(plans, plans.len() as int);
    let nd = Seq::<(int, Seq<char>)>::empty();
    assert(nd + nd + nd + dirs + nd == dirs);
    assert(crate::layout::config_dirs(all) == dirs);
    let start = Seq::<crate::layout::OpenTab>::empty();
    lemma_lines_append(start, seq![h] + seq![t] + seq![a] + tabs, seq![e], dirs);
    lemma_lines_append(start, seq![h] + seq![t] + seq![a], tabs, dirs);
    lemma_lines_append(start, seq![h] + seq![t], seq![a], dirs);
    lemma_lines_append(start, seq![h], seq![t], dirs);
    lemma_one_line(start, h, dirs);
    lemma_one_line(start, t, dirs);
    lemma_one_line(start, a, dirs);
    let opened = open_plans(plans, plans.len() as int);
    lemma_one_line(opened, e, dirs);
    assert(crate::layout::after_lines(start, all, dirs) == opened);
    // The tabs, closed.
    let shown = plans.map(
        |i: int, plan: crate::restore_script::TabPlan| shown_tab(plan, i, home),
    );
    let closed = opened.map(
        |i: int, tab: crate::layout::OpenTab| crate::layout::closed_tab(tab, i, home),
    );
    assert forall|i: int| 0 <= i < plans.len() implies #[trigger] closed[i] == shown[i] by {
        let n = crate::restore_script::first_pane(plans, i);
        lemma_labelled_holds(plans[i].tree, var(n), n + 1, var(n));
        lemma_labelled_panes(plans[i].tree, var(n), n + 1);
    }
    assert(closed == shown);
}

/// A tab that was spoken of stays.
proof fn lemma_slots_grow(a: Seq<Seq<char>>, line: Seq<char>, b: Seq<Seq<char>>)
    requires
        forall|i: int|
            0 <= i < b.len() ==> crate::workspace::fact_numbered(
                crate::workspace::tab_fact(#[trigger] b[i]),
            ),
        crate::workspace::fact_numbered(crate::workspace::tab_fact(line)),
        !(crate::workspace::tab_fact(line) is Nothing),
    ensures
        crate::workspace::tab_slots(a + seq![line] + b).len() > 0,
    decreases b.len(),
{
    let all = a + seq![line] + b;
    if b.len() == 0 {
        assert(all.drop_last() == a);
        assert(all.last() == line);
    } else {
        let c = b.drop_last();
        assert forall|i: int| 0 <= i < c.len() implies crate::workspace::fact_numbered(
            crate::workspace::tab_fact(#[trigger] c[i]),
        ) by {
            assert(c[i] == b[i]);
        }
        lemma_slots_grow(a, line, c);
        assert(all.drop_last() == a + seq![line] + c);
        assert(all.last() == b[b.len() - 1]);
    }
}

/// A saved script never needs the launch that is kept for custom configuration. It is
/// launched as one that is understood, whether it restores one window or several, and
/// speaks of no tab 0, where the windows are numbered from 1.
pub proof fn saved_scripts_launch_directly(
    windows: Seq<crate::restore_script::CapturedWindow>,
    surfaces: Seq<crate::restore_script::Surface>,
)
    requires
        surfaces.len() <= usize::MAX,
        without_breaks(surfaces),
    ensures
        ({
            let script = crate::restore_script::restore_script(windows, surfaces);
            let rows = crate::workspace::tab_slots(crate::text::lines(script)).len();
            &&& !crate::workspace::requires_legacy(script)
            &&& windows.len() <= 1 || windows_from_one(surfaces)
                ==> crate::workspace::tabs_numbered(script)
            &&& surfaces.len() > 0 && (windows.len() <= 1 || crate::restore_script::windows_of(
                surfaces,
            ).len() > 1) ==> crate::workspace::launch_mode(script, rows)
                == crate::workspace::WorkspaceLaunchMode::DirectSplit
        }),
{
    let multi = windows.len() > 1;
    let script = crate::restore_script::restore_script(windows, surfaces);
    let all = all_lines(windows, surfaces);
    lemma_script_lines(windows, surfaces);
    assert forall|i: int| 0 <= i < all.len() implies !crate::workspace::is_custom_line(
        #[trigger] all[i],
    ) && (!multi ==> crate::workspace::fact_numbered(crate::workspace::tab_fact(all[i]))) by {
        assert(good_line(all[i], multi));
    }
    if multi && windows_from_one(surfaces) {
        lemma_multi_script(windows, surfaces);
    }
    if crate::restore_script::windows_of(surfaces).len() > 1 {
        lemma_windows_count(surfaces);
        header_tells_windows(windows, surfaces);
    } else if !multi && surfaces.len() > 0 {
        lemma_first_dir_line(windows, surfaces);
        let i = choose|i: int|
            0 <= i < all.len() && !(crate::workspace::tab_fact(#[trigger] all[i]) is Nothing);
        let a = all.take(i);
        let b = all.skip(i + 1);
        assert(all == a + seq![all[i]] + b);
        assert forall|j: int| 0 <= j < b.len() implies crate::workspace::fact_numbered(
            crate::workspace::tab_fact(#[trigger] b[j]),
        ) by {
            assert(b[j] == all[i + 1 + j]);
        }
        lemma_slots_grow(a, all[i], b);
    }
}

/// There are no more windows than surfaces.
proof fn lemma_windows_count(surfaces: Seq<crate::restore_script::Surface>)
    ensures
        crate::restore_script::windows_of(surfaces).len() <= surfaces.len(),
    decreases surfaces.len(),
{
    if surfaces.len() > 0 {
        let rest = surfaces.drop_last();
        lemma_windows_count(rest);
        lemma_inserted_len(
            crate::restore_script::windows_of(rest),
            surfaces.last().window_index,
        );
    }
}

/// Inserting an index adds one at most.
proof fn lemma_inserted_len(s: Seq<usize>, x: usize)
    ensures
        crate::restore_script::insert_index(s, x).len() <= s.len() + 1,
    decreases s.len(),
{
    if s.len() > 0 {
        lemma_inserted_len(s.skip(1), x);
    }
}

/// The script of one window speaks of its first tab.
proof fn lemma_first_dir_line(
    windows: Seq<crate::restore_script::CapturedWindow>,
    surfaces: Seq<crate::restore_script::Surface>,
)
    requires
        windows.len() <= 1,
        0 < surfaces.len() <= usize::MAX,
        without_breaks(surfaces),
    ensures
        exists|i: int|
            0 <= i < all_lines(windows, surfaces).len() && !(crate::workspace::tab_fact(
                #[trigger] all_lines(windows, surfaces)[i],
            ) is Nothing),
{
    let all = all_lines(windows, surfaces);
    let indexes = crate::restore_script::windows_of(surfaces);
    crate::restore_script::windows_in_order(surfaces);
    assert(surfaces[0].window_index == surfaces[0].window_index);
    assert(indexes.contains(surfaces[0].window_index));
    assert(indexes.len() > 0);
    lemma_windows_lines_start(windows, surfaces, indexes.len() as int);
    let inner = crate::restore_script::windows_lines(windows, surfaces, indexes.len() as int);
    let window = indexes[0];
    let plans = crate::restore_script::tab_plans(surfaces, window);
    let i0 = choose|i: int|
        0 <= i < surfaces.len() && (#[trigger] surfaces[i]).window_index == window;
    assert(indexes.contains(window));
    lemma_tab_exists(surfaces, window, i0);
    lemma_tabs_lines_start(plans, window, plans.len() as int);
    let name = crate::restore_script::pane_name(""@, 1);
    let dir = crate::restore_script::anchor(plans[0].tree).dir;
    let line = crate::restore_script::dir_line(name, dir);
    lemma_name(1);
    lemma_dir_line(name, dir);
    assert(inner[2] == line);
    assert(all[5] == line);
}

/// A window with a surface has a tab.
proof fn lemma_tab_exists(
    surfaces: Seq<crate::restore_script::Surface>,
    window: usize,
    i: int,
)
    requires
        0 <= i < surfaces.len(),
        surfaces[i].window_index == window,
    ensures
        crate::restore_script::tab_plans(surfaces, window).len() > 0,
    decreases surfaces.len(),
{
    let rest = surfaces.drop_last();
    if i < rest.len() {
        assert(rest[i] == surfaces[i]);
        lemma_tab_exists(rest, window, i);
    }
    if surfaces.last().window_index == window {
        let before = crate::restore_script::tabs_of(rest, window);
        let x = surfaces.last().tab_index;
        assert(crate::restore_script::insert_index(before, x).len() > 0);
    }
}

/// The windows' lines start with the first window's.
proof fn lemma_windows_lines_start(
    windows: Seq<crate::restore_script::CapturedWindow>,
    surfaces: Seq<crate::restore_script::Surface>,
    k: int,
)
    requires
        1 <= k <= crate::restore_script::windows_of(surfaces).len(),
    ensures
        ({
            let first = crate::restore_script::window_lines(
                windows,
                surfaces,
                crate::restore_script::windows_of(surfaces)[0],
            );
            let lines = crate::restore_script::windows_lines(windows, surfaces, k);
            first.len() <= lines.len() && lines.take(first.len() as int) == first
        }),
    decreases k,
{
    let first = crate::restore_script::window_lines(
        windows,
        surfaces,
        crate::restore_script::windows_of(surfaces)[0],
    );
    let lines = crate::restore_script::windows_lines(windows, surfaces, k);
    if k == 1 {
        assert(crate::restore_script::windows_lines(windows, surfaces, 0) == Seq::<
            Seq<char>,
        >::empty());
        assert(lines == first);
        assert(lines.take(first.len() as int) == first);
    } else {
        lemma_windows_lines_start(windows, surfaces, k - 1);
        let before = crate::restore_script::windows_lines(windows, surfaces, k - 1);
        assert(lines.take(first.len() as int) == before.take(first.len() as int));
    }
}

/// The tabs' lines start with the first tab's.
proof fn lemma_tabs_lines_start(
    plans: Seq<crate::restore_script::TabPlan>,
    window: usize,
    k: int,
)
    requires
        1 <= k <= plans.len(),
    ensures
        ({
            let lines = crate::restore_script::tabs_lines(plans, false, window, k);
            let dir = crate::restore_script::anchor(plans[0].tree).dir;
            lines.len() > 2 && lines[2] == crate::restore_script::dir_line(
                crate::restore_script::pane_name(""@, 1),
                dir,
            )
        }),
    decreases k,
{
    if k == 1 {
        assert(crate::restore_script::tabs_lines(plans, false, window, 0) == Seq::<
            Seq<char>,
        >::empty());
        let name = crate::restore_script::pane_name(""@, 1);
        let head = crate::restore_script::config_lines(
            name,
            crate::restore_script::anchor(plans[0].tree).dir,
        );
        assert(head.len() == 3);
    } else {
        lemma_tabs_lines_start(plans, window, k - 1);
    }
}

// The header.
/// `word_len` is the end of the longest prefix without white space.
proof fn lemma_word_len_is(s: Seq<char>, n: int)
    requires
        0 <= n <= s.len(),
        forall|i: int| 0 <= i < n ==> !crate::text::white_space(#[trigger] s[i]),
        n < s.len() ==> crate::text::white_space(s[n]),
    ensures
        crate::workspace::word_len(s) == n,
    decreases s.len(),
{
    if n > 0 {
        let t = s.skip(1);
        assert forall|i: int| 0 <= i < n - 1 implies !crate::text::white_space(#[trigger] t[i]) by {
            assert(t[i] == s[i + 1]);
        }
        assert(!crate::text::white_space(s[0]));
        lemma_word_len_is(t, n - 1);
    }
}

/// A header gives its number of windows.
proof fn lemma_header_count(n: nat)
    requires
        n <= usize::MAX,
    ensures
        crate::workspace::header_windows(
            "-- gtab: format=2 windows="@ + crate::number::decimal(n),
        ) == Some(n as int),
{
    reveal_strlit("-- gtab: format=2 windows=");
    reveal_strlit("-- gtab:");
    reveal_strlit("windows=");
    let d = crate::number::decimal(n);
    let h = "-- gtab: format=2 windows="@ + d;
    lemma_name(n);
    assert(crate::number::is_digit(d[d.len() - 1]));
    assert(h.last() == d.last());
    crate::text::lemma_trimmed(h);
    assert(h.take(8) == "-- gtab:"@);
    let rest = h.skip(8);
    let t = rest.skip(1);
    assert(crate::text::trim_start(rest) == crate::text::trim_start(t));
    assert(crate::text::trim_start(t) == t);
    lemma_word_len_is(t, 8);
    let word = t.take(8);
    if crate::text::starts_with(word, "windows="@) {
        assert(word.take(8)[0] == t[0]);
    }
    let back = t.skip(8);
    let u = back.skip(1);
    assert(crate::text::trim_start(back) == crate::text::trim_start(u));
    assert(crate::text::trim_start(u) == u);
    assert(u == "windows="@ + d);
    assert forall|i: int| 0 <= i < u.len() implies !crate::text::white_space(#[trigger] u[i]) by {
        if i >= 8 {
            assert(crate::number::is_digit(d[i - 8]));
        }
    }
    lemma_word_len_is(u, u.len() as int);
    assert(u.take(u.len() as int) == u);
    assert(u.take(8) == "windows="@);
    assert(u.skip(8) == d);
    assert(crate::workspace::windows_value(back) == Some(d));
    assert(crate::workspace::windows_value(rest) == Some(d));
}

/// A line break at the end goes with the last line.
proof fn lemma_break_at_end(
    h: Seq<char>,
    br: Seq<char>,
    t: Seq<char>,
    a: Seq<char>,
    j: Seq<char>,
)
    ensures
        h + br + (t + br + (a + br + j)) + br == h + br + (t + br + (a + br + (j + br))),
{
}

/// The first lines of a script are its header and the lines that address Ghostty.
proof fn lemma_first_lines(
    windows: Seq<crate::restore_script::CapturedWindow>,
    surfaces: Seq<crate::restore_script::Surface>,
)
    ensures
        ({
            let lines = crate::text::lines(
                crate::restore_script::restore_script(windows, surfaces),
            );
            &&& lines.len() >= 3
            &&& lines[0] == header(surfaces)
            &&& lines[1] == "tell application \"Ghostty\""@
            &&& lines[2] == "    activate"@
        }),
{
    let script = crate::restore_script::restore_script(windows, surfaces);
    let body = crate::restore_script::body_lines(windows, surfaces);
    let h = header(surfaces);
    let t = "tell application \"Ghostty\""@;
    let a = "    activate"@;
    lemma_frame_of_script(surfaces, true);
    reveal_strlit("\n");
    let br = seq!['\n'];
    assert("\n"@ == br);
    let rest = body.skip(1);
    let more = rest.skip(1);
    assert(body[0] == t && rest[0] == a);
    crate::text::lemma_join_front(body, br);
    crate::text::lemma_join_front(rest, br);
    let j = crate::text::join(more, br);
    lemma_break_at_end(h, br, t, a, j);
    let tail = j + br;
    assert(script == h + br + (t + br + (a + br + tail)));
    crate::text::lemma_lines_front(h, t + br + (a + br + tail));
    crate::text::lemma_lines_front(t, a + br + tail);
    crate::text::lemma_lines_front(a, tail);
}

/// The lines that address Ghostty are no headers.
proof fn lemma_no_headers()
    ensures
        !crate::workspace::is_multi_header("tell application \"Ghostty\""@),
        !crate::workspace::is_multi_header("    activate"@),
{
    let t = "tell application \"Ghostty\""@;
    let a = "    activate"@;
    reveal_strlit("-- gtab:");
    reveal_strlit("tell application \"Ghostty\"");
    reveal_strlit("    activate");
    crate::text::lemma_trimmed(t);
    lemma_trim_indented(a);
    if crate::text::starts_with(t, "-- gtab:"@) {
        assert(t.take(8)[0] == t[0]);
    }
    let b = a.skip(4);
    if crate::text::starts_with(b, "-- gtab:"@) {
        assert(b.take(8)[0] == b[0]);
    }
}

/// The header of a script tells whether it restores several windows, whatever the
/// capture holds.
pub proof fn header_tells_windows(
    windows: Seq<crate::restore_script::CapturedWindow>,
    surfaces: Seq<crate::restore_script::Surface>,
)
    requires
        crate::restore_script::windows_of(surfaces).len() <= usize::MAX,
    ensures
        crate::workspace::has_multiple_windows(
            crate::restore_script::restore_script(windows, surfaces),
        ) == (crate::restore_script::windows_of(surfaces).len() > 1),
{
    let n = crate::restore_script::windows_of(surfaces).len();
    let script = crate::restore_script::restore_script(windows, surfaces);
    lemma_first_lines(windows, surfaces);
    lemma_header_count(n);
    lemma_no_headers();
    let lines = crate::text::lines(script);
    if n > 1 {
        assert(crate::workspace::is_multi_header(lines[0]));
    } else {
        assert forall|i: int| 0 <= i < 3 implies !crate::workspace::is_multi_header(
            #[trigger] lines[i],
        ) by {
            if i == 0 {
            } else if i == 1 {
            } else {
                assert(i == 2);
            }
        }
    }
}

// The frames of windows.
/// A line that moves a window to a frame.
pub open spec fn is_frame_action(line: Seq<char>) -> bool {
    crate::text::starts_with(crate::text::trim(line), "perform action \"set_frame:"@)
}

/// The lines that move windows to frames.
pub open spec fn frame_actions(lines: Seq<Seq<char>>) -> Seq<Seq<char>> {
    lines.filter(|line: Seq<char>| is_frame_action(line))
}

/// The lines that move these windows to the frames that are known of them.
pub open spec fn restored_frames(
    windows: Seq<crate::restore_script::CapturedWindow>,
    indexes: Seq<usize>,
) -> Seq<Seq<char>>
    decreases indexes.len(),
{
    if indexes.len() == 0 {
        seq![]
    } else {
        let rest = restored_frames(windows, indexes.drop_last());
        match crate::restore_script::frame_of(windows, indexes.last()) {
            Some(frame) => rest.push(
                crate::restore_script::frame_line(
                    frame,
                    crate::restore_script::var_prefix(true, indexes.last()),
                ),
            ),
            None => rest,
        }
    }
}

/// No line moves a window.
spec fn frameless(lines: Seq<Seq<char>>) -> bool {
    forall|i: int| 0 <= i < lines.len() ==> !is_frame_action(#[trigger] lines[i])
}

/// Two runs of such lines are one.
proof fn lemma_frameless_append(a: Seq<Seq<char>>, b: Seq<Seq<char>>)
    requires
        frameless(a),
        frameless(b),
    ensures
        frameless(a + b),
{
    assert forall|i: int| 0 <= i < (a + b).len() implies !is_frame_action(#[trigger] (a + b)[i]) by {
        if i < a.len() {
            assert(!is_frame_action(a[i]));
        } else {
            assert(!is_frame_action(b[i - a.len()]));
        }
    }
}

/// The actions of two runs of lines.
proof fn lemma_actions_append(a: Seq<Seq<char>>, b: Seq<Seq<char>>)
    ensures
        frame_actions(a + b) == frame_actions(a) + frame_actions(b),
{
    Seq::filter_distributes_over_add(a, b, |line: Seq<char>| is_frame_action(line));
}

/// Lines that move no window hold no such action.
proof fn lemma_no_actions(lines: Seq<Seq<char>>)
    requires
        frameless(lines),
    ensures
        frame_actions(lines) == Seq::<Seq<char>>::empty(),
    decreases lines.len(),
{
    reveal(Seq::filter);
    if lines.len() > 0 {
        assert(!is_frame_action(lines[lines.len() - 1]));
        lemma_no_actions(lines.drop_last());
    } else {
        assert(frame_actions(lines) =~= Seq::<Seq<char>>::empty());
    }
}

/// What an indented line starts with stands behind its four spaces.
proof fn lemma_indented_start(line: Seq<char>)
    requires
        line.len() > 4,
        line[0] == ' ' && line[1] == ' ' && line[2] == ' ' && line[3] == ' ',
        !crate::text::white_space(line[4]),
        line[4] != 'p' || line.len() > 24 && line[24] == 't',
    ensures
        !is_frame_action(line),
{
    reveal_strlit("perform action \"set_frame:");
    let p = "perform action \"set_frame:"@;
    let t = crate::text::trim(line);
    let a = line.skip(1);
    let b = a.skip(1);
    let c = b.skip(1);
    let d = c.skip(1);
    assert(d == line.skip(4));
    assert(crate::text::trim_start(line) == crate::text::trim_start(a));
    assert(crate::text::trim_start(a) == crate::text::trim_start(b));
    assert(crate::text::trim_start(b) == crate::text::trim_start(c));
    assert(crate::text::trim_start(c) == crate::text::trim_start(d));
    assert(crate::text::trim_start(d) == d);
    crate::text::lemma_trim_end(d);
    if crate::text::starts_with(t, p) {
        assert(t.take(p.len() as int)[0] == p[0]);
        assert(t.take(p.len() as int)[20] == p[20]);
        assert(t[0] == line[4] && t[20] == line[24]);
    }
}

/// A blank line moves no window.
proof fn lemma_blank_is_frameless()
    ensures
        !is_frame_action(""@),
{
    reveal_strlit("");
    reveal_strlit("perform action \"set_frame:");
    assert(crate::text::trim(""@).len() == 0);
}

/// The lines of a configuration move no window.
proof fn lemma_config_frameless(name: Seq<char>, dir: Seq<char>)
    ensures
        frameless(crate::restore_script::config_lines(name, dir)),
{
    reveal_strlit("    set cfg");
    reveal_strlit("    set initial working directory of cfg");
    lemma_blank_is_frameless();
    lemma_indented_start(crate::restore_script::config_line(name));
    lemma_indented_start(crate::restore_script::dir_line(name, dir));
    let lines = crate::restore_script::config_lines(name, dir);
    assert(lines.len() == 3);
    assert(lines[0] == ""@);
}

/// The lines of splits move no window.
proof fn lemma_splits_frameless(
    tree: crate::restore_script::SplitTree,
    v: Seq<char>,
    prefix: Seq<char>,
    n: nat,
)
    ensures
        frameless(crate::restore_script::split_lines(tree, v, prefix, n)),
    decreases tree,
{
    reveal_strlit("    set p");
    let name = crate::restore_script::pane_name(prefix, n);
    match tree {
        crate::restore_script::SplitTree::Leaf(_) => {},
        crate::restore_script::SplitTree::Vertical(a, b) => {
            let m = n + 1 + crate::restore_script::split_count(*a);
            let head = crate::restore_script::config_lines(
                name,
                crate::restore_script::anchor(*b).dir,
            );
            let line = crate::restore_script::split_line(name, v, true);
            lemma_config_frameless(name, crate::restore_script::anchor(*b).dir);
            lemma_indented_start(line);
            lemma_frameless_append(head, seq![line]);
            assert(head.push(line) == head + seq![line]);
            lemma_splits_frameless(*a, v, prefix, n + 1);
            lemma_splits_frameless(*b, "p"@ + name, prefix, m);
            lemma_frameless_append(
                head.push(line),
                crate::restore_script::split_lines(*a, v, prefix, n + 1),
            );
            lemma_frameless_append(
                head.push(line) + crate::restore_script::split_lines(*a, v, prefix, n + 1),
                crate::restore_script::split_lines(*b, "p"@ + name, prefix, m),
            );
        },
        crate::restore_script::SplitTree::Horizontal(a, b) => {
            let m = n + 1 + crate::restore_script::split_count(*a);
            let head = crate::restore_script::config_lines(
                name,
                crate::restore_script::anchor(*b).dir,
            );
            let line = crate::restore_script::split_line(name, v, false);
            lemma_config_frameless(name, crate::restore_script::anchor(*b).dir);
            lemma_indented_start(line);
            lemma_frameless_append(head, seq![line]);
            assert(head.push(line) == head + seq![line]);
            lemma_splits_frameless(*a, v, prefix, n + 1);
            lemma_splits_frameless(*b, "p"@ + name, prefix, m);
            lemma_frameless_append(
                head.push(line),
                crate::restore_script::split_lines(*a, v, prefix, n + 1),
            );
            lemma_frameless_append(
                head.push(line) + crate::restore_script::split_lines(*a, v, prefix, n + 1),
                crate::restore_script::split_lines(*b, "p"@ + name, prefix, m),
            );
        },
    }
}

/// The lines of a tab move no window.
proof fn lemma_tab_frameless(
    plan: crate::restore_script::TabPlan,
    multi: bool,
    window: usize,
    i: nat,
    n: nat,
)
    ensures
        frameless(crate::restore_script::tab_lines(plan, multi, window, i, n)),
{
    reveal_strlit("    set ");
    reveal_strlit("    set p");
    reveal_strlit("win");
    reveal_strlit("newtab");
    reveal_strlit("    perform action \"set_tab_title:");
    let prefix = crate::restore_script::var_prefix(multi, window);
    let name = crate::restore_script::pane_name(prefix, n);
    let dir = crate::restore_script::anchor(plan.tree).dir;
    let head = crate::restore_script::config_lines(name, dir);
    let roots = crate::restore_script::root_lines(multi, window, i, n);
    let title = if plan.title.len() > 0 {
        seq![crate::restore_script::title_line(name, plan.title)]
    } else {
        seq![]
    };
    let splits = crate::restore_script::split_lines(plan.tree, "p"@ + name, prefix, n + 1);
    lemma_config_frameless(name, dir);
    lemma_splits_frameless(plan.tree, "p"@ + name, prefix, n + 1);
    assert(roots.len() == 2);
    lemma_indented_start(roots[0]);
    lemma_indented_start(roots[1]);
    assert(frameless(roots));
    if plan.title.len() > 0 {
        lemma_indented_start(crate::restore_script::title_line(name, plan.title));
    }
    assert(frameless(title));
    lemma_frameless_append(head, roots);
    lemma_frameless_append(head + roots, title);
    lemma_frameless_append(head + roots + title, splits);
}

/// The lines of tabs move no window.
proof fn lemma_tabs_frameless(
    plans: Seq<crate::restore_script::TabPlan>,
    multi: bool,
    window: usize,
    k: int,
)
    ensures
        frameless(crate::restore_script::tabs_lines(plans, multi, window, k)),
    decreases k,
{
    if k > 0 {
        let n = crate::restore_script::first_pane(plans, k - 1);
        lemma_tabs_frameless(plans, multi, window, k - 1);
        lemma_tab_frameless(plans[k - 1], multi, window, (k - 1) as nat, n);
        lemma_frameless_append(
            crate::restore_script::tabs_lines(plans, multi, window, k - 1),
            crate::restore_script::tab_lines(plans[k - 1], multi, window, (k - 1) as nat, n),
        );
    }
}

/// The line that moves a window moves it.
proof fn lemma_frame_line_moves(frame: crate::window::WindowFrame, window: usize)
    ensures
        is_frame_action(
            crate::restore_script::frame_line(
                frame,
                crate::restore_script::var_prefix(true, window),
            ),
        ),
{
    reveal_strlit("    perform action \"set_frame:");
    reveal_strlit("perform action \"set_frame:");
    reveal_strlit("1");
    let line = crate::restore_script::frame_line(
        frame,
        crate::restore_script::var_prefix(true, window),
    );
    assert(line.last() == '1');
    lemma_trim_indented(line);
    assert(line.skip(4).take("perform action \"set_frame:"@.len() as int)
        =~= "perform action \"set_frame:"@);
}

/// A line that moves a window is its own action.
proof fn lemma_one_action(line: Seq<char>)
    requires
        is_frame_action(line),
    ensures
        frame_actions(seq![line]) == seq![line],
{
    reveal(Seq::filter);
    let none = Seq::<Seq<char>>::empty();
    assert(seq![line].drop_last() =~= none);
    assert(none.filter(|line: Seq<char>| is_frame_action(line)) =~= none);
    assert(frame_actions(seq![line]) =~= seq![line]);
}

/// The actions among the lines of one window's frame.
proof fn lemma_frame_actions(
    windows: Seq<crate::restore_script::CapturedWindow>,
    multi: bool,
    window: usize,
)
    ensures
        frame_actions(crate::restore_script::frame_lines(windows, multi, window))
            == match crate::restore_script::frame_of(windows, window) {
            Some(frame) => if multi {
                seq![
                    crate::restore_script::frame_line(
                        frame,
                        crate::restore_script::var_prefix(true, window),
                    ),
                ]
            } else {
                seq![]
            },
            None => seq![],
        },
{
    let b = crate::restore_script::frame_lines(windows, multi, window);
    let none = Seq::<Seq<char>>::empty();
    match crate::restore_script::frame_of(windows, window) {
        Some(frame) if multi => {
            let line = crate::restore_script::frame_line(
                frame,
                crate::restore_script::var_prefix(true, window),
            );
            lemma_blank_is_frameless();
            lemma_frame_line_moves(frame, window);
            assert(b =~= seq![""@] + seq![line]);
            lemma_actions_append(seq![""@], seq![line]);
            assert(frameless(seq![""@]));
            lemma_no_actions(seq![""@]);
            lemma_one_action(line);
            assert(none + seq![line] =~= seq![line]);
        },
        _ => {
            assert(b =~= none);
            lemma_no_actions(b);
        },
    }
}

/// The actions among the lines of the first `k` windows.
proof fn lemma_windows_actions(
    windows: Seq<crate::restore_script::CapturedWindow>,
    surfaces: Seq<crate::restore_script::Surface>,
    k: int,
)
    requires
        0 <= k <= crate::restore_script::windows_of(surfaces).len(),
    ensures
        frame_actions(crate::restore_script::windows_lines(windows, surfaces, k)) == if windows.len()
            > 1 {
            restored_frames(windows, crate::restore_script::windows_of(surfaces).take(k))
        } else {
            seq![]
        },
    decreases k,
{
    let indexes = crate::restore_script::windows_of(surfaces);
    if k == 0 {
        lemma_no_actions(crate::restore_script::windows_lines(windows, surfaces, 0));
    } else {
        let multi = windows.len() > 1;
        let window = indexes[k - 1];
        let plans = crate::restore_script::tab_plans(surfaces, window);
        let before = crate::restore_script::windows_lines(windows, surfaces, k - 1);
        let a = crate::restore_script::tabs_lines(plans, multi, window, plans.len() as int);
        let b = crate::restore_script::frame_lines(windows, multi, window);
        lemma_windows_actions(windows, surfaces, k - 1);
        lemma_tabs_frameless(plans, multi, window, plans.len() as int);
        lemma_no_actions(a);
        lemma_actions_append(a, b);
        lemma_actions_append(before, a + b);
        assert(indexes.take(k).drop_last() == indexes.take(k - 1));
        assert(indexes.take(k).last() == window);
        lemma_frame_actions(windows, multi, window);
        let none = Seq::<Seq<char>>::empty();
        let own = frame_actions(b);
        assert(none + own =~= own);
        if multi {
            let earlier = restored_frames(windows, indexes.take(k - 1));
            let later = restored_frames(windows, indexes.take(k));
            assert(earlier + own =~= later);
        } else {
            assert(none + none =~= none);
        }
    }
}

/// The lines around the windows move none.
proof fn lemma_frame_is_frameless(surfaces: Seq<crate::restore_script::Surface>)
    ensures
        !is_frame_action(header(surfaces)),
        !is_frame_action("tell application \"Ghostty\""@),
        !is_frame_action("    activate"@),
        !is_frame_action("end tell"@),
{
    reveal_strlit("-- gtab: format=2 windows=");
    reveal_strlit("tell application \"Ghostty\"");
    reveal_strlit("    activate");
    reveal_strlit("end tell");
    let n = crate::restore_script::windows_of(surfaces).len();
    let h = header(surfaces);
    lemma_digits_plain(n);
    assert(h.last() == crate::number::decimal(n).last());
    lemma_unlike_start(h);
    lemma_unlike_start("tell application \"Ghostty\""@);
    lemma_unlike_start("end tell"@);
    lemma_indented_start("    activate"@);
}

/// A line that starts otherwise moves no window.
proof fn lemma_unlike_start(line: Seq<char>)
    requires
        line.len() > 0,
        line[0] != 'p',
        !crate::text::white_space(line[0]),
        !crate::text::white_space(line.last()),
    ensures
        !is_frame_action(line),
{
    reveal_strlit("perform action \"set_frame:");
    let p = "perform action \"set_frame:"@;
    crate::text::lemma_trimmed(line);
    if crate::text::starts_with(line, p) {
        assert(line.take(p.len() as int)[0] == p[0]);
    }
}

/// The actions between lines that move no window.
proof fn lemma_actions_between(top: Seq<Seq<char>>, inner: Seq<Seq<char>>, end: Seq<Seq<char>>)
    requires
        frameless(top),
        frameless(end),
    ensures
        frame_actions(top + inner + end) == frame_actions(inner),
{
    let none = Seq::<Seq<char>>::empty();
    lemma_no_actions(top);
    lemma_no_actions(end);
    lemma_actions_append(top, inner);
    lemma_actions_append(top + inner, end);
    assert(none + frame_actions(inner) + none =~= frame_actions(inner));
}

/// The lines in front of the windows.
spec fn top_lines(surfaces: Seq<crate::restore_script::Surface>) -> Seq<Seq<char>> {
    seq![header(surfaces), "tell application \"Ghostty\""@, "    activate"@]
}

/// The lines around the windows move none.
proof fn lemma_tops_frameless(surfaces: Seq<crate::restore_script::Surface>)
    ensures
        frameless(top_lines(surfaces)),
        frameless(seq!["end tell"@]),
{
    lemma_frame_is_frameless(surfaces);
}

/// The lines of a script are those of its windows and the lines around them.
proof fn lemma_lines_around(
    windows: Seq<crate::restore_script::CapturedWindow>,
    surfaces: Seq<crate::restore_script::Surface>,
)
    requires
        surfaces.len() <= usize::MAX,
        without_breaks(surfaces),
    ensures
        ({
            let lines = crate::text::lines(
                crate::restore_script::restore_script(windows, surfaces),
            );
            let count = crate::restore_script::windows_of(surfaces).len() as int;
            let inner = crate::restore_script::windows_lines(windows, surfaces, count);
            &&& lines == top_lines(surfaces) + inner + seq!["end tell"@]
            &&& lines.len() > 0
            &&& lines[0] == header(surfaces)
        }),
{
    let count = crate::restore_script::windows_of(surfaces).len() as int;
    let inner = crate::restore_script::windows_lines(windows, surfaces, count);
    lemma_script_lines(windows, surfaces);
    assert(all_lines(windows, surfaces) =~= top_lines(surfaces) + inner + seq!["end tell"@]);
}

/// A script says in its first line how many windows it restores. It moves each window of
/// which a capture of several windows knows the frame to that frame, by one line, in the
/// order of the windows, and no line moves any other. The script of a capture of one
/// window moves none.
pub proof fn frames_are_restored_once(
    windows: Seq<crate::restore_script::CapturedWindow>,
    surfaces: Seq<crate::restore_script::Surface>,
)
    requires
        surfaces.len() <= usize::MAX,
        without_breaks(surfaces),
    ensures
        ({
            let lines = crate::text::lines(
                crate::restore_script::restore_script(windows, surfaces),
            );
            let indexes = crate::restore_script::windows_of(surfaces);
            &&& lines.len() > 0
            &&& lines[0] == "-- gtab: format=2 windows="@ + crate::number::decimal(indexes.len())
            &&& frame_actions(lines) == if windows.len() > 1 {
                restored_frames(windows, indexes)
            } else {
                seq![]
            }
        }),
{
    let indexes = crate::restore_script::windows_of(surfaces);
    let n = indexes.len() as int;
    let inner = crate::restore_script::windows_lines(windows, surfaces, n);
    lemma_lines_around(windows, surfaces);
    lemma_windows_actions(windows, surfaces, n);
    assert(indexes.take(n) == indexes);
    lemma_tops_frameless(surfaces);
    lemma_actions_between(top_lines(surfaces), inner, seq!["end tell"@]);
}

// Scripts of plain tabs.
/// The line that opens the window or a later tab of plain tabs.
spec fn plain_open_line(name: Seq<char>, n: nat) -> Seq<char> {
    if n == 1 {
        "    set win to new window with configuration cfg"@ + name
    } else {
        "    set tab"@ + name + " to new tab in win with configuration cfg"@ + name
    }
}

/// The line that names the terminal of a plain tab.
spec fn plain_root_line(name: Seq<char>, n: nat) -> Seq<char> {
    if n == 1 {
        "    set term"@ + name + " to focused terminal of selected tab of win"@
    } else {
        "    set term"@ + name + " to focused terminal of tab"@ + name
    }
}

/// The line that sets the title of a plain tab.
spec fn plain_title_line(name: Seq<char>, title: Seq<char>) -> Seq<char> {
    "    perform action \"set_tab_title:"@ + crate::applescript::escaped(title) + "\" on term"@ + name
}

/// A title that is written.
spec fn title_written(title: Seq<char>) -> bool {
    title.len() > 0 && !crate::capture::shell_default_title(title)
}

/// The lines of the `n`th plain tab.
spec fn plain_row_lines(dir: Seq<char>, title: Seq<char>, n: nat) -> Seq<Seq<char>> {
    let name = crate::number::decimal(n);
    let lines = crate::restore_script::config_lines(name, dir) + seq![
        plain_open_line(name, n),
        plain_root_line(name, n),
    ];
    if title_written(title) {
        lines + seq![plain_title_line(name, title)]
    } else {
        lines
    }
}

/// The lines of the first `k` plain tabs, with those that address Ghostty.
spec fn plain_rows_lines(rows: Seq<(Seq<char>, Seq<char>)>, k: int) -> Seq<Seq<char>>
    decreases k,
{
    if k <= 0 {
        seq!["tell application \"Ghostty\""@, "    activate"@]
    } else {
        plain_rows_lines(rows, k - 1) + plain_row_lines(rows[k - 1].0, rows[k - 1].1, k as nat)
    }
}

/// Pieces of text with line breaks between them, in either grouping.
proof fn lemma_five_lines(
    br: Seq<char>,
    a: Seq<char>,
    b: Seq<char>,
    c: Seq<char>,
    d: Seq<char>,
)
    ensures
        crate::text::join(seq![Seq::<char>::empty(), a, b, c, d], br) == br + a + br + b + br + c
            + br + d,
{
    let e = Seq::<char>::empty();
    assert(seq![e, a, b, c, d] =~= seq![e, a, b, c] + seq![d]);
    assert(seq![e, a, b, c] =~= seq![e, a, b] + seq![c]);
    assert(seq![e, a, b] =~= seq![e, a] + seq![b]);
    assert(seq![e, a] =~= seq![e] + seq![a]);
    crate::text::lemma_join_append(seq![e, a, b, c], seq![d], br);
    crate::text::lemma_join_append(seq![e, a, b], seq![c], br);
    crate::text::lemma_join_append(seq![e, a], seq![b], br);
    crate::text::lemma_join_append(seq![e], seq![a], br);
    assert(crate::text::join(seq![e], br) == e);
    assert(crate::text::join(seq![a], br) == a);
    assert(crate::text::join(seq![b], br) == b);
    assert(crate::text::join(seq![c], br) == c);
    assert(crate::text::join(seq![d], br) == d);
    assert(e + br == br);
}

/// The text that opens the first tab is made of its lines.
proof fn lemma_head_text(name: Seq<char>, esc: Seq<char>)
    ensures
        "\n\n    set cfg"@ + name
            + " to new surface configuration\n    set initial working directory of cfg"@ + name
            + " to \""@ + esc + "\"\n"@ == "\n"@ + ("\n"@ + ("    set cfg"@ + name
            + " to new surface configuration"@) + "\n"@ + (
        "    set initial working directory of cfg"@ + name + " to \""@ + esc + "\""@) + "\n"@),
{
    reveal_strlit("\n");
    reveal_strlit("\n\n    set cfg");
    reveal_strlit("    set cfg");
    reveal_strlit(" to new surface configuration\n    set initial working directory of cfg");
    reveal_strlit(" to new surface configuration");
    reveal_strlit("    set initial working directory of cfg");
    reveal_strlit("\"\n");
    reveal_strlit("\"");
    let br = "\n"@;
    let a = "    set cfg"@;
    let b = " to new surface configuration"@;
    let c = "    set initial working directory of cfg"@;
    let q = "\""@;
    let m = " to \""@;
    assert("\n\n    set cfg"@ =~= br + br + a);
    assert(" to new surface configuration\n    set initial working directory of cfg"@ =~= b + br + c);
    assert("\"\n"@ =~= q + br);
    assert(br + br + a + name + (b + br + c) + name + m + esc + (q + br) =~= br + (br + (a + name + b)
        + br + (c + name + m + esc + q) + br));
}

/// The text of a plain tab is made of its lines.
proof fn lemma_plain_text(dir: Seq<char>, title: Seq<char>, n: nat)
    ensures
        crate::workspace::plain_tab_text(dir, title, n) == "\n"@ + crate::text::join(
            plain_row_lines(dir, title, n),
            "\n"@,
        ),
{
    let br = "\n"@;
    let name = crate::number::decimal(n);
    let esc = crate::applescript::escaped(dir);
    let a = crate::restore_script::config_line(name);
    let b = crate::restore_script::dir_line(name, dir);
    let c = plain_open_line(name, n);
    let d = plain_root_line(name, n);
    lemma_head_text(name, esc);
    let head = br + (br + a + br + b + br);
    reveal_strlit("");
    assert(""@ =~= Seq::<char>::empty());
    let lines = crate::restore_script::config_lines(name, dir) + seq![c, d];
    assert(lines =~= seq![Seq::<char>::empty(), a, b, c, d]);
    lemma_five_lines(br, a, b, c, d);
    let opened = head + c + br + d;
    assert(opened =~= br + (br + a + br + b + br + c + br + d));
    lemma_opened_text(name, head, n);
    if title_written(title) {
        let t = plain_title_line(name, title);
        crate::text::lemma_join_append(lines, seq![t], br);
        assert(crate::text::join(seq![t], br) == t);
        let text = br + a + br + b + br + c + br + d;
        assert(br + text + (br + t) =~= br + (text + br + t));
        lemma_titled_text(name, crate::applescript::escaped(title), opened);
    }
}

/// The lines that open a tab, behind the head of its text.
proof fn lemma_opened_text(name: Seq<char>, head: Seq<char>, n: nat)
    ensures
        (if n == 1 {
            head + "    set win to new window with configuration cfg"@ + name + "\n    set term"@ + name
                + " to focused terminal of selected tab of win"@
        } else {
            head + "    set tab"@ + name + " to new tab in win with configuration cfg"@ + name
                + "\n    set term"@ + name + " to focused terminal of tab"@ + name
        }) == head + plain_open_line(name, n) + "\n"@ + plain_root_line(name, n),
{
    reveal_strlit("\n");
    reveal_strlit("\n    set term");
    reveal_strlit("    set term");
    let br = "\n"@;
    let s = "    set term"@;
    assert("\n    set term"@ =~= br + s);
    if n == 1 {
        let x = "    set win to new window with configuration cfg"@;
        let y = " to focused terminal of selected tab of win"@;
        assert(head + x + name + (br + s) + name + y =~= head + (x + name) + br + (s + name + y));
    } else {
        let x = "    set tab"@;
        let w = " to new tab in win with configuration cfg"@;
        let y = " to focused terminal of tab"@;
        assert(head + x + name + w + name + (br + s) + name + y + name =~= head + (x + name + w
            + name) + br + (s + name + y + name));
    }
}

/// The line of a title, behind the rest of a tab.
proof fn lemma_titled_text(name: Seq<char>, esc: Seq<char>, opened: Seq<char>)
    ensures
        opened + "\n    perform action \"set_tab_title:"@ + esc + "\" on term"@ + name == opened + (
        "\n"@ + ("    perform action \"set_tab_title:"@ + esc + "\" on term"@ + name)),
{
    reveal_strlit("\n");
    reveal_strlit("\n    perform action \"set_tab_title:");
    reveal_strlit("    perform action \"set_tab_title:");
    let br = "\n"@;
    let p = "    perform action \"set_tab_title:"@;
    let o = "\" on term"@;
    assert("\n    perform action \"set_tab_title:"@ =~= br + p);
    assert(opened + (br + p) + esc + o + name =~= opened + (br + (p + esc + o + name)));
}

/// The text of plain tabs is made of their lines.
proof fn lemma_plain_texts(rows: Seq<(Seq<char>, Seq<char>)>, k: int)
    ensures
        crate::workspace::plain_tabs_text(rows, k) == crate::text::join(
            plain_rows_lines(rows, k),
            "\n"@,
        ),
        plain_rows_lines(rows, k).len() >= 2,
    decreases k,
{
    let br = "\n"@;
    if k <= 0 {
        reveal_strlit("\n");
        reveal_strlit("tell application \"Ghostty\"");
        reveal_strlit("    activate");
        reveal_strlit("tell application \"Ghostty\"\n    activate");
        let t = "tell application \"Ghostty\""@;
        let a = "    activate"@;
        assert(seq![t, a] =~= seq![t] + seq![a]);
        crate::text::lemma_join_append(seq![t], seq![a], br);
        assert(crate::text::join(seq![t], br) == t);
        assert(crate::text::join(seq![a], br) == a);
        assert("tell application \"Ghostty\"\n    activate"@ =~= t + br + a);
    } else {
        lemma_plain_texts(rows, k - 1);
        let (dir, title) = rows[k - 1];
        lemma_plain_text(dir, title, k as nat);
        let own = plain_row_lines(dir, title, k as nat);
        let before = plain_rows_lines(rows, k - 1);
        crate::text::lemma_join_append(before, own, br);
        let x = crate::text::join(before, br);
        let y = crate::text::join(own, br);
        assert(x + (br + y) =~= x + br + y);
    }
}

/// A line that sets something else than a working directory speaks of no tab.
proof fn lemma_set_is_no_fact(line: Seq<char>)
    requires
        line.len() > 8,
        line[0] == ' ' && line[1] == ' ' && line[2] == ' ' && line[3] == ' ',
        line[4] == 's',
        line[8] != 'i',
        !crate::text::white_space(line.last()),
    ensures
        crate::workspace::tab_fact(line) is Nothing,
{
    reveal_strlit("set initial working directory of cfg");
    reveal_strlit("perform action \"set_tab_title:");
    let p = "set initial working directory of cfg"@;
    let q = "perform action \"set_tab_title:"@;
    let t = line.skip(4);
    lemma_trim_indented(line);
    if crate::text::starts_with(t, p) {
        assert(t.take(p.len() as int)[4] == p[4]);
    }
    if crate::text::starts_with(t, q) {
        assert(t.take(q.len() as int)[0] == q[0]);
    }
}

/// The line that sets the title of a plain tab says so.
proof fn lemma_plain_title_fact(n: nat, title: Seq<char>)
    requires
        n <= usize::MAX,
        !crate::text::has_char(title, '\n'),
    ensures
        ({
            let line = plain_title_line(crate::number::decimal(n), title);
            &&& crate::workspace::tab_fact(line) == crate::workspace::TabFact::Title(n as int, title)
            &&& crate::applescript::term_title(crate::text::trim(line)) == Some((n as int, title))
            &&& crate::text::plain_line(line)
        }),
{
    let name = crate::number::decimal(n);
    let line = plain_title_line(name, title);
    let esc = crate::applescript::escaped(title);
    reveal_strlit("    perform action \"set_tab_title:");
    reveal_strlit("perform action \"set_tab_title:");
    reveal_strlit("\" on term");
    reveal_strlit(" on term");
    reveal_strlit(" on ");
    reveal_strlit("term");
    reveal_strlit("set initial working directory of cfg");
    lemma_name(n);
    lemma_digits_plain(n);
    assert(line.last() == name.last());
    lemma_trim_indented(line);
    let t = line.skip(4);
    let head = "perform action \"set_tab_title:"@;
    assert(t.take(head.len() as int) =~= head);
    let rest = " on term"@ + name;
    assert(t.skip(head.len() as int) =~= esc + seq!['"'] + rest);
    crate::applescript::escaped_reads_back(title, rest);
    assert(rest.take(4) =~= " on "@);
    let target = "term"@ + name;
    assert(rest.skip(4) =~= target);
    assert(target.take(4) =~= "term"@);
    assert(target.skip(4) =~= name);
    crate::applescript::lemma_digit_run_is(name, name.len() as int);
    assert(name.take(name.len() as int) =~= name);
    let p = "set initial working directory of cfg"@;
    if crate::text::starts_with(t, p) {
        assert(t.take(p.len() as int)[0] == p[0]);
    }
    crate::applescript::escaped_keeps_lines(title, '\n');
    let a = "    perform action \"set_tab_title:"@;
    let o = "\" on term"@;
    assert(!crate::text::has_char(a, '\n'));
    assert(!crate::text::has_char(o, '\n'));
    crate::text::lemma_concat_absent(a, esc, '\n');
    crate::text::lemma_concat_absent(a + esc, o, '\n');
    crate::text::lemma_concat_absent(a + esc + o, name, '\n');
}

/// The lines that open a plain tab speak of none, and can be read back.
proof fn lemma_plain_open_facts(n: nat)
    ensures
        ({
            let name = crate::number::decimal(n);
            let a = plain_open_line(name, n);
            let b = plain_root_line(name, n);
            &&& crate::workspace::tab_fact(a) is Nothing
            &&& crate::workspace::tab_fact(b) is Nothing
            &&& crate::text::plain_line(a)
            &&& crate::text::plain_line(b)
        }),
{
    let name = crate::number::decimal(n);
    let a = plain_open_line(name, n);
    let b = plain_root_line(name, n);
    reveal_strlit("    set win to new window with configuration cfg");
    reveal_strlit("    set tab");
    reveal_strlit(" to new tab in win with configuration cfg");
    reveal_strlit("    set term");
    reveal_strlit(" to focused terminal of selected tab of win");
    reveal_strlit(" to focused terminal of tab");
    lemma_digits_plain(n);
    assert(a.last() == name.last());
    lemma_set_is_no_fact(a);
    let s = "    set term"@;
    assert(!crate::text::has_char(s, '\n'));
    crate::text::lemma_concat_absent(s, name, '\n');
    if n == 1 {
        let x = "    set win to new window with configuration cfg"@;
        let y = " to focused terminal of selected tab of win"@;
        assert(!crate::text::has_char(x, '\n'));
        assert(!crate::text::has_char(y, '\n'));
        crate::text::lemma_concat_absent(x, name, '\n');
        crate::text::lemma_concat_absent(s + name, y, '\n');
        assert(b.last() == y.last());
    } else {
        let x = "    set tab"@;
        let w = " to new tab in win with configuration cfg"@;
        let y = " to focused terminal of tab"@;
        assert(!crate::text::has_char(x, '\n'));
        assert(!crate::text::has_char(w, '\n'));
        assert(!crate::text::has_char(y, '\n'));
        crate::text::lemma_concat_absent(x, name, '\n');
        crate::text::lemma_concat_absent(x + name, w, '\n');
        crate::text::lemma_concat_absent(x + name + w, name, '\n');
        crate::text::lemma_concat_absent(s + name, y, '\n');
        crate::text::lemma_concat_absent(s + name + y, name, '\n');
        assert(b.last() == name.last());
    }
    lemma_set_is_no_fact(b);
}

/// What is known of a plain tab.
spec fn plain_slot(dir: Seq<char>, title: Seq<char>) -> crate::workspace::TabSlot {
    crate::workspace::TabSlot {
        working_dir: Some(dir),
        title: if title_written(title) {
            Some(title)
        } else {
            None
        },
    }
}

/// A line that speaks of no tab leaves what is known.
proof fn lemma_no_fact(lines: Seq<Seq<char>>, line: Seq<char>)
    requires
        crate::workspace::tab_fact(line) is Nothing,
    ensures
        crate::workspace::tab_slots(lines.push(line)) == crate::workspace::tab_slots(lines),
{
    assert(lines.push(line).drop_last() =~= lines);
}

/// The lines of a plain tab make it known.
proof fn lemma_plain_row(before: Seq<Seq<char>>, dir: Seq<char>, title: Seq<char>, n: nat)
    requires
        1 <= n <= usize::MAX,
        crate::workspace::tab_slots(before).len() == n - 1,
        !crate::text::has_char(dir, '\n'),
        !crate::text::has_char(title, '\n'),
    ensures
        crate::workspace::tab_slots(before + plain_row_lines(dir, title, n))
            == crate::workspace::tab_slots(before).push(plain_slot(dir, title)),
        forall|i: int|
            0 <= i < plain_row_lines(dir, title, n).len() ==> crate::text::plain_line(
                #[trigger] plain_row_lines(dir, title, n)[i],
            ),
        forall|i: int|
            0 <= i < plain_row_lines(dir, title, n).len() ==> crate::workspace::fact_numbered(
                crate::workspace::tab_fact(#[trigger] plain_row_lines(dir, title, n)[i]),
            ),
{
    let name = crate::number::decimal(n);
    let own = plain_row_lines(dir, title, n);
    let slots = crate::workspace::tab_slots(before);
    let a = crate::restore_script::config_line(name);
    let b = crate::restore_script::dir_line(name, dir);
    let c = plain_open_line(name, n);
    let d = plain_root_line(name, n);
    let known = crate::workspace::TabSlot { working_dir: Some(dir), title: None };
    reveal_strlit("    set cfg");
    reveal_strlit(" to new surface configuration");
    lemma_name(n);
    lemma_dir_line(name, dir);
    assert(is_label(name, false)) by {
        lemma_digits_plain(n);
    }
    lemma_good_config(name, dir, false);
    let config = crate::restore_script::config_lines(name, dir);
    assert(good_line(config[0], false) && good_line(config[1], false) && good_line(
        config[2],
        false,
    ));
    assert(a.last() == " to new surface configuration"@.last());
    lemma_set_is_no_fact(a);
    lemma_plain_open_facts(n);
    assert(crate::workspace::tab_fact(b) == crate::workspace::TabFact::Dir(n as int, dir));
    assert(crate::workspace::tab_fact(""@) is Nothing) by {
        reveal_strlit("");
        reveal_strlit("set initial working directory of cfg");
        reveal_strlit("perform action \"set_tab_title:");
        assert(crate::text::trim(""@).len() == 0);
    }
    let l1 = before.push(""@);
    let l2 = l1.push(a);
    let l3 = l2.push(b);
    let l4 = l3.push(c);
    let l5 = l4.push(d);
    lemma_no_fact(before, ""@);
    lemma_no_fact(l1, a);
    assert(l3.drop_last() =~= l2);
    assert(crate::workspace::tab_slots(l3) =~= slots.push(known)) by {
        let all = crate::workspace::grown(slots, n as int);
        assert(all.len() == n);
        assert(all[n - 1] == crate::workspace::empty_slot());
    }
    lemma_no_fact(l3, c);
    lemma_no_fact(l4, d);
    if title_written(title) {
        let t = plain_title_line(name, title);
        lemma_plain_title_fact(n, title);
        let l6 = l5.push(t);
        assert(l6.drop_last() =~= l5);
        assert(before + own =~= l6);
        assert(crate::workspace::tab_slots(l6) =~= slots.push(plain_slot(dir, title))) by {
            let had = slots.push(known);
            assert(crate::workspace::grown(had, n as int) == had);
        }
        assert(own.len() == 6);
        assert(own[5] == t);
    } else {
        assert(before + own =~= l5);
        assert(own.len() == 5);
    }
    assert(own[0] == ""@ && own[1] == a && own[2] == b && own[3] == c && own[4] == d);
}

/// A line that sets no tab's title sets none on a `term`.
proof fn lemma_no_term_title(lines: Seq<Seq<char>>, line: Seq<char>, index: int)
    requires
        !(crate::workspace::tab_fact(line) is Title),
    ensures
        crate::workspace::last_term_title(lines.push(line), index)
            == crate::workspace::last_term_title(lines, index),
{
    let t = crate::text::trim(line);
    reveal_strlit("set initial working directory of cfg");
    reveal_strlit("perform action \"set_tab_title:");
    let p = "set initial working directory of cfg"@;
    let q = "perform action \"set_tab_title:"@;
    if crate::text::starts_with(t, p) && crate::text::starts_with(t, q) {
        assert(t.take(p.len() as int)[0] == t[0]);
        assert(t.take(q.len() as int)[0] == t[0]);
    }
    assert(lines.push(line).drop_last() =~= lines);
}

/// The title that the lines of a plain tab set.
proof fn lemma_plain_row_title(
    before: Seq<Seq<char>>,
    dir: Seq<char>,
    title: Seq<char>,
    n: nat,
    index: int,
)
    requires
        n <= usize::MAX,
        !crate::text::has_char(dir, '\n'),
        !crate::text::has_char(title, '\n'),
    ensures
        crate::workspace::last_term_title(before + plain_row_lines(dir, title, n), index) == if index
            == n && title_written(title) {
            title
        } else {
            crate::workspace::last_term_title(before, index)
        },
{
    let name = crate::number::decimal(n);
    let own = plain_row_lines(dir, title, n);
    let a = crate::restore_script::config_line(name);
    let b = crate::restore_script::dir_line(name, dir);
    let c = plain_open_line(name, n);
    let d = plain_root_line(name, n);
    reveal_strlit("    set cfg");
    reveal_strlit(" to new surface configuration");
    lemma_name(n);
    lemma_dir_line(name, dir);
    assert(a.last() == " to new surface configuration"@.last());
    lemma_set_is_no_fact(a);
    lemma_plain_open_facts(n);
    assert(crate::workspace::tab_fact(""@) is Nothing) by {
        reveal_strlit("");
        reveal_strlit("set initial working directory of cfg");
        reveal_strlit("perform action \"set_tab_title:");
        assert(crate::text::trim(""@).len() == 0);
    }
    let l1 = before.push(""@);
    let l2 = l1.push(a);
    let l3 = l2.push(b);
    let l4 = l3.push(c);
    let l5 = l4.push(d);
    lemma_no_term_title(before, ""@, index);
    lemma_no_term_title(l1, a, index);
    lemma_no_term_title(l2, b, index);
    lemma_no_term_title(l3, c, index);
    lemma_no_term_title(l4, d, index);
    if title_written(title) {
        let t = plain_title_line(name, title);
        lemma_plain_title_fact(n, title);
        assert(l5.push(t).drop_last() =~= l5);
        assert(before + own =~= l5.push(t));
    } else {
        assert(before + own =~= l5);
    }
}

/// The titles that the lines of the first `k` plain tabs set.
proof fn lemma_plain_titles(rows: Seq<(Seq<char>, Seq<char>)>, k: int, index: int)
    requires
        0 <= k <= rows.len() <= usize::MAX,
        1 <= index <= rows.len(),
        rows_without_breaks(rows),
    ensures
        crate::workspace::last_term_title(plain_rows_lines(rows, k), index) == if index <= k
            && title_written(rows[index - 1].1) {
            rows[index - 1].1
        } else {
            ""@
        },
    decreases k,
{
    if k == 0 {
        let t = "tell application \"Ghostty\""@;
        let a = "    activate"@;
        lemma_frame_of_script(Seq::empty(), false);
        let none = Seq::<Seq<char>>::empty();
        lemma_no_term_title(none, t, index);
        lemma_no_term_title(none.push(t), a, index);
        assert(plain_rows_lines(rows, 0) =~= none.push(t).push(a));
    } else {
        lemma_plain_titles(rows, k - 1, index);
        let (dir, title) = rows[k - 1];
        assert(rows[k - 1].0 == dir);
        lemma_plain_row_title(plain_rows_lines(rows, k - 1), dir, title, k as nat, index);
    }
}

/// No row holds a line break.
pub open spec fn rows_without_breaks(rows: Seq<(Seq<char>, Seq<char>)>) -> bool {
    forall|i: int|
        0 <= i < rows.len() ==> !crate::text::has_char((#[trigger] rows[i]).0, '\n')
            && !crate::text::has_char(rows[i].1, '\n')
}

/// What is known after the lines of the first `k` plain tabs.
proof fn lemma_plain_rows(rows: Seq<(Seq<char>, Seq<char>)>, k: int)
    requires
        0 <= k <= rows.len() <= usize::MAX,
        rows_without_breaks(rows),
    ensures
        ({
            let lines = plain_rows_lines(rows, k);
            &&& crate::workspace::tab_slots(lines) == rows.take(k).map_values(
                |row: (Seq<char>, Seq<char>)| plain_slot(row.0, row.1),
            )
            &&& forall|i: int|
                0 <= i < lines.len() ==> crate::text::plain_line(#[trigger] lines[i])
            &&& forall|i: int|
                0 <= i < lines.len() ==> crate::workspace::fact_numbered(
                    crate::workspace::tab_fact(#[trigger] lines[i]),
                )
        }),
    decreases k,
{
    let lines = plain_rows_lines(rows, k);
    let f = |row: (Seq<char>, Seq<char>)| plain_slot(row.0, row.1);
    if k == 0 {
        let t = "tell application \"Ghostty\""@;
        let a = "    activate"@;
        lemma_frame_of_script(Seq::empty(), false);
        assert(crate::workspace::tab_fact(t) is Nothing);
        assert(crate::workspace::tab_fact(a) is Nothing);
        let none = Seq::<Seq<char>>::empty();
        lemma_no_fact(none, t);
        lemma_no_fact(none.push(t), a);
        assert(lines =~= none.push(t).push(a));
        assert(rows.take(0).map_values(f) =~= Seq::empty());
        assert(good_line(t, false) && good_line(a, false));
    } else {
        lemma_plain_rows(rows, k - 1);
        let before = plain_rows_lines(rows, k - 1);
        let (dir, title) = rows[k - 1];
        let own = plain_row_lines(dir, title, k as nat);
        assert(rows[k - 1].0 == dir);
        lemma_plain_row(before, dir, title, k as nat);
        assert(rows.take(k).map_values(f) =~= rows.take(k - 1).map_values(f).push(
            plain_slot(dir, title),
        ));
        assert forall|i: int| 0 <= i < lines.len() implies crate::text::plain_line(
            #[trigger] lines[i],
        ) && crate::workspace::fact_numbered(crate::workspace::tab_fact(lines[i])) by {
            if i < before.len() {
                assert(lines[i] == before[i]);
            } else {
                assert(lines[i] == own[i - before.len()]);
            }
        }
    }
}

/// The rows that are read from a script of plain tabs are the ones that it was built
/// from: each working directory, the home directory in the place of an empty one, and
/// each title but those that shells set by themselves.
pub proof fn plain_rows_read_back(rows: Seq<(Seq<char>, Seq<char>)>, home: Seq<char>)
    requires
        rows.len() <= usize::MAX,
        rows_without_breaks(rows),
    ensures
        ({
            let script = crate::workspace::plain_tabs_text(rows, rows.len() as int)
                + "\nend tell\n"@;
            &&& crate::workspace::tabs_numbered(script)
            &&& crate::workspace::rows_of(crate::text::lines(script), home) == rows.map_values(
                |row: (Seq<char>, Seq<char>)|
                    (
                        if row.0.len() > 0 {
                            row.0
                        } else {
                            home
                        },
                        if crate::capture::shell_default_title(row.1) {
                            ""@
                        } else {
                            row.1
                        },
                    ),
            )
        }),
{
    let n = rows.len() as int;
    let script = crate::workspace::plain_tabs_text(rows, n) + "\nend tell\n"@;
    let lines = plain_rows_lines(rows, n);
    let e = "end tell"@;
    let all = lines + seq![e];
    lemma_plain_texts(rows, n);
    lemma_plain_rows(rows, n);
    assert(rows.take(n) =~= rows);
    lemma_frame_of_script(Seq::empty(), false);
    assert(crate::workspace::tab_fact(e) is Nothing);
    assert(good_line(e, false));
    reveal_strlit("\n");
    reveal_strlit("end tell");
    reveal_strlit("\nend tell\n");
    let br = seq!['\n'];
    assert("\n"@ =~= br);
    crate::text::lemma_join_append(lines, seq![e], br);
    assert(crate::text::join(seq![e], br) == e);
    assert("\nend tell\n"@ =~= br + e + br);
    let x = crate::text::join(lines, br);
    assert(x + (br + e + br) =~= x + br + e + br);
    assert forall|i: int| 0 <= i < all.len() implies crate::text::plain_line(#[trigger] all[i])
        && crate::workspace::fact_numbered(crate::workspace::tab_fact(all[i])) by {
        if i < lines.len() {
            assert(all[i] == lines[i]);
        }
    }
    crate::text::lines_of_join(all);
    assert(crate::text::lines(script) == all);
    assert(all =~= lines.push(e));
    lemma_no_fact(lines, e);
    reveal_strlit("");
    let slots = crate::workspace::tab_slots(all);
    let read = crate::workspace::rows_of(all, home);
    assert forall|i: int| 0 <= i < rows.len() implies (#[trigger] read[i]).0 == (if rows[i].0.len()
        > 0 {
        rows[i].0
    } else {
        home
    }) && read[i].1 == (if crate::capture::shell_default_title(rows[i].1) {
        ""@
    } else {
        rows[i].1
    }) by {
        assert(slots[i] == plain_slot(rows[i].0, rows[i].1));
        lemma_no_term_title(lines, e, i + 1);
        lemma_plain_titles(rows, n, i + 1);
        if rows[i].1.len() == 0 {
            assert(rows[i].1 =~= ""@);
        }
    }
}

// Scripts of several windows.
/// The windows of a capture are numbered from 1.
pub open spec fn windows_from_one(surfaces: Seq<crate::restore_script::Surface>) -> bool {
    forall|i: int| 0 <= i < surfaces.len() ==> (#[trigger] surfaces[i]).window_index >= 1
}

/// No line speaks of a tab 0.
spec fn counted(lines: Seq<Seq<char>>) -> bool {
    forall|i: int|
        0 <= i < lines.len() ==> crate::workspace::fact_numbered(
            crate::workspace::tab_fact(#[trigger] lines[i]),
        )
}

/// Two runs of such lines are one.
proof fn lemma_counted_append(a: Seq<Seq<char>>, b: Seq<Seq<char>>)
    requires
        counted(a),
        counted(b),
    ensures
        counted(a + b),
{
    assert forall|i: int| 0 <= i < (a + b).len() implies crate::workspace::fact_numbered(
        crate::workspace::tab_fact(#[trigger] (a + b)[i]),
    ) by {
        if i < a.len() {
            assert((a + b)[i] == a[i]);
        } else {
            assert((a + b)[i] == b[i - a.len()]);
        }
    }
}

/// The name of a pane of one of several windows.
spec fn wide_name(window: usize, n: nat) -> Seq<char> {
    crate::restore_script::pane_name(crate::restore_script::var_prefix(true, window), n)
}

/// Such a name starts with the window's number, and ends with a digit.
proof fn lemma_wide_name(window: usize, n: nat, rest: Seq<char>)
    ensures
        crate::applescript::leading_number(wide_name(window, n) + rest) == Some(
            (window as int, "_"@ + crate::number::decimal(n) + rest),
        ),
        wide_name(window, n).len() > 0,
        crate::number::is_digit(wide_name(window, n).last()),
{
    reveal_strlit("_");
    let d = crate::number::decimal(window as nat);
    let e = crate::number::decimal(n);
    let s = wide_name(window, n) + rest;
    lemma_digits_plain(n);
    lemma_name(window as nat);
    assert(wide_name(window, n).last() == e.last());
    assert forall|i: int| 0 <= i < d.len() implies crate::number::is_digit(#[trigger] s[i]) by {
        assert(s[i] == d[i]);
    }
    assert(s[d.len() as int] == '_');
    crate::applescript::lemma_digit_run_is(s, d.len() as int);
    assert(s.take(d.len() as int) =~= d);
    assert(s.skip(d.len() as int) =~= "_"@ + e + rest);
}

/// The lines of a configuration of one of several windows speak of no tab.
proof fn lemma_wide_config(window: usize, n: nat, dir: Seq<char>)
    ensures
        counted(crate::restore_script::config_lines(wide_name(window, n), dir)),
{
    let name = wide_name(window, n);
    let a = crate::restore_script::config_line(name);
    let b = crate::restore_script::dir_line(name, dir);
    let esc = crate::applescript::escaped(dir);
    reveal_strlit("    set cfg");
    reveal_strlit(" to new surface configuration");
    reveal_strlit("    set initial working directory of cfg");
    reveal_strlit("set initial working directory of cfg");
    reveal_strlit("perform action \"set_tab_title:");
    reveal_strlit(" to ");
    reveal_strlit("\"");
    reveal_strlit("_");
    reveal_strlit("");
    assert(a.last() == " to new surface configuration"@.last());
    lemma_set_is_no_fact(a);
    assert(b.last() == '"');
    lemma_trim_indented(b);
    let t = b.skip(4);
    let p = "set initial working directory of cfg"@;
    let q = "perform action \"set_tab_title:"@;
    let rest = " to \""@ + esc + "\""@;
    assert(t.take(p.len() as int) =~= p);
    assert(t.skip(p.len() as int) =~= name + rest);
    lemma_wide_name(window, n, rest);
    let behind = "_"@ + crate::number::decimal(n) + rest;
    if crate::text::starts_with(behind, " to "@) {
        assert(behind.take(4)[0] == behind[0]);
    }
    if crate::text::starts_with(t, q) {
        assert(t.take(q.len() as int)[0] == q[0]);
    }
    assert(crate::workspace::tab_fact(b) is Nothing);
    assert(crate::text::trim(""@).len() == 0);
    assert(crate::workspace::tab_fact(""@) is Nothing);
    let lines = crate::restore_script::config_lines(name, dir);
    assert(lines.len() == 3);
    assert(lines[0] == ""@ && lines[1] == a && lines[2] == b);
}

/// The line of a title in one of several windows speaks of the tab with its number.
proof fn lemma_wide_title(window: usize, n: nat, title: Seq<char>)
    requires
        window >= 1,
    ensures
        counted(seq![crate::restore_script::title_line(wide_name(window, n), title)]),
{
    let name = wide_name(window, n);
    let line = crate::restore_script::title_line(name, title);
    let target = "p"@ + name;
    reveal_strlit("p");
    reveal_strlit("term");
    lemma_wide_name(window, n, Seq::empty());
    assert(name + Seq::<char>::empty() =~= name);
    lemma_title_line(name, title);
    if crate::text::starts_with(target, "term"@) {
        assert(target.take(4)[0] == target[0]);
    }
    assert(target.take(1) =~= "p"@);
    assert(target.skip(1) =~= name);
    assert(crate::workspace::tab_fact(line) == crate::workspace::TabFact::Title(
        window as int,
        title,
    ));
}

/// The lines that open a tab of one of several windows speak of none.
proof fn lemma_wide_roots(window: usize, i: nat, n: nat)
    ensures
        counted(crate::restore_script::root_lines(true, window, i, n)),
{
    let name = wide_name(window, n);
    let win = crate::restore_script::window_var(true, window);
    reveal_strlit("    set ");
    reveal_strlit("    set p");
    reveal_strlit("win");
    reveal_strlit("newtab");
    lemma_wide_name(window, n, Seq::empty());
    lemma_digits_plain(window as nat);
    lemma_digits_plain(i);
    assert(win.last() == crate::number::decimal(window as nat).last());
    let lines = crate::restore_script::root_lines(true, window, i, n);
    assert(lines[0].last() == name.last());
    if i == 0 {
        assert(lines[1].last() == win.last());
    } else {
        let tab = crate::restore_script::tab_var(window as nat, i);
        assert(tab.last() == crate::number::decimal(i).last());
        assert(lines[1].last() == tab.last());
    }
    lemma_set_is_no_fact(lines[0]);
    lemma_set_is_no_fact(lines[1]);
}

/// The lines of splits in one of several windows speak of no tab.
proof fn lemma_wide_splits(
    tree: crate::restore_script::SplitTree,
    v: Seq<char>,
    window: usize,
    n: nat,
)
    ensures
        counted(
            crate::restore_script::split_lines(
                tree,
                v,
                crate::restore_script::var_prefix(true, window),
                n,
            ),
        ),
    decreases tree,
{
    let prefix = crate::restore_script::var_prefix(true, window);
    let name = wide_name(window, n);
    match tree {
        crate::restore_script::SplitTree::Leaf(_) => {},
        crate::restore_script::SplitTree::Vertical(a, b) => {
            let m = n + 1 + crate::restore_script::split_count(*a);
            lemma_wide_splits(*a, v, window, n + 1);
            lemma_wide_splits(*b, "p"@ + name, window, m);
            lemma_wide_split(window, n, crate::restore_script::anchor(*b).dir, v, true);
            let head = crate::restore_script::config_lines(
                name,
                crate::restore_script::anchor(*b).dir,
            ).push(crate::restore_script::split_line(name, v, true));
            let first = crate::restore_script::split_lines(*a, v, prefix, n + 1);
            lemma_counted_append(head, first);
            lemma_counted_append(
                head + first,
                crate::restore_script::split_lines(*b, "p"@ + name, prefix, m),
            );
        },
        crate::restore_script::SplitTree::Horizontal(a, b) => {
            let m = n + 1 + crate::restore_script::split_count(*a);
            lemma_wide_splits(*a, v, window, n + 1);
            lemma_wide_splits(*b, "p"@ + name, window, m);
            lemma_wide_split(window, n, crate::restore_script::anchor(*b).dir, v, false);
            let head = crate::restore_script::config_lines(
                name,
                crate::restore_script::anchor(*b).dir,
            ).push(crate::restore_script::split_line(name, v, false));
            let first = crate::restore_script::split_lines(*a, v, prefix, n + 1);
            lemma_counted_append(head, first);
            lemma_counted_append(
                head + first,
                crate::restore_script::split_lines(*b, "p"@ + name, prefix, m),
            );
        },
    }
}

/// The lines of one split in one of several windows speak of no tab.
proof fn lemma_wide_split(window: usize, n: nat, dir: Seq<char>, v: Seq<char>, right: bool)
    ensures
        counted(
            crate::restore_script::config_lines(wide_name(window, n), dir).push(
                crate::restore_script::split_line(wide_name(window, n), v, right),
            ),
        ),
{
    let name = wide_name(window, n);
    let line = crate::restore_script::split_line(name, v, right);
    let head = crate::restore_script::config_lines(name, dir);
    reveal_strlit("    set p");
    lemma_wide_name(window, n, Seq::empty());
    assert(line.last() == name.last());
    lemma_set_is_no_fact(line);
    lemma_wide_config(window, n, dir);
    assert(counted(seq![line]));
    lemma_counted_append(head, seq![line]);
    assert(head.push(line) =~= head + seq![line]);
}

/// The lines of the tabs of one of several windows speak of no tab 0.
proof fn lemma_wide_tabs(plans: Seq<crate::restore_script::TabPlan>, window: usize, k: int)
    requires
        window >= 1,
    ensures
        counted(crate::restore_script::tabs_lines(plans, true, window, k)),
    decreases k,
{
    if k > 0 {
        let plan = plans[k - 1];
        let i = (k - 1) as nat;
        let n = crate::restore_script::first_pane(plans, k - 1);
        let name = wide_name(window, n);
        let dir = crate::restore_script::anchor(plan.tree).dir;
        lemma_wide_tabs(plans, window, k - 1);
        lemma_wide_config(window, n, dir);
        lemma_wide_roots(window, i, n);
        lemma_wide_title(window, n, plan.title);
        lemma_wide_splits(plan.tree, "p"@ + name, window, n + 1);
        let a = crate::restore_script::config_lines(name, dir);
        let b = crate::restore_script::root_lines(true, window, i, n);
        let c = if plan.title.len() > 0 {
            seq![crate::restore_script::title_line(name, plan.title)]
        } else {
            seq![]
        };
        let d = crate::restore_script::split_lines(
            plan.tree,
            "p"@ + name,
            crate::restore_script::var_prefix(true, window),
            n + 1,
        );
        lemma_counted_append(a, b);
        lemma_counted_append(a + b, c);
        lemma_counted_append(a + b + c, d);
        lemma_counted_append(
            crate::restore_script::tabs_lines(plans, true, window, k - 1),
            crate::restore_script::tab_lines(plan, true, window, i, n),
        );
    }
}

/// The lines of a frame speak of no tab.
proof fn lemma_wide_frame(
    windows: Seq<crate::restore_script::CapturedWindow>,
    window: usize,
)
    ensures
        counted(crate::restore_script::frame_lines(windows, true, window)),
{
    let lines = crate::restore_script::frame_lines(windows, true, window);
    if let Some(frame) = crate::restore_script::frame_of(windows, window) {
        let line = crate::restore_script::frame_line(
            frame,
            crate::restore_script::var_prefix(true, window),
        );
        reveal_strlit("");
        reveal_strlit("1");
        reveal_strlit("    perform action \"set_frame:");
        reveal_strlit("perform action \"set_tab_title:");
        reveal_strlit("set initial working directory of cfg");
        let p = "set initial working directory of cfg"@;
        let q = "perform action \"set_tab_title:"@;
        assert(line.last() == '1');
        lemma_trim_indented(line);
        let t = line.skip(4);
        if crate::text::starts_with(t, p) {
            assert(t.take(p.len() as int)[0] == p[0]);
        }
        if crate::text::starts_with(t, q) {
            assert(t.take(q.len() as int)[20] == q[20]);
        }
        assert(crate::text::trim(""@).len() == 0);
        assert(lines =~= seq![""@, line]);
    }
}

/// The lines of the first `k` of several windows speak of no tab 0.
proof fn lemma_wide_windows(
    windows: Seq<crate::restore_script::CapturedWindow>,
    surfaces: Seq<crate::restore_script::Surface>,
    k: int,
)
    requires
        windows.len() > 1,
        windows_from_one(surfaces),
        0 <= k <= crate::restore_script::windows_of(surfaces).len(),
    ensures
        counted(crate::restore_script::windows_lines(windows, surfaces, k)),
    decreases k,
{
    if k > 0 {
        let indexes = crate::restore_script::windows_of(surfaces);
        let window = indexes[k - 1];
        let plans = crate::restore_script::tab_plans(surfaces, window);
        crate::restore_script::windows_in_order(surfaces);
        assert(indexes.contains(window));
        assert(window >= 1);
        lemma_wide_windows(windows, surfaces, k - 1);
        lemma_wide_tabs(plans, window, plans.len() as int);
        lemma_wide_frame(windows, window);
        let a = crate::restore_script::tabs_lines(plans, true, window, plans.len() as int);
        let b = crate::restore_script::frame_lines(windows, true, window);
        lemma_counted_append(a, b);
        lemma_counted_append(
            crate::restore_script::windows_lines(windows, surfaces, k - 1),
            a + b,
        );
    }
}

/// A script of several windows speaks of no tab 0.
proof fn lemma_multi_script(
    windows: Seq<crate::restore_script::CapturedWindow>,
    surfaces: Seq<crate::restore_script::Surface>,
)
    requires
        windows.len() > 1,
        windows_from_one(surfaces),
    ensures
        counted(all_lines(windows, surfaces)),
{
    let n = crate::restore_script::windows_of(surfaces).len() as int;
    let inner = crate::restore_script::windows_lines(windows, surfaces, n);
    lemma_wide_windows(windows, surfaces, n);
    lemma_frame_of_script(surfaces, false);
    let top = seq![header(surfaces), "tell application \"Ghostty\""@, "    activate"@];
    let end = seq!["end tell"@];
    assert(good_line(header(surfaces), false) && good_line("tell application \"Ghostty\""@, false)
        && good_line("    activate"@, false) && good_line("end tell"@, false));
    assert(counted(top));
    assert(counted(end));
    lemma_counted_append(top, inner);
    lemma_counted_append(top + inner, end);
    assert(all_lines(windows, surfaces) =~= top + inner + end);
}

} // verus!
