//! Text that crosses into AppleScript and the shell, and back: string literals,
//! the assignments of a saved script, and the scripts that move a terminal to a
//! directory.

use vstd::prelude::*;

use crate::number::{is_digit_char, parse_digits_usize};
use crate::text::{
    chars_of, replace_char_slice, strip_prefix_slice, trim_start_slice,
};

verus! {

// String literals.
/// A character as it is written inside an AppleScript string literal.
pub open spec fn escaped_char(c: char) -> Seq<char> {
    if c == '\\' || c == '"' {
        seq!['\\', c]
    } else {
        seq![c]
    }
}

/// A text as it is written inside an AppleScript string literal.
pub open spec fn escaped(s: Seq<char>) -> Seq<char>
    decreases s.len(),
{
    if s.len() == 0 {
        seq![]
    } else {
        escaped_char(s[0]) + escaped(s.skip(1))
    }
}

/// Reads a string literal, from behind its opening quote: the text that it stands
/// for, and what follows its closing quote. `None` if it has no closing quote.
pub open spec fn read_literal(s: Seq<char>) -> Option<(Seq<char>, Seq<char>)>
    decreases s.len(),
{
    if s.len() == 0 {
        None
    } else if s[0] == '"' {
        Some((seq![], s.skip(1)))
    } else if s[0] == '\\' {
        if s.len() == 1 {
            None
        } else {
            prepend(seq![s[1]], read_literal(s.skip(2)))
        }
    } else {
        prepend(seq![s[0]], read_literal(s.skip(1)))
    }
}

/// A reading with `t` put in front of its text.
pub open spec fn prepend(
    t: Seq<char>,
    reading: Option<(Seq<char>, Seq<char>)>,
) -> Option<(Seq<char>, Seq<char>)> {
    match reading {
        Some((text, rest)) => Some((t + text, rest)),
        None => None,
    }
}

/// The string literal at the start of `value`: its text and what follows it.
pub open spec fn literal_prefix(value: Seq<char>) -> Option<(Seq<char>, Seq<char>)> {
    if value.len() > 0 && value[0] == '"' {
        read_literal(value.skip(1))
    } else {
        None
    }
}

/// The text of the string literal that `value` starts with, after white space.
pub open spec fn literal_text(value: Seq<char>) -> Option<Seq<char>> {
    match literal_prefix(crate::text::trim_start(value)) {
        Some((text, _)) => Some(text),
        None => None,
    }
}

/// A text that was escaped and quoted is read back unchanged, and the reader stops
/// right behind the closing quote, whatever follows it.
pub proof fn escaped_reads_back(s: Seq<char>, rest: Seq<char>)
    ensures
        read_literal(escaped(s) + seq!['"'] + rest) == Some((s, rest)),
    decreases s.len(),
{
    let all = escaped(s) + seq!['"'] + rest;
    if s.len() == 0 {
        assert(all.skip(1) == rest);
        assert(s == Seq::<char>::empty());
    } else {
        let tail = escaped(s.skip(1)) + seq!['"'] + rest;
        escaped_reads_back(s.skip(1), rest);
        assert(seq![s[0]] + s.skip(1) == s);
        if s[0] == '\\' || s[0] == '"' {
            assert(all.skip(2) == tail);
        } else {
            assert(all.skip(1) == tail);
        }
    }
}

/// Escaping keeps a text on one line.
pub proof fn escaped_keeps_lines(s: Seq<char>, c: char)
    requires
        c != '\\',
        c != '"',
    ensures
        crate::text::has_char(escaped(s), c) == crate::text::has_char(s, c),
    decreases s.len(),
{
    if s.len() > 0 {
        let head = escaped_char(s[0]);
        let tail = escaped(s.skip(1));
        escaped_keeps_lines(s.skip(1), c);
        if crate::text::has_char(s, c) {
            let i = choose|i: int| 0 <= i < s.len() && s[i] == c;
            if i == 0 {
                assert(escaped(s)[0] == c);
            } else {
                assert(s.skip(1)[i - 1] == c);
                let j = choose|j: int| 0 <= j < tail.len() && tail[j] == c;
                assert(escaped(s)[head.len() + j] == c);
            }
        }
        if crate::text::has_char(escaped(s), c) {
            let i = choose|i: int| 0 <= i < escaped(s).len() && escaped(s)[i] == c;
            if i < head.len() {
                assert(s[0] == c);
            } else {
                assert(tail[i - head.len()] == c);
                let j = choose|j: int| 0 <= j < s.skip(1).len() && s.skip(1)[j] == c;
                assert(s[j + 1] == c);
            }
        }
    }
}

/// Writes a text for use inside an AppleScript string literal.
pub fn apple_escape(value: &str) -> (r: String)
    ensures
        r@ == escaped(value@),
{
    let s = chars_of(value);
    let mut out = String::new();
    assert(s@.skip(0) == s@);
    for i in 0..s.len()
        invariant
            s@ == value@,
            escaped(value@) == out@ + escaped(s@.skip(i as int)),
    {
        let ghost before = out@;
        let ghost rest = s@.skip(i as int);
        let c = s[i];
        if c == '\\' || c == '"' {
            out.push('\\');
        }
        out.push(c);
        assert(out@ == before + escaped_char(c));
        assert(rest.skip(1) == s@.skip(i as int + 1));
        assert(before + (escaped_char(c) + escaped(rest.skip(1))) == (before + escaped_char(c))
            + escaped(rest.skip(1)));
    }
    assert(out@ + escaped(s@.skip(s@.len() as int)) == out@);
    out
}

/// Reads a string literal, from behind its opening quote.
pub fn read_literal_slice(quoted: &[char]) -> (r: Option<(String, &[char])>)
    ensures
        match r {
            Some((text, rest)) => read_literal(quoted@) == Some((text@, rest@)),
            None => read_literal(quoted@) is None,
        },
{
    let mut out = String::new();
    let mut i: usize = 0;
    assert(quoted@.skip(0) == quoted@);
    proof {
        if let Some((text, rest)) = read_literal(quoted@) {
            assert(Seq::<char>::empty() + text == text);
        }
    }
    while i < quoted.len()
        invariant
            i <= quoted.len(),
            read_literal(quoted@) == prepend(out@, read_literal(quoted@.skip(i as int))),
        decreases quoted.len() - i,
    {
        let ghost before = out@;
        let ghost rest = quoted@.skip(i as int);
        let c = quoted[i];
        if c == '"' {
            let after = &quoted[i + 1..quoted.len()];
            assert(rest.skip(1) == after@);
            assert(before + Seq::<char>::empty() == before);
            return Some((out, after));
        }
        if c == '\\' {
            if i + 1 == quoted.len() {
                return None;
            }
            out.push(quoted[i + 1]);
            assert(rest.skip(2) == quoted@.skip(i as int + 2));
            proof {
                if let Some((text, _)) = read_literal(rest.skip(2)) {
                    assert(before + (seq![rest[1]] + text) == before.push(rest[1]) + text);
                }
            }
            i = i + 2;
        } else {
            out.push(c);
            assert(rest.skip(1) == quoted@.skip(i as int + 1));
            proof {
                if let Some((text, _)) = read_literal(rest.skip(1)) {
                    assert(before + (seq![rest[0]] + text) == before.push(rest[0]) + text);
                }
            }
            i = i + 1;
        }
    }
    None
}

/// Reads the string literal at the start of `value`.
pub fn parse_apple_string_prefix(value: &[char]) -> (r: Option<(String, &[char])>)
    ensures
        match r {
            Some((text, rest)) => literal_prefix(value@) == Some((text@, rest@)),
            None => literal_prefix(value@) is None,
        },
{
    if value.len() == 0 || value[0] != '"' {
        return None;
    }
    let quoted = &value[1..value.len()];
    assert(quoted@ == value@.skip(1));
    read_literal_slice(quoted)
}

/// Reads the string literal that `value` starts with, after white space.
pub fn parse_apple_string(value: &[char]) -> (r: Option<String>)
    ensures
        crate::text::opt_view(r) == literal_text(value@),
{
    match parse_apple_string_prefix(trim_start_slice(value)) {
        Some((text, _)) => Some(text),
        None => None,
    }
}

// Assignments of a saved script.
/// How many digits `s` starts with.
pub open spec fn digit_run(s: Seq<char>) -> int
    decreases s.len(),
{
    if s.len() > 0 && crate::number::is_digit(s[0]) {
        1 + digit_run(s.skip(1))
    } else {
        0
    }
}

/// The number that `s` starts with, and what follows its digits.
pub open spec fn leading_number(s: Seq<char>) -> Option<(int, Seq<char>)> {
    match crate::number::parse_digits(s.take(digit_run(s)), usize::MAX as int) {
        Some(v) => Some((v, s.skip(digit_run(s)))),
        None => None,
    }
}

/// `digit_run` is the end of the longest prefix of digits.
pub proof fn lemma_digit_run(s: Seq<char>)
    ensures
        0 <= digit_run(s) <= s.len(),
        forall|i: int| 0 <= i < digit_run(s) ==> crate::number::is_digit(#[trigger] s[i]),
        digit_run(s) < s.len() ==> !crate::number::is_digit(s[digit_run(s)]),
    decreases s.len(),
{
    if s.len() > 0 && crate::number::is_digit(s[0]) {
        lemma_digit_run(s.skip(1));
        assert forall|i: int| 0 <= i < digit_run(s) implies crate::number::is_digit(
            #[trigger] s[i],
        ) by {
            if i > 0 {
                assert(s[i] == s.skip(1)[i - 1]);
            }
        }
    }
}

/// A prefix of digits that nothing lengthens is `digit_run`.
pub proof fn lemma_digit_run_is(s: Seq<char>, n: int)
    requires
        0 <= n <= s.len(),
        forall|i: int| 0 <= i < n ==> crate::number::is_digit(#[trigger] s[i]),
        n < s.len() ==> !crate::number::is_digit(s[n]),
    ensures
        digit_run(s) == n,
{
    lemma_digit_run(s);
    if digit_run(s) < n {
        assert(crate::number::is_digit(s[digit_run(s)]));
    }
    if n < digit_run(s) {
        assert(crate::number::is_digit(s[n]));
    }
}

/// The line `prefix` number `marker` literal: the number and the literal's text.
pub open spec fn indexed_assignment(
    line: Seq<char>,
    prefix: Seq<char>,
    marker: Seq<char>,
) -> Option<(int, Seq<char>)> {
    match crate::text::strip_prefix(line, prefix) {
        Some(rest) => match leading_number(rest) {
            Some((index, rest)) => match crate::text::strip_prefix(rest, marker) {
                Some(value) => match literal_text(value) {
                    Some(text) => Some((index, text)),
                    None => None,
                },
                None => None,
            },
            None => None,
        },
        None => None,
    }
}

/// The title that a `set_tab_title` action sets, and the target that it names.
pub open spec fn title_action(line: Seq<char>) -> Option<(Seq<char>, Seq<char>)> {
    match crate::text::strip_prefix(line, "perform action \"set_tab_title:"@) {
        Some(rest) => match read_literal(rest) {
            Some((title, after_title)) => match crate::text::strip_prefix(after_title, " on "@) {
                Some(target) => Some((title, target)),
                None => None,
            },
            None => None,
        },
        None => None,
    }
}

/// The title that a `set_tab_title` action sets on the terminal `term` and a number: the
/// number and the title.
pub open spec fn term_title(line: Seq<char>) -> Option<(int, Seq<char>)> {
    match title_action(line) {
        Some((title, target)) => match crate::text::strip_prefix(target, "term"@) {
            Some(after) => match leading_number(after) {
                Some((index, _)) => Some((index, title)),
                None => None,
            },
            None => None,
        },
        None => None,
    }
}

/// The title that a `set_tab_title` action sets on a numbered terminal (`term` or
/// `p` and a number): the number and the title.
pub open spec fn title_assignment(line: Seq<char>) -> Option<(int, Seq<char>)> {
    match title_action(line) {
        Some((title, target)) => {
            let after = match crate::text::strip_prefix(target, "term"@) {
                Some(after) => Some(after),
                None => crate::text::strip_prefix(target, "p"@),
            };
            match after {
                Some(after) => match leading_number(after) {
                    Some((index, _)) => Some((index, title)),
                    None => None,
                },
                None => None,
            }
        },
        None => None,
    }
}

/// Splits the number that `value` starts with from what follows it.
pub fn split_digits(value: &[char]) -> (r: Option<(usize, &[char])>)
    ensures
        match r {
            Some((index, rest)) => leading_number(value@) == Some((index as int, rest@)),
            None => leading_number(value@) is None,
        },
{
    let mut n: usize = 0;
    while n < value.len() && is_digit_char(value[n])
        invariant
            n <= value.len(),
            forall|i: int| 0 <= i < n ==> crate::number::is_digit(#[trigger] value@[i]),
        decreases value.len() - n,
    {
        n = n + 1;
    }
    proof {
        lemma_digit_run_is(value@, n as int);
    }
    match parse_digits_usize(&value[0..n]) {
        Some(index) => Some((index, &value[n..value.len()])),
        None => None,
    }
}

/// Reads a line of the form `prefix` number `marker` literal.
pub fn parse_indexed_assignment(line: &[char], prefix: &str, marker: &str) -> (r: Option<
    (usize, String),
>)
    ensures
        match r {
            Some((index, text)) => indexed_assignment(line@, prefix@, marker@) == Some(
                (index as int, text@),
            ),
            None => indexed_assignment(line@, prefix@, marker@) is None,
        },
{
    let rest = strip_prefix_slice(line, prefix)?;
    let (index, rest) = split_digits(rest)?;
    let value = strip_prefix_slice(rest, marker)?;
    let text = parse_apple_string(value)?;
    Some((index, text))
}

/// Reads a `set_tab_title` action: its title and the target that it names.
pub fn parse_title_action(line: &[char]) -> (r: Option<(String, &[char])>)
    ensures
        match r {
            Some((title, target)) => title_action(line@) == Some((title@, target@)),
            None => title_action(line@) is None,
        },
{
    let rest = strip_prefix_slice(line, "perform action \"set_tab_title:")?;
    let (title, after_title) = read_literal_slice(rest)?;
    let target = strip_prefix_slice(after_title, " on ")?;
    Some((title, target))
}

/// Reads a `set_tab_title` action on the terminal `term` and a number.
pub fn parse_term_title(line: &[char]) -> (r: Option<(usize, String)>)
    ensures
        match r {
            Some((index, title)) => term_title(line@) == Some((index as int, title@)),
            None => term_title(line@) is None,
        },
{
    let (title, target) = parse_title_action(line)?;
    let after = strip_prefix_slice(target, "term")?;
    let (index, _) = split_digits(after)?;
    Some((index, title))
}

/// Reads a `set_tab_title` action on a numbered terminal.
pub fn parse_title_assignment(line: &[char]) -> (r: Option<(usize, String)>)
    ensures
        match r {
            Some((index, title)) => title_assignment(line@) == Some((index as int, title@)),
            None => title_assignment(line@) is None,
        },
{
    let (title, target) = parse_title_action(line)?;
    let after = match strip_prefix_slice(target, "term") {
        Some(after) => after,
        None => strip_prefix_slice(target, "p")?,
    };
    let (index, _) = split_digits(after)?;
    Some((index, title))
}

// Shell commands.
/// A path as it is written between single quotes in a shell command.
pub open spec fn shell_quoted(s: Seq<char>) -> Seq<char> {
    crate::text::replace_char(s, '\'', "'\"'\"'"@)
}

/// The shell command that changes to a directory.
pub open spec fn cd_command(path: Seq<char>) -> Seq<char> {
    "cd -- '"@ + shell_quoted(path) + "'"@
}

/// Writes a text for use between single quotes in a shell command.
pub fn shell_single_quote_escape(value: &str) -> (r: String)
    ensures
        r@ == shell_quoted(value@),
{
    replace_char_slice(chars_of(value).as_slice(), '\'', "'\"'\"'")
}

/// The shell command that changes to a directory.
pub fn render_shell_cd_command(path: &str) -> (r: String)
    ensures
        r@ == cd_command(path@),
{
    let mut out = "cd -- '".to_string();
    out.append(shell_single_quote_escape(path).as_str());
    out.append("'");
    out
}

/// The command as it is typed into a terminal: a leading space keeps it out of the
/// shell's history.
pub fn render_ghostty_direct_cd_command(path: &str) -> (r: String)
    ensures
        r@ == " "@ + cd_command(path@),
{
    let mut out = " ".to_string();
    out.append(render_shell_cd_command(path).as_str());
    out
}

/// The script that types a command into the focused terminal.
pub open spec fn cd_script(command: Seq<char>) -> Seq<char> {
    "tell application \"Ghostty\"\n    if (count of windows) is 0 then error \"Ghostty has no open window\"\n    set term to focused terminal of selected tab of front window\n    input text \""@
        + escaped(command) + "\" to term\n    send key \"enter\" to term\nend tell"@
}

/// The script that replaces the focused terminal by one in another directory.
pub open spec fn replace_directory_script(path: Seq<char>) -> Seq<char> {
    "tell application \"Ghostty\"\n    if (count of windows) is 0 then error \"Ghostty has no open window\"\n    set term to focused terminal of selected tab of front window\n    set cfg to new surface configuration\n    set initial working directory of cfg to \""@
        + escaped(path)
        + "\"\n    set newTerm to split term direction right with configuration cfg\n    close term\n    focus newTerm\nend tell"@
}

/// Builds the script that types a command into the focused terminal.
pub fn build_ghostty_cd_script(command: &str) -> (r: String)
    ensures
        r@ == cd_script(command@),
{
    let mut out =
        "tell application \"Ghostty\"\n    if (count of windows) is 0 then error \"Ghostty has no open window\"\n    set term to focused terminal of selected tab of front window\n    input text \"".to_string();
    out.append(apple_escape(command).as_str());
    out.append("\" to term\n    send key \"enter\" to term\nend tell");
    out
}

/// Builds the script that replaces the focused terminal by one in `path`.
pub fn build_ghostty_replace_directory_script(path: &str) -> (r: String)
    ensures
        r@ == replace_directory_script(path@),
{
    let mut out =
        "tell application \"Ghostty\"\n    if (count of windows) is 0 then error \"Ghostty has no open window\"\n    set term to focused terminal of selected tab of front window\n    set cfg to new surface configuration\n    set initial working directory of cfg to \"".to_string();
    out.append(apple_escape(path).as_str());
    out.append(
        "\"\n    set newTerm to split term direction right with configuration cfg\n    close term\n    focus newTerm\nend tell",
    );
    out
}

// How a shell reads quotes.
/// The word that a shell reads from text made of quoted parts alone. Between single
/// quotes every character stands for itself; between double quotes every character
/// but `$`, `` ` `` and `\` does. `None` for any other text.
pub open spec fn shell_word(s: Seq<char>) -> Option<Seq<char>>
    decreases s.len(),
{
    if s.len() == 0 {
        Some(seq![])
    } else if s[0] == '\'' || s[0] == '"' {
        let body = s.skip(1);
        let end = crate::text::first_index(body, s[0]);
        if 0 <= end < body.len() && (s[0] == '"' ==> !(exists|i: int|
            0 <= i < end && (body[i] == '$' || body[i] == '`' || #[trigger] body[i] == '\\'))) {
            match shell_word(body.skip(end + 1)) {
                Some(word) => Some(body.take(end) + word),
                None => None,
            }
        } else {
            None
        }
    } else {
        None
    }
}

/// The shell reads a quoted path back as one word: `cd --` gets the path itself,
/// whatever characters it holds.
#[verifier::rlimit(30)]
pub proof fn shell_quoted_reads_back(s: Seq<char>)
    ensures
        shell_word(seq!['\''] + shell_quoted(s) + seq!['\'']) == Some(s),
    decreases s.len(),
{
    reveal_strlit("'\"'\"'");
    let quote = '\'';
    let with = "'\"'\"'"@;
    let end = crate::text::first_index(s, quote);
    crate::text::lemma_first_index(s, quote);
    let a = s.take(end);
    lemma_replace_absent(a, quote, with);
    let all = seq![quote] + shell_quoted(s) + seq![quote];
    let body = all.skip(1);
    if end == s.len() {
        assert(a == s);
        assert(body == s + seq![quote]);
        crate::text::lemma_first_index_is(body, quote, s.len() as int);
        assert(body.skip(end + 1) == Seq::<char>::empty());
        assert(shell_word(Seq::<char>::empty()) == Some(Seq::<char>::empty()));
        assert(body.take(end) + Seq::<char>::empty() == s);
    } else {
        let b = s.skip(end + 1);
        shell_quoted_reads_back(b);
        lemma_replace_split(a, s.skip(end), quote, with);
        assert(a + s.skip(end) == s);
        lemma_replace_split(seq![quote], b, quote, with);
        assert(seq![quote] + b == s.skip(end));
        assert(seq![quote].drop_last() == Seq::<char>::empty());
        assert(crate::text::replace_char(seq![quote].drop_last(), quote, with) == Seq::<
            char,
        >::empty());
        assert(crate::text::replace_char(seq![quote], quote, with) == with);
        let tail = seq![quote] + shell_quoted(b) + seq![quote];
        assert(with == seq![quote, '"', quote, '"', quote]);
        assert(body == a + seq![quote] + seq!['"', quote, '"'] + tail);
        crate::text::lemma_first_index_is(body, quote, end);
        let second = body.skip(end + 1);
        assert(second == seq!['"', quote, '"'] + tail);
        let inner = second.skip(1);
        assert(inner == seq![quote, '"'] + tail);
        crate::text::lemma_first_index_is(inner, '"', 1);
        assert(inner.skip(2) == tail);
        assert(shell_word(second) == Some(inner.take(1) + b));
        assert(body.take(end) == a);
        assert(a + (inner.take(1) + b) == s);
    }
}

/// Replacing an absent character changes nothing.
proof fn lemma_replace_absent(s: Seq<char>, c: char, with: Seq<char>)
    requires
        forall|i: int| 0 <= i < s.len() ==> s[i] != c,
    ensures
        crate::text::replace_char(s, c, with) == s,
    decreases s.len(),
{
    if s.len() > 0 {
        lemma_replace_absent(s.drop_last(), c, with);
        assert(s.drop_last() + seq![s.last()] == s);
    }
}

/// Replacing goes through both parts of a text.
proof fn lemma_replace_split(a: Seq<char>, b: Seq<char>, c: char, with: Seq<char>)
    ensures
        crate::text::replace_char(a + b, c, with) == crate::text::replace_char(a, c, with)
            + crate::text::replace_char(b, c, with),
    decreases b.len(),
{
    if b.len() == 0 {
        assert(a + b == a);
    } else {
        lemma_replace_split(a, b.drop_last(), c, with);
        assert((a + b).drop_last() == a + b.drop_last());
    }
}

// What the scripts for a terminal do.
/// A terminal that scripts work on, and what becomes of it.
pub struct Desk {
    /// The working directory of the configuration, once there is one and it has one.
    pub config: Option<Option<Seq<char>>>,
    /// The terminal that had the focus is open.
    pub first_open: bool,
    /// The new terminal, with the directory that it was started in.
    pub second: Option<Option<Seq<char>>>,
    /// The new terminal has the focus.
    pub second_focused: bool,
    /// What stands on the command line of the first terminal.
    pub typed: Seq<char>,
    /// The commands that were run in it.
    pub entered: Seq<Seq<char>>,
}

/// One terminal, with the focus, at its prompt.
pub open spec fn fresh_desk() -> Desk {
    Desk {
        config: None,
        first_open: true,
        second: None,
        second_focused: false,
        typed: seq![],
        entered: seq![],
    }
}

/// What one line of a script does.
pub open spec fn do_line(desk: Desk, line: Seq<char>) -> Desk {
    let t = crate::text::trim(line);
    if t == "set cfg to new surface configuration"@ {
        Desk { config: Some(None), ..desk }
    } else if t == "set newTerm to split term direction right with configuration cfg"@ {
        if desk.first_open && desk.config is Some {
            Desk { second: Some(desk.config->0), ..desk }
        } else {
            desk
        }
    } else if t == "close term"@ {
        Desk { first_open: false, ..desk }
    } else if t == "focus newTerm"@ {
        Desk { second_focused: desk.second is Some, ..desk }
    } else if t == "send key \"enter\" to term"@ {
        if desk.first_open {
            Desk { typed: seq![], entered: desk.entered.push(desk.typed), ..desk }
        } else {
            desk
        }
    } else {
        match crate::text::strip_prefix(t, "set initial working directory of cfg to "@) {
            Some(value) => match literal_text(value) {
                Some(dir) if desk.config is Some => Desk { config: Some(Some(dir)), ..desk },
                _ => desk,
            },
            None => match crate::text::strip_prefix(t, "input text "@) {
                Some(value) => match literal_prefix(value) {
                    Some((text, rest)) if rest == " to term"@ && desk.first_open => Desk {
                        typed: desk.typed + text,
                        ..desk
                    },
                    _ => desk,
                },
                None => desk,
            },
        }
    }
}

/// What the lines of a script do, one after the other.
pub open spec fn do_lines(desk: Desk, lines: Seq<Seq<char>>) -> Desk
    decreases lines.len(),
{
    if lines.len() == 0 {
        desk
    } else {
        do_line(do_lines(desk, lines.drop_last()), lines.last())
    }
}

/// A line of a script, indented.
proof fn lemma_indented(line: Seq<char>)
    requires
        line.len() > 4,
        line[0] == ' ' && line[1] == ' ' && line[2] == ' ' && line[3] == ' ',
        !crate::text::white_space(line[4]),
        !crate::text::white_space(line.last()),
    ensures
        crate::text::trim(line) == line.skip(4),
{
    let a = line.skip(1);
    let b = a.skip(1);
    let c = b.skip(1);
    let d = c.skip(1);
    assert(d == line.skip(4));
    assert(crate::text::trim_start(line) == crate::text::trim_start(a));
    assert(crate::text::trim_start(a) == crate::text::trim_start(b));
    assert(crate::text::trim_start(b) == crate::text::trim_start(c));
    assert(crate::text::trim_start(c) == crate::text::trim_start(d));
    crate::text::lemma_trimmed(d);
}

/// The lines that address Ghostty do nothing to the terminals.
proof fn lemma_opening_lines(desk: Desk)
    ensures
        do_line(desk, "tell application \"Ghostty\""@) == desk,
        do_line(
            desk,
            "    if (count of windows) is 0 then error \"Ghostty has no open window\""@,
        ) == desk,
        do_line(desk, "    set term to focused terminal of selected tab of front window"@) == desk,
        do_line(desk, "end tell"@) == desk,
{
    reveal_strlit("tell application \"Ghostty\"");
    reveal_strlit("    if (count of windows) is 0 then error \"Ghostty has no open window\"");
    reveal_strlit("    set term to focused terminal of selected tab of front window");
    reveal_strlit("end tell");
    reveal_strlit("set cfg to new surface configuration");
    reveal_strlit("set newTerm to split term direction right with configuration cfg");
    reveal_strlit("close term");
    reveal_strlit("focus newTerm");
    reveal_strlit("send key \"enter\" to term");
    reveal_strlit("set initial working directory of cfg to ");
    reveal_strlit("input text ");
    let a = "tell application \"Ghostty\""@;
    let b = "    if (count of windows) is 0 then error \"Ghostty has no open window\""@;
    let c = "    set term to focused terminal of selected tab of front window"@;
    let d = "end tell"@;
    let p = "set initial working directory of cfg to "@;
    let q = "input text "@;
    crate::text::lemma_trimmed(a);
    crate::text::lemma_trimmed(d);
    lemma_indented(b);
    lemma_indented(c);
    let e = b.skip(4);
    let f = c.skip(4);
    assert(a[0] == 't' && d[0] == 'e' && e[0] == 'i' && e[1] == 'f' && f[0] == 's' && f[4] == 't');
    if crate::text::starts_with(a, p) {
        assert(a.take(p.len() as int)[0] == p[0]);
    }
    if crate::text::starts_with(a, q) {
        assert(a.take(q.len() as int)[0] == q[0]);
    }
    if crate::text::starts_with(d, q) {
        assert(d.take(q.len() as int)[0] == q[0]);
    }
    if crate::text::starts_with(e, p) {
        assert(e.take(p.len() as int)[0] == p[0]);
    }
    if crate::text::starts_with(e, q) {
        assert(e.take(q.len() as int)[1] == q[1]);
    }
    if crate::text::starts_with(f, p) {
        assert(f.take(p.len() as int)[4] == p[4]);
    }
    if crate::text::starts_with(f, q) {
        assert(f.take(q.len() as int)[0] == q[0]);
    }
    assert("set cfg to new surface configuration"@[4] == 'c');
    assert("set newTerm to split term direction right with configuration cfg"@[4] == 'n');
    assert("close term"@[0] == 'c');
    assert("focus newTerm"@[0] == 'f');
    assert("send key \"enter\" to term"@[1] == 'e' && "send key \"enter\" to term"@[2] == 'n');
}

/// The first line is done first.
proof fn lemma_do_first(desk: Desk, line: Seq<char>, rest: Seq<Seq<char>>)
    ensures
        do_lines(desk, seq![line] + rest) == do_lines(do_line(desk, line), rest),
    decreases rest.len(),
{
    let all = seq![line] + rest;
    if rest.len() == 0 {
        assert(all.drop_last() == Seq::<Seq<char>>::empty());
        assert(do_lines(desk, all.drop_last()) == desk);
    } else {
        lemma_do_first(desk, line, rest.drop_last());
        assert(all.drop_last() == seq![line] + rest.drop_last());
        assert(all.last() == rest.last());
    }
}

/// The first line of a text is done first.
proof fn lemma_do_front(desk: Desk, a: Seq<char>, b: Seq<char>)
    requires
        crate::text::plain_line(a),
    ensures
        do_lines(desk, crate::text::lines(a + seq!['\n'] + b)) == do_lines(
            do_line(desk, a),
            crate::text::lines(b),
        ),
{
    crate::text::lemma_lines_front(a, b);
    lemma_do_first(desk, a, crate::text::lines(b));
}

/// The line that starts both scripts.
proof fn lemma_opening(desk: Desk, rest: Seq<char>)
    ensures
        do_lines(
            desk,
            crate::text::lines(
                "tell application \"Ghostty\"\n    if (count of windows) is 0 then error \"Ghostty has no open window\"\n    set term to focused terminal of selected tab of front window\n"@
                    + rest,
            ),
        ) == do_lines(desk, crate::text::lines(rest)),
{
    reveal_strlit("tell application \"Ghostty\"");
    reveal_strlit("    if (count of windows) is 0 then error \"Ghostty has no open window\"");
    reveal_strlit("    set term to focused terminal of selected tab of front window");
    reveal_strlit(
        "tell application \"Ghostty\"\n    if (count of windows) is 0 then error \"Ghostty has no open window\"\n    set term to focused terminal of selected tab of front window\n",
    );
    let a = "tell application \"Ghostty\""@;
    let b = "    if (count of windows) is 0 then error \"Ghostty has no open window\""@;
    let c = "    set term to focused terminal of selected tab of front window"@;
    let br = seq!['\n'];
    let all =
        "tell application \"Ghostty\"\n    if (count of windows) is 0 then error \"Ghostty has no open window\"\n    set term to focused terminal of selected tab of front window\n"@
        + rest;
    assert(all =~= a + br + (b + br + (c + br + rest)));
    lemma_opening_lines(desk);
    lemma_do_front(desk, a, b + br + (c + br + rest));
    lemma_do_front(desk, b, c + br + rest);
    lemma_do_front(desk, c, rest);
}

/// The line that closes both scripts.
proof fn lemma_closing(desk: Desk)
    ensures
        do_lines(desk, crate::text::lines("end tell"@)) == desk,
{
    reveal_strlit("end tell");
    let d = "end tell"@;
    lemma_opening_lines(desk);
    crate::text::lines_of_join(seq![d]);
    assert(crate::text::join(seq![d], seq!['\n']) == d);
    assert(!crate::text::has_char(d, '\n'));
    assert(crate::text::lines(d) == seq![d]);
    assert(seq![d].drop_last() == Seq::<Seq<char>>::empty());
    assert(do_lines(desk, Seq::<Seq<char>>::empty()) == desk);
}

/// What the lines of the scripts that hold no text of the caller's do.
proof fn lemma_fixed_lines(desk: Desk)
    ensures
        do_line(desk, "    set cfg to new surface configuration"@) == (Desk {
            config: Some(None),
            ..desk
        }),
        desk.first_open && desk.config is Some ==> do_line(
            desk,
            "    set newTerm to split term direction right with configuration cfg"@,
        ) == (Desk { second: Some(desk.config->0), ..desk }),
        do_line(desk, "    close term"@) == (Desk { first_open: false, ..desk }),
        do_line(desk, "    focus newTerm"@) == (Desk { second_focused: desk.second is Some, ..desk }),
        desk.first_open ==> do_line(desk, "    send key \"enter\" to term"@) == (Desk {
            typed: seq![],
            entered: desk.entered.push(desk.typed),
            ..desk
        }),
{
    reveal_strlit("    set cfg to new surface configuration");
    reveal_strlit("    set newTerm to split term direction right with configuration cfg");
    reveal_strlit("    close term");
    reveal_strlit("    focus newTerm");
    reveal_strlit("    send key \"enter\" to term");
    reveal_strlit("set cfg to new surface configuration");
    reveal_strlit("set newTerm to split term direction right with configuration cfg");
    reveal_strlit("close term");
    reveal_strlit("focus newTerm");
    reveal_strlit("send key \"enter\" to term");
    lemma_indented("    set cfg to new surface configuration"@);
    lemma_indented("    set newTerm to split term direction right with configuration cfg"@);
    lemma_indented("    close term"@);
    lemma_indented("    focus newTerm"@);
    lemma_indented("    send key \"enter\" to term"@);
    assert("    set cfg to new surface configuration"@.skip(4)
        =~= "set cfg to new surface configuration"@);
    assert("    set newTerm to split term direction right with configuration cfg"@.skip(4)
        =~= "set newTerm to split term direction right with configuration cfg"@);
    assert("    close term"@.skip(4) =~= "close term"@);
    assert("    focus newTerm"@.skip(4) =~= "focus newTerm"@);
    assert("    send key \"enter\" to term"@.skip(4) =~= "send key \"enter\" to term"@);
    assert("set cfg to new surface configuration"@[4] == 'c');
    assert("set newTerm to split term direction right with configuration cfg"@[4] == 'n');
    assert("close term"@[0] == 'c');
    assert("focus newTerm"@[0] == 'f');
    assert("send key \"enter\" to term"@[0] == 's' && "send key \"enter\" to term"@[1] == 'e'
        && "send key \"enter\" to term"@[2] == 'n');
    assert("set cfg to new surface configuration"@[2] == 't');
    assert("set newTerm to split term direction right with configuration cfg"@[2] == 't');
}

/// The line that gives the configuration its directory.
proof fn lemma_directory_line(desk: Desk, path: Seq<char>)
    requires
        desk.config is Some,
        !crate::text::has_char(path, '\n'),
    ensures
        ({
            let line = "    set initial working directory of cfg to \""@ + escaped(path) + seq!['"'];
            &&& crate::text::plain_line(line)
            &&& do_line(desk, line) == (Desk { config: Some(Some(path)), ..desk })
        }),
{
    reveal_strlit("    set initial working directory of cfg to \"");
    reveal_strlit("set initial working directory of cfg to ");
    reveal_strlit("set cfg to new surface configuration");
    reveal_strlit("set newTerm to split term direction right with configuration cfg");
    reveal_strlit("close term");
    reveal_strlit("focus newTerm");
    reveal_strlit("send key \"enter\" to term");
    let head = "    set initial working directory of cfg to \""@;
    let p = "set initial working directory of cfg to "@;
    let line = head + escaped(path) + seq!['"'];
    assert(!crate::text::has_char(head, '\n'));
    assert(!crate::text::has_char(seq!['"'], '\n'));
    escaped_keeps_lines(path, '\n');
    crate::text::lemma_concat_absent(head, escaped(path), '\n');
    crate::text::lemma_concat_absent(head + escaped(path), seq!['"'], '\n');
    assert(line.last() == '"');
    assert(line[0] == ' ' && line[1] == ' ' && line[2] == ' ' && line[3] == ' ' && line[4] == 's');
    lemma_indented(line);
    let t = line.skip(4);
    let value = seq!['"'] + (escaped(path) + seq!['"'] + Seq::<char>::empty());
    assert(t =~= p + value);
    assert(t[0] == 's' && t[2] == 't' && t[4] == 'i');
    assert("set cfg to new surface configuration"@[4] == 'c');
    assert("set newTerm to split term direction right with configuration cfg"@[4] == 'n');
    assert("close term"@[0] == 'c');
    assert("focus newTerm"@[0] == 'f');
    assert("send key \"enter\" to term"@[2] == 'n');
    assert(t.take(p.len() as int) =~= p);
    assert(t.skip(p.len() as int) =~= value);
    assert(crate::text::strip_prefix(t, p) == Some(value));
    assert(value[0] == '"');
    assert(crate::text::trim_start(value) == value);
    assert(value.skip(1) =~= escaped(path) + seq!['"'] + Seq::<char>::empty());
    escaped_reads_back(path, Seq::<char>::empty());
    assert(literal_text(value) == Some(path));
}

/// The line that types a command.
proof fn lemma_input_line(desk: Desk, command: Seq<char>)
    requires
        desk.first_open,
        !crate::text::has_char(command, '\n'),
    ensures
        ({
            let line = "    input text \""@ + escaped(command) + "\" to term"@;
            &&& crate::text::plain_line(line)
            &&& do_line(desk, line) == (Desk { typed: desk.typed + command, ..desk })
        }),
{
    reveal_strlit("    input text \"");
    reveal_strlit("input text ");
    reveal_strlit("\" to term");
    reveal_strlit(" to term");
    reveal_strlit("set initial working directory of cfg to ");
    reveal_strlit("set cfg to new surface configuration");
    reveal_strlit("set newTerm to split term direction right with configuration cfg");
    reveal_strlit("close term");
    reveal_strlit("focus newTerm");
    reveal_strlit("send key \"enter\" to term");
    let head = "    input text \""@;
    let tail = "\" to term"@;
    let after = " to term"@;
    let p = "input text "@;
    let q = "set initial working directory of cfg to "@;
    let line = head + escaped(command) + tail;
    assert(!crate::text::has_char(head, '\n'));
    assert(!crate::text::has_char(tail, '\n'));
    escaped_keeps_lines(command, '\n');
    crate::text::lemma_concat_absent(head, escaped(command), '\n');
    crate::text::lemma_concat_absent(head + escaped(command), tail, '\n');
    assert(line.last() == 'm');
    assert(line[0] == ' ' && line[1] == ' ' && line[2] == ' ' && line[3] == ' ' && line[4] == 'i');
    lemma_indented(line);
    let t = line.skip(4);
    let value = seq!['"'] + (escaped(command) + seq!['"'] + after);
    assert(tail =~= seq!['"'] + after);
    assert(t =~= p + value);
    assert(t[0] == 'i');
    assert("set cfg to new surface configuration"@[0] == 's');
    assert("set newTerm to split term direction right with configuration cfg"@[0] == 's');
    assert("close term"@[0] == 'c');
    assert("focus newTerm"@[0] == 'f');
    assert("send key \"enter\" to term"@[0] == 's');
    assert(!crate::text::starts_with(t, q)) by {
        if crate::text::starts_with(t, q) {
            assert(t.take(q.len() as int)[0] == q[0]);
        }
    }
    assert(t.take(p.len() as int) =~= p);
    assert(t.skip(p.len() as int) =~= value);
    assert(crate::text::strip_prefix(t, p) == Some(value));
    assert(value.skip(1) =~= escaped(command) + seq!['"'] + after);
    escaped_reads_back(command, after);
}

/// Replacing a terminal opens a new one that was started in the directory itself, whatever
/// characters its path holds but line breaks; then the old one is closed, and the new one
/// has the focus. Nothing is typed.
pub proof fn replacing_opens_the_directory(path: Seq<char>)
    requires
        !crate::text::has_char(path, '\n'),
    ensures
        ({
            let desk = do_lines(fresh_desk(), crate::text::lines(replace_directory_script(path)));
            &&& desk.second == Some(Some(path))
            &&& !desk.first_open
            &&& desk.second_focused
            &&& desk.typed.len() == 0
            &&& desk.entered.len() == 0
        }),
{
    reveal_strlit(
        "tell application \"Ghostty\"\n    if (count of windows) is 0 then error \"Ghostty has no open window\"\n    set term to focused terminal of selected tab of front window\n    set cfg to new surface configuration\n    set initial working directory of cfg to \"",
    );
    reveal_strlit(
        "tell application \"Ghostty\"\n    if (count of windows) is 0 then error \"Ghostty has no open window\"\n    set term to focused terminal of selected tab of front window\n",
    );
    reveal_strlit(
        "\"\n    set newTerm to split term direction right with configuration cfg\n    close term\n    focus newTerm\nend tell",
    );
    reveal_strlit("    set cfg to new surface configuration");
    reveal_strlit("    set initial working directory of cfg to \"");
    reveal_strlit("    set newTerm to split term direction right with configuration cfg");
    reveal_strlit("    close term");
    reveal_strlit("    focus newTerm");
    reveal_strlit("end tell");
    let br = seq!['\n'];
    let cfg = "    set cfg to new surface configuration"@;
    let dir = "    set initial working directory of cfg to \""@ + escaped(path) + seq!['"'];
    let split = "    set newTerm to split term direction right with configuration cfg"@;
    let close = "    close term"@;
    let focus = "    focus newTerm"@;
    let end = "end tell"@;
    let r4 = focus + br + end;
    let r3 = close + br + r4;
    let r2 = split + br + r3;
    let r1 = dir + br + r2;
    let r0 = cfg + br + r1;
    let opening =
        "tell application \"Ghostty\"\n    if (count of windows) is 0 then error \"Ghostty has no open window\"\n    set term to focused terminal of selected tab of front window\n"@;
    let before =
        "tell application \"Ghostty\"\n    if (count of windows) is 0 then error \"Ghostty has no open window\"\n    set term to focused terminal of selected tab of front window\n    set cfg to new surface configuration\n    set initial working directory of cfg to \""@;
    let after =
        "\"\n    set newTerm to split term direction right with configuration cfg\n    close term\n    focus newTerm\nend tell"@;
    assert(before =~= opening + cfg + br + "    set initial working directory of cfg to \""@);
    assert(after =~= seq!['"'] + br + r2);
    assert(replace_directory_script(path) =~= opening + r0);
    let d0 = fresh_desk();
    lemma_opening(d0, r0);
    lemma_fixed_lines(d0);
    assert(crate::text::plain_line(cfg)) by {
        assert(!crate::text::has_char(cfg, '\n'));
    }
    lemma_do_front(d0, cfg, r1);
    let d1 = do_line(d0, cfg);
    lemma_directory_line(d1, path);
    lemma_do_front(d1, dir, r2);
    let d2 = do_line(d1, dir);
    lemma_fixed_lines(d2);
    assert(crate::text::plain_line(split)) by {
        assert(!crate::text::has_char(split, '\n'));
    }
    lemma_do_front(d2, split, r3);
    let d3 = do_line(d2, split);
    lemma_fixed_lines(d3);
    assert(crate::text::plain_line(close)) by {
        assert(!crate::text::has_char(close, '\n'));
    }
    lemma_do_front(d3, close, r4);
    let d4 = do_line(d3, close);
    lemma_fixed_lines(d4);
    assert(crate::text::plain_line(focus)) by {
        assert(!crate::text::has_char(focus, '\n'));
    }
    lemma_do_front(d4, focus, end);
    lemma_closing(do_line(d4, focus));
}

/// A command is typed into the terminal that has the focus and run there, once, just as it
/// is; the terminal stays, and no other is opened.
pub proof fn commands_are_typed_and_run(command: Seq<char>)
    requires
        !crate::text::has_char(command, '\n'),
    ensures
        ({
            let desk = do_lines(fresh_desk(), crate::text::lines(cd_script(command)));
            &&& desk.entered == seq![command]
            &&& desk.typed.len() == 0
            &&& desk.first_open
            &&& desk.second is None
            &&& !desk.second_focused
        }),
{
    reveal_strlit(
        "tell application \"Ghostty\"\n    if (count of windows) is 0 then error \"Ghostty has no open window\"\n    set term to focused terminal of selected tab of front window\n    input text \"",
    );
    reveal_strlit(
        "tell application \"Ghostty\"\n    if (count of windows) is 0 then error \"Ghostty has no open window\"\n    set term to focused terminal of selected tab of front window\n",
    );
    reveal_strlit("\" to term\n    send key \"enter\" to term\nend tell");
    reveal_strlit("    input text \"");
    reveal_strlit("\" to term");
    reveal_strlit("    send key \"enter\" to term");
    reveal_strlit("end tell");
    let br = seq!['\n'];
    let input = "    input text \""@ + escaped(command) + "\" to term"@;
    let send = "    send key \"enter\" to term"@;
    let end = "end tell"@;
    let r1 = send + br + end;
    let r0 = input + br + r1;
    let opening =
        "tell application \"Ghostty\"\n    if (count of windows) is 0 then error \"Ghostty has no open window\"\n    set term to focused terminal of selected tab of front window\n"@;
    let before =
        "tell application \"Ghostty\"\n    if (count of windows) is 0 then error \"Ghostty has no open window\"\n    set term to focused terminal of selected tab of front window\n    input text \""@;
    assert(before =~= opening + "    input text \""@);
    assert("\" to term\n    send key \"enter\" to term\nend tell"@ =~= "\" to term"@ + br + r1);
    assert(cd_script(command) =~= opening + r0);
    let d0 = fresh_desk();
    lemma_opening(d0, r0);
    lemma_input_line(d0, command);
    lemma_do_front(d0, input, r1);
    let d1 = do_line(d0, input);
    lemma_fixed_lines(d1);
    assert(crate::text::plain_line(send)) by {
        assert(!crate::text::has_char(send, '\n'));
    }
    lemma_do_front(d1, send, end);
    lemma_closing(do_line(d1, send));
    assert(d1.typed =~= command);
    assert(d1.entered.push(d1.typed) =~= seq![command]);
}

/// The command that changes to a directory is `cd --` and one word, which a shell reads as
/// the path itself.
pub proof fn cd_gets_the_path(path: Seq<char>)
    ensures
        ({
            let command = cd_command(path);
            &&& command.take(6) == seq!['c', 'd', ' ', '-', '-', ' ']
            &&& shell_word(command.skip(6)) == Some(path)
        }),
{
    reveal_strlit("cd -- '");
    reveal_strlit("'");
    let command = cd_command(path);
    shell_quoted_reads_back(path);
    assert(command.take(6) =~= seq!['c', 'd', ' ', '-', '-', ' ']);
    assert(command.skip(6) =~= seq!['\''] + shell_quoted(path) + seq!['\'']);
}

/// The path stands in one place of the script, and the rest of the script is the same for
/// every path; so it is with a command that is typed.
pub proof fn scripts_differ_in_one_place(text: Seq<char>, other: Seq<char>)
    ensures
        exists|k: int, after: int|
            #![trigger replace_directory_script(text).take(k), replace_directory_script(text).skip(after)]
            {
                &&& 0 <= k <= after <= replace_directory_script(text).len()
                &&& replace_directory_script(text).subrange(k, after) == escaped(text)
                &&& replace_directory_script(other) == replace_directory_script(text).take(k)
                    + escaped(other) + replace_directory_script(text).skip(after)
            },
        exists|k: int, after: int|
            #![trigger cd_script(text).take(k), cd_script(text).skip(after)]
            {
                &&& 0 <= k <= after <= cd_script(text).len()
                &&& cd_script(text).subrange(k, after) == escaped(text)
                &&& cd_script(other) == cd_script(text).take(k) + escaped(other) + cd_script(
                    text,
                ).skip(after)
            },
{
    let a =
        "tell application \"Ghostty\"\n    if (count of windows) is 0 then error \"Ghostty has no open window\"\n    set term to focused terminal of selected tab of front window\n    set cfg to new surface configuration\n    set initial working directory of cfg to \""@;
    let b =
        "\"\n    set newTerm to split term direction right with configuration cfg\n    close term\n    focus newTerm\nend tell"@;
    let script = replace_directory_script(text);
    let k = a.len() as int;
    let after = k + escaped(text).len();
    assert(script.take(k) =~= a);
    assert(script.skip(after) =~= b);
    assert(script.subrange(k, after) =~= escaped(text));
    let c =
        "tell application \"Ghostty\"\n    if (count of windows) is 0 then error \"Ghostty has no open window\"\n    set term to focused terminal of selected tab of front window\n    input text \""@;
    let d = "\" to term\n    send key \"enter\" to term\nend tell"@;
    let typing = cd_script(text);
    let m = c.len() as int;
    let n = m + escaped(text).len();
    assert(typing.take(m) =~= c);
    assert(typing.skip(n) =~= d);
    assert(typing.subrange(m, n) =~= escaped(text));
}

} // verus!
