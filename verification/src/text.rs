//! Text as sequences of characters: the string operations that the rest of the
//! library is stated and written with.
//!
//! Contracts speak of `Seq<char>`. Executable code works on `&[char]`, so that a
//! piece of a line is a slice of it, and turns to `String` at its edges.

use vstd::prelude::*;

verus! {

/// `String::push` appends one character.
pub assume_specification[ String::push ](s: &mut String, c: char)
    ensures
        final(s)@ == old(s)@.push(c),
;

/// `String::pop` removes the last character and returns it; on an empty string it
/// returns `None` and changes nothing.
pub assume_specification[ String::pop ](s: &mut String) -> (r: Option<char>)
    ensures
        old(s)@.len() == 0 ==> r is None && final(s)@ == old(s)@,
        old(s)@.len() > 0 ==> r == Some(old(s)@.last()) && final(s)@ == old(s)@.drop_last(),
;

/// What `str::to_lowercase` makes of a text.
pub uninterp spec fn lowercase(s: Seq<char>) -> Seq<char>;

/// The lower case form of one ASCII character.
pub open spec fn ascii_lower(c: char) -> char {
    if 'A' <= c && c <= 'Z' {
        (c as u8 + 32) as u8 as char
    } else {
        c
    }
}

/// All characters of `s` are ASCII.
pub open spec fn all_ascii(s: Seq<char>) -> bool {
    forall|i: int| 0 <= i < s.len() ==> (#[trigger] s[i] as u32) < 128
}

/// `str::to_lowercase`: the lower case form of a text by the rules of Unicode. Named
/// `lowercase`; on ASCII text it lowers `A` to `Z` and keeps every other character.
#[verifier::external_body]
pub(crate) fn to_lowercase(s: &str) -> (r: String)
    ensures
        r@ == lowercase(s@),
        all_ascii(s@) ==> r@ == s@.map_values(|c: char| ascii_lower(c)),
{
    s.to_lowercase()
}

/// The characters of a string, in order.
pub fn chars_of(s: &str) -> (r: Vec<char>)
    ensures
        r@ == s@,
{
    let mut out: Vec<char> = Vec::new();
    for c in it: s.chars()
        invariant
            it.seq() == s@,
            out@ == s@.take(it.index() as int),
    {
        out.push(c);
    }
    assert(s@.take(s@.len() as int) == s@);
    out
}

/// The string that holds these characters.
pub fn string_of(s: &[char]) -> (r: String)
    ensures
        r@ == s@,
{
    let mut out = String::new();
    for i in 0..s.len()
        invariant
            out@ == s@.take(i as int),
    {
        out.push(s[i]);
        assert(s@.take(i as int + 1) == s@.take(i as int).push(s@[i as int]));
    }
    assert(s@.take(s@.len() as int) == s@);
    out
}

/// The contents of a list of slices.
pub open spec fn views(v: Seq<&[char]>) -> Seq<Seq<char>> {
    v.map_values(|s: &[char]| s@)
}

/// The contents of a list of strings.
pub open spec fn string_views(v: Seq<String>) -> Seq<Seq<char>> {
    v.map_values(|s: String| s@)
}

/// The content of an optional string.
pub open spec fn opt_view(v: Option<String>) -> Option<Seq<char>> {
    match v {
        Some(s) => Some(s@),
        None => None,
    }
}

// White space.
/// The characters with the Unicode property White_Space.
pub open spec fn white_space(c: char) -> bool {
    ||| '\u{9}' <= c && c <= '\u{d}'
    ||| c == '\u{20}'
    ||| c == '\u{85}'
    ||| c == '\u{a0}'
    ||| c == '\u{1680}'
    ||| '\u{2000}' <= c && c <= '\u{200a}'
    ||| c == '\u{2028}'
    ||| c == '\u{2029}'
    ||| c == '\u{202f}'
    ||| c == '\u{205f}'
    ||| c == '\u{3000}'
}

/// Whether `c` is white space.
pub fn is_white_space(c: char) -> (r: bool)
    ensures
        r == white_space(c),
{
    ('\u{9}' <= c && c <= '\u{d}') || c == '\u{20}' || c == '\u{85}' || c == '\u{a0}' || c
        == '\u{1680}' || ('\u{2000}' <= c && c <= '\u{200a}') || c == '\u{2028}' || c == '\u{2029}'
        || c == '\u{202f}' || c == '\u{205f}' || c == '\u{3000}'
}

/// `s` without the white space at its start.
pub open spec fn trim_start(s: Seq<char>) -> Seq<char>
    decreases s.len(),
{
    if s.len() > 0 && white_space(s[0]) {
        trim_start(s.skip(1))
    } else {
        s
    }
}

/// `s` without the white space at its end.
pub open spec fn trim_end(s: Seq<char>) -> Seq<char>
    decreases s.len(),
{
    if s.len() > 0 && white_space(s.last()) {
        trim_end(s.drop_last())
    } else {
        s
    }
}

/// `s` without the white space at its two ends.
pub open spec fn trim(s: Seq<char>) -> Seq<char> {
    trim_end(trim_start(s))
}

/// Drops the white space at the start of a text.
pub fn trim_start_slice(s: &[char]) -> (r: &[char])
    ensures
        r@ == trim_start(s@),
{
    let mut i: usize = 0;
    assert(s@.skip(0) == s@);
    while i < s.len() && is_white_space(s[i])
        invariant
            i <= s.len(),
            trim_start(s@) == trim_start(s@.skip(i as int)),
        decreases s.len() - i,
    {
        assert(s@.skip(i as int).skip(1) == s@.skip(i as int + 1));
        i = i + 1;
    }
    &s[i..s.len()]
}

/// Drops the white space at the end of a text.
pub fn trim_end_slice(s: &[char]) -> (r: &[char])
    ensures
        r@ == trim_end(s@),
{
    let mut n: usize = s.len();
    assert(s@.take(n as int) == s@);
    while n > 0 && is_white_space(s[n - 1])
        invariant
            n <= s.len(),
            trim_end(s@) == trim_end(s@.take(n as int)),
        decreases n,
    {
        assert(s@.take(n as int).drop_last() == s@.take(n as int - 1));
        n = n - 1;
    }
    &s[0..n]
}

/// Drops the white space at the two ends of a text.
pub fn trim_slice(s: &[char]) -> (r: &[char])
    ensures
        r@ == trim(s@),
{
    trim_end_slice(trim_start_slice(s))
}

/// What is left of a text without white space at its start: the end of the text, not
/// starting with white space.
pub proof fn lemma_trim_start(s: Seq<char>)
    ensures
        trim_start(s).len() <= s.len(),
        trim_start(s) == s.skip(s.len() - trim_start(s).len()),
        trim_start(s).len() > 0 ==> !white_space(trim_start(s)[0]),
        forall|i: int| 0 <= i < s.len() - trim_start(s).len() ==> white_space(#[trigger] s[i]),
    decreases s.len(),
{
    if s.len() > 0 && white_space(s[0]) {
        let t = s.skip(1);
        lemma_trim_start(t);
        assert(t.skip(t.len() - trim_start(t).len()) == s.skip(s.len() - trim_start(t).len()));
        assert forall|i: int| 0 <= i < s.len() - trim_start(s).len() implies white_space(
            #[trigger] s[i],
        ) by {
            if i > 0 {
                assert(s[i] == t[i - 1]);
            }
        }
    } else {
        assert(s.skip(0) == s);
    }
}

/// What is left of a text without white space at its end: the start of the text, not
/// ending with white space.
pub proof fn lemma_trim_end(s: Seq<char>)
    ensures
        trim_end(s).len() <= s.len(),
        trim_end(s) == s.take(trim_end(s).len() as int),
        trim_end(s).len() > 0 ==> !white_space(trim_end(s).last()),
        forall|i: int| trim_end(s).len() <= i < s.len() ==> white_space(#[trigger] s[i]),
    decreases s.len(),
{
    if s.len() > 0 && white_space(s.last()) {
        let t = s.drop_last();
        lemma_trim_end(t);
        assert(t.take(trim_end(t).len() as int) == s.take(trim_end(t).len() as int));
        assert forall|i: int| trim_end(s).len() <= i < s.len() implies white_space(
            #[trigger] s[i],
        ) by {
            if i < t.len() {
                assert(s[i] == t[i]);
            }
        }
    } else {
        assert(s.take(s.len() as int) == s);
    }
}

/// A trimmed text has no white space at its ends, and trimming it again changes
/// nothing.
pub proof fn lemma_trim(s: Seq<char>)
    ensures
        trim(s).len() > 0 ==> !white_space(trim(s)[0]) && !white_space(trim(s).last()),
        trim(trim(s)) == trim(s),
        trim(s).len() <= s.len(),
        exists|i: int| #[trigger] occurs_at(s, trim(s), i),
{
    lemma_trim_start(s);
    lemma_trim_end(trim_start(s));
    let k = s.len() - trim_start(s).len();
    assert(s.subrange(k, k + trim(s).len()) == trim(s));
    assert(occurs_at(s, trim(s), k));
    lemma_trimmed(trim(s));
}

/// A text without white space at its ends is its own trimmed text.
pub proof fn lemma_trimmed(s: Seq<char>)
    requires
        s.len() > 0 ==> !white_space(s[0]) && !white_space(s.last()),
    ensures
        trim_start(s) == s,
        trim_end(s) == s,
        trim(s) == s,
{
}

/// `s` without the copies of `c` at its start.
pub open spec fn trim_start_char(s: Seq<char>, c: char) -> Seq<char>
    decreases s.len(),
{
    if s.len() > 0 && s[0] == c {
        trim_start_char(s.skip(1), c)
    } else {
        s
    }
}

/// `s` without the copies of `c` at its end.
pub open spec fn trim_end_char(s: Seq<char>, c: char) -> Seq<char>
    decreases s.len(),
{
    if s.len() > 0 && s.last() == c {
        trim_end_char(s.drop_last(), c)
    } else {
        s
    }
}

/// Drops the copies of `c` at the start of a text.
pub fn trim_start_char_slice(s: &[char], c: char) -> (r: &[char])
    ensures
        r@ == trim_start_char(s@, c),
{
    let mut i: usize = 0;
    assert(s@.skip(0) == s@);
    while i < s.len() && s[i] == c
        invariant
            i <= s.len(),
            trim_start_char(s@, c) == trim_start_char(s@.skip(i as int), c),
        decreases s.len() - i,
    {
        assert(s@.skip(i as int).skip(1) == s@.skip(i as int + 1));
        i = i + 1;
    }
    &s[i..s.len()]
}

/// Drops the copies of `c` at the end of a text.
pub fn trim_end_char_slice(s: &[char], c: char) -> (r: &[char])
    ensures
        r@ == trim_end_char(s@, c),
{
    let mut n: usize = s.len();
    assert(s@.take(n as int) == s@);
    while n > 0 && s[n - 1] == c
        invariant
            n <= s.len(),
            trim_end_char(s@, c) == trim_end_char(s@.take(n as int), c),
        decreases n,
    {
        assert(s@.take(n as int).drop_last() == s@.take(n as int - 1));
        n = n - 1;
    }
    &s[0..n]
}

/// `s` without the line breaks (`\r` and `\n`) at its end.
pub open spec fn trim_line_breaks(s: Seq<char>) -> Seq<char>
    decreases s.len(),
{
    if s.len() > 0 && (s.last() == '\r' || s.last() == '\n') {
        trim_line_breaks(s.drop_last())
    } else {
        s
    }
}

/// Drops the line breaks at the end of a text.
pub fn trim_line_breaks_slice(s: &[char]) -> (r: &[char])
    ensures
        r@ == trim_line_breaks(s@),
{
    let mut n: usize = s.len();
    assert(s@.take(n as int) == s@);
    while n > 0 && (s[n - 1] == '\r' || s[n - 1] == '\n')
        invariant
            n <= s.len(),
            trim_line_breaks(s@) == trim_line_breaks(s@.take(n as int)),
        decreases n,
    {
        assert(s@.take(n as int).drop_last() == s@.take(n as int - 1));
        n = n - 1;
    }
    &s[0..n]
}

// Comparing.
/// Whether two texts are the same.
pub fn same(a: &[char], b: &[char]) -> (r: bool)
    ensures
        r == (a@ == b@),
{
    if a.len() != b.len() {
        return false;
    }
    for i in 0..a.len()
        invariant
            a.len() == b.len(),
            a@.take(i as int) == b@.take(i as int),
    {
        if a[i] != b[i] {
            return false;
        }
        assert(a@.take(i as int + 1) == a@.take(i as int).push(a@[i as int]));
        assert(b@.take(i as int + 1) == b@.take(i as int).push(b@[i as int]));
    }
    assert(a@.take(a@.len() as int) == a@);
    assert(b@.take(b@.len() as int) == b@);
    true
}

/// Whether a text is the given string.
pub fn is_text(a: &[char], b: &str) -> (r: bool)
    ensures
        r == (a@ == b@),
{
    same(a, chars_of(b).as_slice())
}

/// Whether two strings hold the same text.
pub fn same_str(a: &str, b: &str) -> (r: bool)
    ensures
        r == (a@ == b@),
{
    same(chars_of(a).as_slice(), chars_of(b).as_slice())
}

/// Whether a string is empty.
pub fn is_empty_str(s: &str) -> (r: bool)
    ensures
        r == (s@.len() == 0),
{
    chars_of(s).len() == 0
}

/// `s` starts with `p`.
pub open spec fn starts_with(s: Seq<char>, p: Seq<char>) -> bool {
    p.len() <= s.len() && s.take(p.len() as int) == p
}

/// What follows `p` in a text that starts with `p`.
pub open spec fn strip_prefix(s: Seq<char>, p: Seq<char>) -> Option<Seq<char>> {
    if starts_with(s, p) {
        Some(s.skip(p.len() as int))
    } else {
        None
    }
}

/// Whether `s` starts with `p`.
pub fn has_prefix(s: &[char], p: &str) -> (r: bool)
    ensures
        r == starts_with(s@, p@),
{
    let p = chars_of(p);
    p.len() <= s.len() && same(&s[0..p.len()], p.as_slice())
}

/// What follows `p` in `s`, if `s` starts with `p`.
pub fn strip_prefix_slice<'a>(s: &'a [char], p: &str) -> (r: Option<&'a [char]>)
    ensures
        match r {
            Some(rest) => strip_prefix(s@, p@) == Some(rest@),
            None => strip_prefix(s@, p@) is None,
        },
{
    let p = chars_of(p);
    if p.len() <= s.len() && same(&s[0..p.len()], p.as_slice()) {
        Some(&s[p.len()..s.len()])
    } else {
        None
    }
}

/// The order of texts by code points, as `str` compares them: `a` comes before `b`.
pub open spec fn comes_before(a: Seq<char>, b: Seq<char>) -> bool
    decreases a.len(),
{
    if b.len() == 0 {
        false
    } else if a.len() == 0 {
        true
    } else if a[0] == b[0] {
        comes_before(a.skip(1), b.skip(1))
    } else {
        a[0] < b[0]
    }
}

/// The order of texts is strict and total: of two texts, they are the same or one comes
/// before the other, and no two of these hold.
pub proof fn order_is_total(a: Seq<char>, b: Seq<char>)
    ensures
        a == b || comes_before(a, b) || comes_before(b, a),
        a == b ==> !comes_before(a, b),
        !(comes_before(a, b) && comes_before(b, a)),
    decreases a.len(),
{
    if a.len() > 0 && b.len() > 0 && a[0] == b[0] {
        order_is_total(a.skip(1), b.skip(1));
        if a.skip(1) == b.skip(1) {
            assert(a == seq![a[0]] + a.skip(1));
            assert(b == seq![b[0]] + b.skip(1));
        }
    } else if a.len() == 0 && b.len() == 0 {
        assert(a == b);
    }
}

/// The order of texts is transitive.
pub proof fn order_is_transitive(a: Seq<char>, b: Seq<char>, c: Seq<char>)
    requires
        comes_before(a, b),
        comes_before(b, c),
    ensures
        comes_before(a, c),
    decreases a.len(),
{
    if a.len() > 0 && b.len() > 0 && c.len() > 0 && a[0] == b[0] && b[0] == c[0] {
        order_is_transitive(a.skip(1), b.skip(1), c.skip(1));
    }
}

/// Whether `a` comes before `b` in the order of code points.
pub fn precedes(a: &[char], b: &[char]) -> (r: bool)
    ensures
        r == comes_before(a@, b@),
{
    let mut i: usize = 0;
    assert(a@.skip(0) == a@);
    assert(b@.skip(0) == b@);
    while i < a.len() && i < b.len()
        invariant
            i <= a.len(),
            i <= b.len(),
            comes_before(a@, b@) == comes_before(a@.skip(i as int), b@.skip(i as int)),
        decreases a.len() - i,
    {
        if a[i] != b[i] {
            return a[i] < b[i];
        }
        assert(a@.skip(i as int).skip(1) == a@.skip(i as int + 1));
        assert(b@.skip(i as int).skip(1) == b@.skip(i as int + 1));
        i = i + 1;
    }
    i < b.len()
}

// Searching.
/// `n` stands in `s` at position `i`.
pub open spec fn occurs_at(s: Seq<char>, n: Seq<char>, i: int) -> bool {
    0 <= i && i + n.len() <= s.len() && s.subrange(i, i + n.len()) == n
}

/// `n` stands somewhere in `s`.
pub open spec fn contains(s: Seq<char>, n: Seq<char>) -> bool {
    exists|i: int| occurs_at(s, n, i)
}

/// The first position from `from` on at which `n` stands in `s`.
pub open spec fn find_from(s: Seq<char>, n: Seq<char>, from: int) -> Option<int>
    decreases s.len() + 1 - from,
{
    if from < 0 || from + n.len() > s.len() {
        None
    } else if occurs_at(s, n, from) {
        Some(from)
    } else {
        find_from(s, n, from + 1)
    }
}

/// The first position at which `n` stands in `s`.
pub open spec fn find(s: Seq<char>, n: Seq<char>) -> Option<int> {
    find_from(s, n, 0)
}

/// What `find_from` returns is an occurrence, and there is none before it.
pub proof fn lemma_find_from(s: Seq<char>, n: Seq<char>, from: int)
    requires
        0 <= from,
    ensures
        match find_from(s, n, from) {
            Some(i) => from <= i && occurs_at(s, n, i) && forall|j: int|
                from <= j < i ==> !occurs_at(s, n, j),
            None => forall|j: int| from <= j ==> !occurs_at(s, n, j),
        },
    decreases s.len() + 1 - from,
{
    if from + n.len() > s.len() {
    } else if occurs_at(s, n, from) {
    } else {
        lemma_find_from(s, n, from + 1);
    }
}

/// An occurrence with none before it is the one that `find_from` returns.
pub proof fn lemma_find_from_is(s: Seq<char>, n: Seq<char>, from: int, at: int)
    requires
        0 <= from <= at,
        occurs_at(s, n, at),
        forall|j: int| from <= j < at ==> !occurs_at(s, n, j),
    ensures
        find_from(s, n, from) == Some(at),
{
    lemma_find_from(s, n, from);
}

/// The two parts of `s` around the first occurrence of `n`.
pub open spec fn split_once(s: Seq<char>, n: Seq<char>) -> Option<(Seq<char>, Seq<char>)> {
    match find(s, n) {
        Some(i) => Some((s.take(i), s.skip(i + n.len()))),
        None => None,
    }
}

/// Whether `n` stands in `s` at position `i`.
fn stands_at(s: &[char], n: &[char], i: usize) -> (r: bool)
    requires
        i + n.len() <= s.len(),
    ensures
        r == occurs_at(s@, n@, i as int),
{
    same(&s[i..i + n.len()], n)
}

/// The first position at which `n` stands in `s`.
pub fn find_slice(s: &[char], n: &[char]) -> (r: Option<usize>)
    ensures
        match r {
            Some(i) => find(s@, n@) == Some(i as int) && i + n.len() <= s.len(),
            None => find(s@, n@) is None,
        },
{
    let mut i: usize = 0;
    while i <= s.len() && n.len() <= s.len() - i
        invariant
            i <= s.len() + 1,
            find(s@, n@) == find_from(s@, n@, i as int),
        decreases s.len() + 1 - i,
    {
        if stands_at(s, n, i) {
            return Some(i);
        }
        if i == s.len() {
            assert(find_from(s@, n@, i + 1) is None);
            return None;
        }
        i = i + 1;
    }
    None
}

/// Whether `n` stands somewhere in `s`.
pub fn has(s: &[char], n: &[char]) -> (r: bool)
    ensures
        r == contains(s@, n@),
{
    proof {
        lemma_find_from(s@, n@, 0);
    }
    find_slice(s, n).is_some()
}

/// The two parts of `s` around the first occurrence of `n`.
pub fn split_once_slice<'a>(s: &'a [char], n: &str) -> (r: Option<(&'a [char], &'a [char])>)
    ensures
        match r {
            Some((a, b)) => split_once(s@, n@) == Some((a@, b@)),
            None => split_once(s@, n@) is None,
        },
{
    let n = chars_of(n);
    match find_slice(s, n.as_slice()) {
        Some(i) => Some((&s[0..i], &s[i + n.len()..s.len()])),
        None => None,
    }
}

/// `c` is among the characters of `s`.
pub open spec fn has_char(s: Seq<char>, c: char) -> bool {
    exists|i: int| 0 <= i < s.len() && s[i] == c
}

/// Whether `c` is among the characters of `s`.
pub fn holds_char(s: &[char], c: char) -> (r: bool)
    ensures
        r == has_char(s@, c),
{
    for i in 0..s.len()
        invariant
            forall|j: int| 0 <= j < i ==> s@[j] != c,
    {
        if s[i] == c {
            return true;
        }
    }
    false
}

// Splitting.
/// The position of the first `c` in `s`, or the length of `s` if there is none.
pub open spec fn first_index(s: Seq<char>, c: char) -> int
    decreases s.len(),
{
    if s.len() == 0 || s[0] == c {
        0
    } else {
        1 + first_index(s.skip(1), c)
    }
}

/// `first_index` is the end of the longest prefix without `c`.
pub proof fn lemma_first_index(s: Seq<char>, c: char)
    ensures
        0 <= first_index(s, c) <= s.len(),
        forall|i: int| 0 <= i < first_index(s, c) ==> s[i] != c,
        first_index(s, c) < s.len() ==> s[first_index(s, c)] == c,
    decreases s.len(),
{
    if s.len() == 0 || s[0] == c {
    } else {
        let t = s.skip(1);
        lemma_first_index(t, c);
        assert forall|i: int| 0 <= i < first_index(s, c) implies s[i] != c by {
            if i > 0 {
                assert(s[i] == t[i - 1]);
            }
        }
    }
}

/// A position of `c` with none before it is `first_index`.
pub proof fn lemma_first_index_is(s: Seq<char>, c: char, at: int)
    requires
        0 <= at <= s.len(),
        forall|i: int| 0 <= i < at ==> s[i] != c,
        at < s.len() ==> s[at] == c,
    ensures
        first_index(s, c) == at,
{
    lemma_first_index(s, c);
}

/// The position of the first `c` in `s`, or the length of `s`.
fn index_of_char(s: &[char], c: char) -> (r: usize)
    ensures
        r == first_index(s@, c),
        r <= s.len(),
{
    let mut i: usize = 0;
    while i < s.len() && s[i] != c
        invariant
            i <= s.len(),
            forall|j: int| 0 <= j < i ==> s@[j] != c,
        decreases s.len() - i,
    {
        i = i + 1;
    }
    proof {
        lemma_first_index_is(s@, c, i as int);
    }
    i
}

/// The parts of `s` between the copies of `c`.
pub open spec fn split(s: Seq<char>, c: char) -> Seq<Seq<char>>
    decreases s.len(),
{
    let i = first_index(s, c);
    if 0 <= i < s.len() {
        seq![s.take(i)] + split(s.skip(i + 1), c)
    } else {
        seq![s]
    }
}

/// The part in front of the first `c` is the first part.
pub proof fn lemma_split_front(a: Seq<char>, c: char, b: Seq<char>)
    requires
        !has_char(a, c),
    ensures
        split(a + seq![c] + b, c) == seq![a] + split(b, c),
{
    let s = a + seq![c] + b;
    assert forall|i: int| 0 <= i < a.len() implies s[i] != c by {
        assert(a[i] == s[i]);
    }
    lemma_first_index_is(s, c, a.len() as int);
    assert(s.take(a.len() as int) == a);
    assert(s.skip(a.len() as int + 1) == b);
}

/// A text without `c` is its only part.
pub proof fn lemma_split_whole(a: Seq<char>, c: char)
    requires
        !has_char(a, c),
    ensures
        split(a, c) == seq![a],
{
    assert forall|i: int| 0 <= i < a.len() implies a[i] != c by {
        assert(a[i] == a[i]);
    }
    lemma_first_index_is(a, c, a.len() as int);
}

/// The parts of `s` between the copies of `c`.
pub fn split_slice(s: &[char], c: char) -> (r: Vec<&[char]>)
    ensures
        views(r@) == split(s@, c),
        r.len() > 0,
{
    let mut out: Vec<&[char]> = Vec::new();
    let mut rest: &[char] = s;
    assert(views(out@) + split(s@, c) == split(s@, c));
    loop
        invariant
            split(s@, c) == views(out@) + split(rest@, c),
        decreases rest.len(),
    {
        let i = index_of_char(rest, c);
        let ghost before = out@;
        if i == rest.len() {
            out.push(rest);
            assert(views(out@) == views(before) + seq![rest@]);
            return out;
        }
        let head = &rest[0..i];
        out.push(head);
        assert(views(out@) == views(before) + seq![rest@.take(i as int)]);
        let next = &rest[i + 1..rest.len()];
        assert(next@ == rest@.skip(i as int + 1));
        assert(views(before) + (seq![rest@.take(i as int)] + split(next@, c)) == (views(before)
            + seq![rest@.take(i as int)]) + split(next@, c));
        rest = next;
    }
}

/// `s` without one `\r` at its end.
pub open spec fn drop_cr(s: Seq<char>) -> Seq<char> {
    if s.len() > 0 && s.last() == '\r' {
        s.drop_last()
    } else {
        s
    }
}

/// The lines of `s`. A line ends with `\n` or `\r\n`; the last line may go without.
pub open spec fn lines(s: Seq<char>) -> Seq<Seq<char>>
    decreases s.len(),
{
    let i = first_index(s, '\n');
    if s.len() == 0 {
        seq![]
    } else if 0 <= i < s.len() {
        seq![drop_cr(s.take(i))] + lines(s.skip(i + 1))
    } else {
        seq![s]
    }
}

/// The lines of a text.
pub fn lines_slice(s: &[char]) -> (r: Vec<&[char]>)
    ensures
        views(r@) == lines(s@),
{
    let mut out: Vec<&[char]> = Vec::new();
    let mut rest: &[char] = s;
    assert(views(out@) + lines(s@) == lines(s@));
    while rest.len() > 0
        invariant
            lines(s@) == views(out@) + lines(rest@),
        decreases rest.len(),
    {
        let i = index_of_char(rest, '\n');
        let ghost before = out@;
        if i == rest.len() {
            out.push(rest);
            assert(views(out@) == views(before) + seq![rest@]);
            return out;
        }
        let mut head = &rest[0..i];
        assert(head@ == rest@.take(i as int));
        if i > 0 && head[i - 1] == '\r' {
            head = &rest[0..i - 1];
            assert(head@ == rest@.take(i as int).drop_last());
        }
        out.push(head);
        assert(views(out@) == views(before) + seq![drop_cr(rest@.take(i as int))]);
        let next = &rest[i + 1..rest.len()];
        assert(next@ == rest@.skip(i as int + 1));
        assert(views(before) + (seq![drop_cr(rest@.take(i as int))] + lines(next@)) == (views(
            before,
        ) + seq![drop_cr(rest@.take(i as int))]) + lines(next@));
        rest = next;
    }
    assert(views(out@) + lines(rest@) == views(out@));
    out
}

// Joining and replacing.
/// The parts with `sep` between each two of them.
pub open spec fn join(parts: Seq<Seq<char>>, sep: Seq<char>) -> Seq<char>
    decreases parts.len(),
{
    if parts.len() == 0 {
        seq![]
    } else if parts.len() == 1 {
        parts[0]
    } else {
        join(parts.drop_last(), sep) + sep + parts.last()
    }
}

/// The first part stands in front of the others.
pub proof fn lemma_join_front(parts: Seq<Seq<char>>, sep: Seq<char>)
    requires
        parts.len() >= 2,
    ensures
        join(parts, sep) == parts[0] + sep + join(parts.skip(1), sep),
    decreases parts.len(),
{
    if parts.len() == 2 {
        assert(join(parts.drop_last(), sep) == parts[0]);
        assert(join(parts.skip(1), sep) == parts[1]);
    } else {
        lemma_join_front(parts.drop_last(), sep);
        assert(parts.drop_last().skip(1) == parts.skip(1).drop_last());
        assert(parts.skip(1).last() == parts.last());
        let mid = join(parts.skip(1).drop_last(), sep);
        assert(parts[0] + sep + mid + sep + parts.last() == parts[0] + sep + (mid + sep
            + parts.last()));
    }
}

/// Two lists of parts are joined one behind the other.
pub proof fn lemma_join_append(a: Seq<Seq<char>>, b: Seq<Seq<char>>, sep: Seq<char>)
    requires
        a.len() > 0,
        b.len() > 0,
    ensures
        join(a + b, sep) == join(a, sep) + sep + join(b, sep),
    decreases b.len(),
{
    let all = a + b;
    assert(all.last() == b.last());
    if b.len() == 1 {
        assert(all.drop_last() == a);
        assert(join(b, sep) == b[0]);
    } else {
        assert(all.drop_last() == a + b.drop_last());
        lemma_join_append(a, b.drop_last(), sep);
        let x = join(a, sep);
        let y = join(b.drop_last(), sep);
        assert(x + sep + y + sep + b.last() == x + sep + (y + sep + b.last()));
    }
}

/// A character that is in neither part is not in the whole.
pub proof fn lemma_concat_absent(a: Seq<char>, b: Seq<char>, c: char)
    requires
        !has_char(a, c),
        !has_char(b, c),
    ensures
        !has_char(a + b, c),
{
    if has_char(a + b, c) {
        let i = choose|i: int| 0 <= i < (a + b).len() && (a + b)[i] == c;
        if i < a.len() {
            assert(a[i] == c);
        } else {
            assert(b[i - a.len()] == c);
        }
    }
}

/// A character that is in no part and not in the separator is not in the whole.
pub proof fn lemma_join_absent(parts: Seq<Seq<char>>, sep: Seq<char>, c: char)
    requires
        !has_char(sep, c),
        forall|i: int| 0 <= i < parts.len() ==> !has_char(#[trigger] parts[i], c),
    ensures
        !has_char(join(parts, sep), c),
    decreases parts.len(),
{
    if parts.len() == 0 {
    } else if parts.len() == 1 {
        assert(!has_char(parts[0], c));
    } else {
        let rest = parts.drop_last();
        assert forall|i: int| 0 <= i < rest.len() implies !has_char(#[trigger] rest[i], c) by {
            assert(rest[i] == parts[i]);
        }
        lemma_join_absent(rest, sep, c);
        assert(!has_char(parts[parts.len() - 1], c));
        lemma_concat_absent(join(rest, sep), sep, c);
        lemma_concat_absent(join(rest, sep) + sep, parts.last(), c);
    }
}

/// Parts that were joined by a character that is in none of them are read back.
pub proof fn split_of_join(parts: Seq<Seq<char>>, c: char)
    requires
        parts.len() > 0,
        forall|i: int| 0 <= i < parts.len() ==> !has_char(#[trigger] parts[i], c),
    ensures
        split(join(parts, seq![c]), c) == parts,
    decreases parts.len(),
{
    assert(!has_char(parts[0], c));
    if parts.len() == 1 {
        lemma_split_whole(parts[0], c);
        assert(seq![parts[0]] == parts);
    } else {
        let rest = parts.skip(1);
        assert forall|i: int| 0 <= i < rest.len() implies !has_char(#[trigger] rest[i], c) by {
            assert(rest[i] == parts[i + 1]);
        }
        split_of_join(rest, c);
        lemma_join_front(parts, seq![c]);
        lemma_split_front(parts[0], c, join(rest, seq![c]));
        assert(seq![parts[0]] + rest == parts);
    }
}

/// A line that can be followed by a line break and read back: it holds none, and does
/// not end with `\r`.
pub open spec fn plain_line(s: Seq<char>) -> bool {
    !has_char(s, '\n') && (s.len() > 0 ==> s.last() != '\r')
}

/// A line in front of a line break is the first line.
pub proof fn lemma_lines_front(a: Seq<char>, b: Seq<char>)
    requires
        plain_line(a),
    ensures
        lines(a + seq!['\n'] + b) == seq![a] + lines(b),
{
    let s = a + seq!['\n'] + b;
    assert forall|i: int| 0 <= i < a.len() implies s[i] != '\n' by {
        assert(a[i] == s[i]);
    }
    lemma_first_index_is(s, '\n', a.len() as int);
    assert(s.take(a.len() as int) == a);
    assert(s.skip(a.len() as int + 1) == b);
}

/// Lines that were joined are read back as they were, with or without a line break
/// behind the last one.
pub proof fn lines_of_join(parts: Seq<Seq<char>>)
    requires
        forall|i: int| 0 <= i < parts.len() ==> plain_line(#[trigger] parts[i]),
    ensures
        parts.len() > 0 ==> lines(join(parts, seq!['\n']) + seq!['\n']) == parts,
        parts.len() > 0 && parts.last().len() > 0 ==> lines(join(parts, seq!['\n'])) == parts,
        parts.len() == 0 ==> lines(join(parts, seq!['\n'])) == parts,
    decreases parts.len(),
{
    let sep = seq!['\n'];
    if parts.len() == 0 {
        assert(lines(Seq::<char>::empty()) == parts);
    } else if parts.len() == 1 {
        let a = parts[0];
        assert(parts == seq![a]);
        lemma_lines_front(a, Seq::<char>::empty());
        assert(a + sep + Seq::<char>::empty() == a + sep);
        assert(lines(Seq::<char>::empty()) == Seq::<Seq<char>>::empty());
        assert(seq![a] + Seq::<Seq<char>>::empty() == parts);
        if a.len() > 0 {
            assert forall|i: int| 0 <= i < a.len() implies a[i] != '\n' by {
                assert(a[i] == a[i]);
            }
            lemma_first_index_is(a, '\n', a.len() as int);
        }
    } else {
        let rest = parts.skip(1);
        assert forall|i: int| 0 <= i < rest.len() implies plain_line(#[trigger] rest[i]) by {
            assert(rest[i] == parts[i + 1]);
        }
        lines_of_join(rest);
        lemma_join_front(parts, sep);
        lemma_lines_front(parts[0], join(rest, sep) + sep);
        lemma_lines_front(parts[0], join(rest, sep));
        assert(parts[0] + sep + join(rest, sep) + sep == parts[0] + sep + (join(rest, sep) + sep));
        assert(seq![parts[0]] + rest == parts);
    }
}

/// A joined text holds each of its parts.
pub proof fn joined_holds_parts(parts: Seq<Seq<char>>, sep: Seq<char>, i: int)
    requires
        0 <= i < parts.len(),
    ensures
        contains(join(parts, sep), parts[i]),
    decreases parts.len(),
{
    let all = join(parts, sep);
    if parts.len() == 1 {
        assert(occurs_at(all, parts[i], 0)) by {
            assert(all.subrange(0, parts[i].len() as int) =~= parts[i]);
        }
    } else {
        let front = join(parts.drop_last(), sep);
        if i == parts.len() - 1 {
            let at = (front + sep).len() as int;
            assert(occurs_at(all, parts[i], at)) by {
                assert(all.subrange(at, at + parts[i].len()) =~= parts[i]);
            }
        } else {
            joined_holds_parts(parts.drop_last(), sep, i);
            let at = choose|at: int| occurs_at(front, parts.drop_last()[i], at);
            assert(occurs_at(all, parts[i], at)) by {
                assert(all.subrange(at, at + parts[i].len()) =~= front.subrange(
                    at,
                    at + parts[i].len(),
                ));
            }
        }
    }
}

/// The strings with `sep` between each two of them.
pub fn join_strings(parts: &Vec<String>, sep: &str) -> (r: String)
    ensures
        r@ == join(string_views(parts@), sep@),
{
    let mut out = String::new();
    let ghost all = string_views(parts@);
    for i in 0..parts.len()
        invariant
            all == string_views(parts@),
            out@ == join(all.take(i as int), sep@),
    {
        if i > 0 {
            out.append(sep);
        }
        out.append(parts[i].as_str());
        assert(all.take(i as int + 1).drop_last() == all.take(i as int));
        if i == 0 {
            assert(out@ == parts@[0]@);
        }
    }
    assert(all.take(all.len() as int) == all);
    out
}

/// `s` with `with` in place of every `c`.
pub open spec fn replace_char(s: Seq<char>, c: char, with: Seq<char>) -> Seq<char>
    decreases s.len(),
{
    if s.len() == 0 {
        s
    } else {
        replace_char(s.drop_last(), c, with) + (if s.last() == c {
            with
        } else {
            seq![s.last()]
        })
    }
}

/// `s` with `with` in place of every `c`.
pub fn replace_char_slice(s: &[char], c: char, with: &str) -> (r: String)
    ensures
        r@ == replace_char(s@, c, with@),
{
    let mut out = String::new();
    for i in 0..s.len()
        invariant
            out@ == replace_char(s@.take(i as int), c, with@),
    {
        let ghost before = out@;
        assert(s@.take(i as int + 1).drop_last() == s@.take(i as int));
        if s[i] == c {
            out.append(with);
        } else {
            out.push(s[i]);
            assert(out@ == before + seq![s@[i as int]]);
        }
    }
    assert(s@.take(s@.len() as int) == s@);
    out
}

/// `n` copies of `c`.
pub open spec fn repeat(c: char, n: int) -> Seq<char> {
    Seq::new(n as nat, |i: int| c)
}

/// `n` copies of `c`.
pub fn repeated(c: char, n: usize) -> (r: String)
    ensures
        r@ == repeat(c, n as int),
{
    let mut out = String::new();
    for i in 0..n
        invariant
            out@ == repeat(c, i as int),
    {
        out.push(c);
    }
    out
}

/// Of two texts the one with the lower character at the first place where they differ comes
/// first, and a text comes before those that go on behind it.
pub proof fn first_difference_decides(
    common: Seq<char>,
    a: char,
    rest_a: Seq<char>,
    b: char,
    rest_b: Seq<char>,
)
    ensures
        a != b ==> comes_before(common + seq![a] + rest_a, common + seq![b] + rest_b) == (a < b),
        comes_before(common, common + seq![b] + rest_b),
    decreases common.len(),
{
    let x = common + seq![a] + rest_a;
    let y = common + seq![b] + rest_b;
    if common.len() == 0 {
        assert(x[0] == a && y[0] == b);
    } else {
        let less = common.skip(1);
        first_difference_decides(less, a, rest_a, b, rest_b);
        assert(x.skip(1) =~= less + seq![a] + rest_a);
        assert(y.skip(1) =~= less + seq![b] + rest_b);
        assert(x[0] == common[0] && y[0] == common[0]);
    }
}

/// Dropping line breaks drops the line breaks at the end and nothing else.
pub proof fn only_line_breaks_are_dropped(s: Seq<char>)
    ensures
        ({
            let t = trim_line_breaks(s);
            &&& t.len() <= s.len()
            &&& t == s.take(t.len() as int)
            &&& forall|i: int| t.len() <= i < s.len() ==> #[trigger] s[i] == '\n' || s[i] == '\r'
            &&& t.len() > 0 ==> t.last() != '\n' && t.last() != '\r'
        }),
    decreases s.len(),
{
    if s.len() > 0 && (s.last() == '\r' || s.last() == '\n') {
        let f = s.drop_last();
        only_line_breaks_are_dropped(f);
        let t = trim_line_breaks(s);
        assert(f.take(t.len() as int) =~= s.take(t.len() as int));
        assert forall|i: int| t.len() <= i < s.len() implies #[trigger] s[i] == '\n' || s[i]
            == '\r' by {
            if i < f.len() {
                assert(f[i] == s[i]);
            }
        }
    } else {
        assert(s.take(s.len() as int) =~= s);
    }
}

} // verus!
