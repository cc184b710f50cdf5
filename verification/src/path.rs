//! Paths as text.

use vstd::prelude::*;

use crate::text::{chars_of, is_text, split_slice, string_of};

verus! {

/// `name` below `base`, for a relative `name`.
pub open spec fn joined(base: Seq<char>, name: Seq<char>) -> Seq<char> {
    if base.len() == 0 || base.last() == '/' {
        base + name
    } else {
        base + "/"@ + name
    }
}

/// The names of a path: what stands between its slashes, without `.`.
pub open spec fn components(parts: Seq<Seq<char>>) -> Seq<Seq<char>>
    decreases parts.len(),
{
    if parts.len() == 0 {
        seq![]
    } else {
        let rest = components(parts.drop_last());
        if parts.last().len() == 0 || parts.last() == "."@ {
            rest
        } else {
            rest.push(parts.last())
        }
    }
}

/// An absolute path whose first two names are these.
pub open spec fn under(path: Seq<char>, first: Seq<char>, second: Seq<char>) -> bool {
    let names = components(crate::text::split(path, '/'));
    path.len() > 0 && path[0] == '/' && names.len() >= 2 && names[0] == first && names[1] == second
}

/// The part of a file name in front of its last dot and the part behind it, if there is
/// a dot behind its first character.
pub open spec fn stem_and_extension(name: Seq<char>) -> Option<(Seq<char>, Seq<char>)> {
    let at = last_dot(name);
    if at > 0 {
        Some((name.take(at), name.skip(at + 1)))
    } else {
        None
    }
}

/// The position of the last dot, or -1.
pub open spec fn last_dot(name: Seq<char>) -> int
    decreases name.len(),
{
    if name.len() == 0 {
        -1
    } else if name.last() == '.' {
        name.len() - 1
    } else {
        last_dot(name.drop_last())
    }
}

/// `name` below `base`.
pub fn join_path(base: &str, name: &str) -> (r: String)
    ensures
        r@ == joined(base@, name@),
{
    let chars = chars_of(base);
    let mut out = base.to_string();
    if chars.len() > 0 && chars[chars.len() - 1] != '/' {
        out.append("/");
    }
    out.append(name);
    out
}

/// Whether an absolute path starts with these two names.
pub fn lies_under(path: &str, first: &str, second: &str) -> (r: bool)
    ensures
        r == under(path@, first@, second@),
{
    let chars = chars_of(path);
    if chars.len() == 0 || chars[0] != '/' {
        return false;
    }
    let parts = split_slice(chars.as_slice(), '/');
    let ghost all = crate::text::views(parts@);
    let mut names: Vec<&[char]> = Vec::new();
    for i in 0..parts.len()
        invariant
            all == crate::text::views(parts@),
            crate::text::views(names@) == components(all.take(i as int)),
    {
        let ghost before = names@;
        assert(all.take(i as int + 1).drop_last() == all.take(i as int));
        assert(all.take(i as int + 1).last() == parts@[i as int]@);
        if parts[i].len() > 0 && !is_text(parts[i], ".") {
            names.push(parts[i]);
            assert(crate::text::views(names@) == crate::text::views(before).push(
                parts@[i as int]@,
            ));
        }
    }
    assert(all.take(all.len() as int) == all);
    assert(crate::text::views(names@).len() == names.len());
    names.len() >= 2 && is_text(names[0], first) && is_text(names[1], second)
}

/// The part of a file name in front of an extension, if it has that extension.
pub fn stem_with_extension(name: &str, extension: &str) -> (r: Option<String>)
    ensures
        crate::text::opt_view(r) == match stem_and_extension(name@) {
            Some((stem, ext)) => if ext == extension@ {
                Some(stem)
            } else {
                None
            },
            None => None,
        },
{
    let chars = chars_of(name);
    let mut n: usize = chars.len();
    assert(chars@.take(n as int) == chars@);
    while n > 0 && chars[n - 1] != '.'
        invariant
            chars@ == name@,
            n <= chars.len(),
            last_dot(name@) == last_dot(chars@.take(n as int)),
        decreases n,
    {
        assert(chars@.take(n as int).drop_last() == chars@.take(n as int - 1));
        n = n - 1;
    }
    if n <= 1 {
        return None;
    }
    assert(chars@.take(n as int).last() == '.');
    let all = chars.as_slice();
    if is_text(&all[n..all.len()], extension) {
        Some(string_of(&all[0..n - 1]))
    } else {
        None
    }
}

/// Where a symbolic link leads: its target, below the directory of the link where the
/// target is relative.
pub open spec fn link_target(directory: Option<Seq<char>>, target: Seq<char>) -> Seq<char> {
    if target.len() > 0 && target[0] == '/' {
        target
    } else {
        match directory {
            Some(directory) => joined(directory, target),
            None => joined("."@, target),
        }
    }
}

/// Where a symbolic link leads.
pub fn follow_link(directory: Option<&str>, target: &str) -> (r: String)
    ensures
        r@ == link_target(
            match directory {
                Some(directory) => Some(directory@),
                None => None,
            },
            target@,
        ),
{
    let chars = chars_of(target);
    if chars.len() > 0 && chars[0] == '/' {
        return target.to_string();
    }
    match directory {
        Some(directory) => join_path(directory, target),
        None => join_path(".", target),
    }
}

/// A joined path is the base, a slash and the name, with no slash added where the base
/// ends with one or is empty.
pub proof fn joined_paths_hold_both(base: Seq<char>, name: Seq<char>)
    ensures
        ({
            let path = joined(base, name);
            let at = path.len() - name.len();
            &&& path.take(base.len() as int) == base
            &&& path.skip(at) == name
            &&& base.len() > 0 ==> path[at - 1] == '/'
            &&& base.len() == 0 || base.last() == '/' ==> at == base.len()
            &&& base.len() <= at <= base.len() + 1
        }),
{
    reveal_strlit("/");
    let path = joined(base, name);
    let at = path.len() - name.len();
    assert(path.take(base.len() as int) =~= base);
    assert(path.skip(at) =~= name);
}

/// A file name is its stem, a dot and an extension without a dot, if there is a dot behind
/// its first character; and from the three of them it is split again.
pub proof fn extensions_are_split_off(name: Seq<char>, stem: Seq<char>, extension: Seq<char>)
    ensures
        match stem_and_extension(name) {
            Some((s, e)) => s.len() > 0 && name == s + seq!['.'] + e && !crate::text::has_char(
                e,
                '.',
            ),
            None => forall|i: int| 1 <= i < name.len() ==> #[trigger] name[i] != '.',
        },
        stem.len() > 0 && !crate::text::has_char(extension, '.') ==> stem_and_extension(
            stem + seq!['.'] + extension,
        ) == Some((stem, extension)),
{
    lemma_last_dot(name);
    let at = last_dot(name);
    if at > 0 {
        let s = name.take(at);
        let e = name.skip(at + 1);
        assert(name =~= s + seq!['.'] + e);
        if crate::text::has_char(e, '.') {
            let i = choose|i: int| 0 <= i < e.len() && e[i] == '.';
            assert(name[at + 1 + i] == '.');
        }
    }
    if stem.len() > 0 && !crate::text::has_char(extension, '.') {
        let whole = stem + seq!['.'] + extension;
        lemma_last_dot(whole);
        assert(whole[stem.len() as int] == '.');
        let k = last_dot(whole);
        if k > stem.len() {
            assert(extension[k - stem.len() - 1] == '.');
        }
        assert(whole.take(k) =~= stem);
        assert(whole.skip(k + 1) =~= extension);
    }
}

/// There is no dot behind the last one.
proof fn lemma_last_dot(name: Seq<char>)
    ensures
        -1 <= last_dot(name) < name.len(),
        last_dot(name) >= 0 ==> name[last_dot(name)] == '.',
        forall|i: int| last_dot(name) < i < name.len() ==> #[trigger] name[i] != '.',
    decreases name.len(),
{
    if name.len() > 0 && name.last() != '.' {
        let f = name.drop_last();
        lemma_last_dot(f);
        assert forall|i: int| last_dot(name) < i < name.len() implies #[trigger] name[i] != '.' by {
            if i < f.len() {
                assert(f[i] == name[i]);
            }
        }
    }
}

/// The names of two lists of parts are those of the first and those of the second.
proof fn lemma_components_add(a: Seq<Seq<char>>, b: Seq<Seq<char>>)
    ensures
        components(a + b) == components(a) + components(b),
    decreases b.len(),
{
    if b.len() == 0 {
        assert(a + b =~= a);
        assert(components(b) =~= Seq::<Seq<char>>::empty());
        assert(components(a) + components(b) =~= components(a));
    } else {
        lemma_components_add(a, b.drop_last());
        assert((a + b).drop_last() =~= a + b.drop_last());
        assert((a + b).last() == b.last());
        assert(components(a + b) =~= components(a) + components(b));
    }
}

/// A name that stands between two slashes: not empty, not `.`, and without a slash.
pub open spec fn plain_name(name: Seq<char>) -> bool {
    name.len() > 0 && name != seq!['.'] && !crate::text::has_char(name, '/')
}

/// An absolute path lies under the two names that it starts with, and under no others.
pub proof fn paths_lie_under_their_first_names(
    a: Seq<char>,
    b: Seq<char>,
    rest: Seq<char>,
    first: Seq<char>,
    second: Seq<char>,
)
    requires
        plain_name(a),
        plain_name(b),
    ensures
        under(seq!['/'] + a + seq!['/'] + b + seq!['/'] + rest, first, second) == (a == first && b
            == second),
        under(seq!['/'] + a + seq!['/'] + b, first, second) == (a == first && b == second),
        !under(a + seq!['/'] + b + seq!['/'] + rest, first, second),
{
    reveal_strlit(".");
    assert("."@ =~= seq!['.']);
    let sl = seq!['/'];
    let none = Seq::<char>::empty();
    let p = sl + a + sl + b + sl + rest;
    let q = sl + a + sl + b;
    assert(!crate::text::has_char(none, '/'));
    // With more behind the two names.
    assert(p =~= none + sl + (a + sl + (b + sl + rest)));
    crate::text::lemma_split_front(none, '/', a + sl + (b + sl + rest));
    crate::text::lemma_split_front(a, '/', b + sl + rest);
    crate::text::lemma_split_front(b, '/', rest);
    let tail = crate::text::split(rest, '/');
    let head = seq![none, a, b];
    assert(crate::text::split(p, '/') =~= head + tail);
    lemma_components_add(head, tail);
    // The two names alone.
    assert(q =~= none + sl + (a + sl + b));
    crate::text::lemma_split_front(none, '/', a + sl + b);
    crate::text::lemma_split_front(a, '/', b);
    crate::text::lemma_split_whole(b, '/');
    assert(crate::text::split(q, '/') =~= head);
    assert(head.drop_last() =~= seq![none, a]);
    assert(seq![none, a].drop_last() =~= seq![none]);
    assert(seq![none].drop_last() =~= Seq::<Seq<char>>::empty());
    assert(components(Seq::<Seq<char>>::empty()) =~= Seq::<Seq<char>>::empty());
    assert(components(seq![none]) =~= Seq::<Seq<char>>::empty());
    assert(components(seq![none, a]) =~= seq![a]);
    assert(components(head) =~= seq![a, b]);
    let names = components(head + tail);
    assert(names[0] == a && names[1] == b);
    // A relative path.
    let r = a + sl + b + sl + rest;
    assert(r[0] == a[0]);
    if r[0] == '/' {
        assert(crate::text::has_char(a, '/'));
    }
}

/// A link with an absolute target leads there; one with a relative target leads below the
/// directory of the link.
pub proof fn links_lead_to_their_targets(directory: Seq<char>, target: Seq<char>)
    ensures
        link_target(Some(directory), seq!['/'] + target) == seq!['/'] + target,
        link_target(None, seq!['/'] + target) == seq!['/'] + target,
        target.len() == 0 || target[0] != '/' ==> link_target(Some(directory + seq!['/']), target)
            == directory + seq!['/'] + target && link_target(None, target) == seq!['.', '/']
            + target,
{
    reveal_strlit(".");
    reveal_strlit("/");
    assert((seq!['/'] + target)[0] == '/');
    assert((directory + seq!['/']).last() == '/');
    assert("."@ + "/"@ + target =~= seq!['.', '/'] + target);
}

/// A path is split at each of its slashes.
proof fn lemma_split_add(a: Seq<char>, b: Seq<char>)
    ensures
        crate::text::split(a + seq!['/'] + b, '/') == crate::text::split(a, '/')
            + crate::text::split(b, '/'),
    decreases a.len(),
{
    let sl = seq!['/'];
    let at = crate::text::first_index(a, '/');
    crate::text::lemma_first_index(a, '/');
    if at < a.len() {
        let front = a.take(at);
        let rest = a.skip(at + 1);
        assert(!crate::text::has_char(front, '/')) by {
            if crate::text::has_char(front, '/') {
                let i = choose|i: int| 0 <= i < front.len() && front[i] == '/';
                assert(a[i] == '/');
            }
        }
        lemma_split_add(rest, b);
        assert(a + sl + b =~= front + sl + (rest + sl + b));
        crate::text::lemma_split_front(front, '/', rest + sl + b);
        assert(seq![front] + (crate::text::split(rest, '/') + crate::text::split(b, '/')) =~= (seq![
            front,
        ] + crate::text::split(rest, '/')) + crate::text::split(b, '/'));
    } else {
        assert(!crate::text::has_char(a, '/')) by {
            if crate::text::has_char(a, '/') {
                let i = choose|i: int| 0 <= i < a.len() && a[i] == '/';
            }
        }
        crate::text::lemma_split_front(a, '/', b);
        crate::text::lemma_split_whole(a, '/');
    }
}

/// A dot between two slashes, and a slash behind another, do not count.
pub proof fn dots_do_not_count(a: Seq<char>, b: Seq<char>)
    ensures
        ({
            let names = components(crate::text::split(a + seq!['/'] + b, '/'));
            &&& components(crate::text::split(a + seq!['/', '.', '/'] + b, '/')) == names
            &&& components(crate::text::split(a + seq!['/', '/'] + b, '/')) == names
        }),
{
    reveal_strlit(".");
    assert("."@ =~= seq!['.']);
    let sl = seq!['/'];
    let dot = seq!['.'];
    let none = Seq::<char>::empty();
    let x = crate::text::split(a, '/');
    let y = crate::text::split(b, '/');
    lemma_split_add(a, b);
    lemma_components_add(x, y);
    assert(!crate::text::has_char(dot, '/'));
    assert(!crate::text::has_char(none, '/'));
    // A dot.
    assert(a + seq!['/', '.', '/'] + b =~= a + sl + (dot + sl + b));
    lemma_split_add(a, dot + sl + b);
    crate::text::lemma_split_front(dot, '/', b);
    lemma_components_add(x, seq![dot] + y);
    lemma_components_add(seq![dot], y);
    assert(seq![dot].drop_last() =~= Seq::<Seq<char>>::empty());
    assert(components(Seq::<Seq<char>>::empty()) =~= Seq::<Seq<char>>::empty());
    assert(components(seq![dot]) =~= Seq::<Seq<char>>::empty());
    assert(components(seq![dot]) + components(y) =~= components(y));
    // Nothing.
    assert(a + seq!['/', '/'] + b =~= a + sl + (none + sl + b));
    lemma_split_add(a, none + sl + b);
    crate::text::lemma_split_front(none, '/', b);
    lemma_components_add(x, seq![none] + y);
    lemma_components_add(seq![none], y);
    assert(seq![none].drop_last() =~= Seq::<Seq<char>>::empty());
    assert(components(seq![none]) =~= Seq::<Seq<char>>::empty());
    assert(components(seq![none]) + components(y) =~= components(y));
}

} // verus!
