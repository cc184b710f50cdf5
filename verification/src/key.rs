//! Keys and mouse events, and how a pressed key is written as a shortcut.

use vstd::prelude::*;

use crate::text::join_strings;

verus! {

/// A key.
#[derive(Clone, Copy, Debug, PartialEq, Eq, Structural)]
pub enum KeyCode {
    Char(char),
    Enter,
    Esc,
    Backspace,
    Tab,
    BackTab,
    Delete,
    Left,
    Right,
    Up,
    Down,
    Home,
    End,
    PageUp,
    PageDown,
    /// Any other key.
    Other,
}

/// The modifiers that are held.
#[derive(Clone, Copy, Debug, PartialEq, Eq, Structural)]
pub struct KeyModifiers {
    pub shift: bool,
    pub control: bool,
    pub alt: bool,
    pub command: bool,
    pub hyper: bool,
    pub meta: bool,
}

/// A key that was pressed.
#[derive(Clone, Copy, Debug, PartialEq, Eq, Structural)]
pub struct KeyEvent {
    pub code: KeyCode,
    pub modifiers: KeyModifiers,
}

/// What the mouse did.
#[derive(Clone, Copy, Debug, PartialEq, Eq, Structural)]
pub enum MouseEventKind {
    LeftDown,
    ScrollDown,
    ScrollUp,
    /// Anything else.
    Other,
}

/// What the mouse did, and where.
#[derive(Clone, Copy, Debug, PartialEq, Eq, Structural)]
pub struct MouseEvent {
    pub kind: MouseEventKind,
    pub column: u16,
    pub row: u16,
}

impl KeyModifiers {
    /// No modifier.
    pub fn none() -> (r: Self)
        ensures
            r == (KeyModifiers {
                shift: false,
                control: false,
                alt: false,
                command: false,
                hyper: false,
                meta: false,
            }),
    {
        KeyModifiers {
            shift: false,
            control: false,
            alt: false,
            command: false,
            hyper: false,
            meta: false,
        }
    }
}

/// A modifier other than shift is held.
pub open spec fn commanding(modifiers: KeyModifiers) -> bool {
    modifiers.control || modifiers.alt || modifiers.command || modifiers.hyper || modifiers.meta
}

/// Whether a key with these modifiers types its character.
pub fn is_text_input(modifiers: KeyModifiers) -> (r: bool)
    ensures
        r == !commanding(modifiers),
{
    !(modifiers.control || modifiers.alt || modifiers.command || modifiers.hyper || modifiers.meta)
}

/// The character that names a key: lower case, and unshifted.
pub open spec fn key_char(c: char) -> Option<char> {
    if 'a' <= c && c <= 'z' || '0' <= c && c <= '9' {
        Some(c)
    } else if 'A' <= c && c <= 'Z' {
        Some(crate::text::ascii_lower(c))
    } else if c == '`' || c == '~' {
        Some('`')
    } else if c == '-' || c == '_' {
        Some('-')
    } else if c == '=' || c == '+' {
        Some('=')
    } else if c == '[' || c == '{' {
        Some('[')
    } else if c == ']' || c == '}' {
        Some(']')
    } else if c == '\\' || c == '|' {
        Some('\\')
    } else if c == ';' || c == ':' {
        Some(';')
    } else if c == '\'' || c == '"' {
        Some('\'')
    } else if c == ',' || c == '<' {
        Some(',')
    } else if c == '.' || c == '>' {
        Some('.')
    } else if c == '/' || c == '?' {
        Some('/')
    } else {
        None
    }
}

/// The name of a key in a shortcut.
pub open spec fn key_name(code: KeyCode) -> Option<Seq<char>> {
    match code {
        KeyCode::Char(c) => if c == ' ' {
            Some("space"@)
        } else {
            match key_char(c) {
                Some(k) => Some(seq![k]),
                None => None,
            }
        },
        KeyCode::Enter => Some("enter"@),
        KeyCode::Tab => Some("tab"@),
        KeyCode::BackTab => Some("tab"@),
        KeyCode::Esc => Some("esc"@),
        KeyCode::Backspace => Some("backspace"@),
        KeyCode::Delete => Some("delete"@),
        KeyCode::Left => Some("left"@),
        KeyCode::Right => Some("right"@),
        KeyCode::Up => Some("up"@),
        KeyCode::Down => Some("down"@),
        _ => None,
    }
}

/// The modifiers of a shortcut, in the order in which they are written.
pub open spec fn modifier_names(modifiers: KeyModifiers) -> Seq<Seq<char>> {
    (if modifiers.command {
        seq!["cmd"@]
    } else {
        seq![]
    }) + (if modifiers.control {
        seq!["ctrl"@]
    } else {
        seq![]
    }) + (if modifiers.alt {
        seq!["alt"@]
    } else {
        seq![]
    }) + (if modifiers.shift {
        seq!["shift"@]
    } else {
        seq![]
    })
}

/// The shortcut that a pressed key stands for. A key that types its character stands for
/// none.
pub open spec fn shortcut_of_key(key: KeyEvent) -> Option<Seq<char>> {
    if !commanding(key.modifiers) && key.code is Char {
        None
    } else {
        match key_name(key.code) {
            Some(name) => Some(
                crate::text::join(modifier_names(key.modifiers).push(name), "+"@),
            ),
            None => None,
        }
    }
}

/// A character that some key with a name types: a printable ASCII character that is no
/// shifted digit.
pub open spec fn nameable(c: char) -> bool {
    ' ' <= c && c <= '~' && c != '!' && c != '@' && c != '#' && c != '$' && c != '%' && c != '^'
        && c != '&' && c != '*' && c != '(' && c != ')'
}

/// A character has a name exactly if it is nameable. A name is not empty, and all in
/// lower case; that of a letter is the letter in lower case, and to name a name changes
/// nothing.
pub proof fn key_names_are_lower_case(code: KeyCode)
    ensures
        match code {
            KeyCode::Char(c) => key_name(code) is Some <==> nameable(c),
            _ => true,
        },
        match key_name(code) {
            Some(name) => {
                &&& name.len() > 0
                &&& crate::text::all_ascii(name)
                &&& name.map_values(|c: char| crate::text::ascii_lower(c)) == name
            },
            None => true,
        },
        match code {
            KeyCode::Char(c) => match key_char(c) {
                Some(k) => key_char(k) == Some(k) && (('A' <= c && c <= 'Z') ==> k
                    == crate::text::ascii_lower(c)),
                None => true,
            },
            _ => true,
        },
{
    reveal_strlit("space");
    reveal_strlit("enter");
    reveal_strlit("tab");
    reveal_strlit("esc");
    reveal_strlit("backspace");
    reveal_strlit("delete");
    reveal_strlit("left");
    reveal_strlit("right");
    reveal_strlit("up");
    reveal_strlit("down");
    if let Some(name) = key_name(code) {
        assert(name.map_values(|c: char| crate::text::ascii_lower(c)) =~= name);
    }
}

/// The character that names a key.
fn unshifted(c: char) -> (r: Option<char>)
    ensures
        r == key_char(c),
{
    if ('a' <= c && c <= 'z') || ('0' <= c && c <= '9') {
        Some(c)
    } else if 'A' <= c && c <= 'Z' {
        Some((c as u8 + 32) as char)
    } else if c == '`' || c == '~' {
        Some('`')
    } else if c == '-' || c == '_' {
        Some('-')
    } else if c == '=' || c == '+' {
        Some('=')
    } else if c == '[' || c == '{' {
        Some('[')
    } else if c == ']' || c == '}' {
        Some(']')
    } else if c == '\\' || c == '|' {
        Some('\\')
    } else if c == ';' || c == ':' {
        Some(';')
    } else if c == '\'' || c == '"' {
        Some('\'')
    } else if c == ',' || c == '<' {
        Some(',')
    } else if c == '.' || c == '>' {
        Some('.')
    } else if c == '/' || c == '?' {
        Some('/')
    } else {
        None
    }
}

/// The name of the key that types a character.
pub fn shortcut_key_name_for_char(c: char) -> (r: Option<String>)
    ensures
        crate::text::opt_view(r) == key_name(KeyCode::Char(c)),
{
    if c == ' ' {
        return Some("space".to_string());
    }
    match unshifted(c) {
        Some(k) => {
            let mut out = String::new();
            out.push(k);
            assert(out@ == seq![k]);
            Some(out)
        },
        None => None,
    }
}

/// The name of a key in a shortcut.
pub fn shortcut_key_name(code: KeyCode) -> (r: Option<String>)
    ensures
        crate::text::opt_view(r) == key_name(code),
{
    match code {
        KeyCode::Char(c) => shortcut_key_name_for_char(c),
        KeyCode::Enter => Some("enter".to_string()),
        KeyCode::Tab => Some("tab".to_string()),
        KeyCode::BackTab => Some("tab".to_string()),
        KeyCode::Esc => Some("esc".to_string()),
        KeyCode::Backspace => Some("backspace".to_string()),
        KeyCode::Delete => Some("delete".to_string()),
        KeyCode::Left => Some("left".to_string()),
        KeyCode::Right => Some("right".to_string()),
        KeyCode::Up => Some("up".to_string()),
        KeyCode::Down => Some("down".to_string()),
        _ => None,
    }
}

/// The shortcut that a pressed key stands for.
pub fn shortcut_string_for_key_event(key: KeyEvent) -> (r: Option<String>)
    ensures
        crate::text::opt_view(r) == shortcut_of_key(key),
{
    let named = match key.code {
        KeyCode::Char(_) => false,
        _ => true,
    };
    if is_text_input(key.modifiers) && !named {
        return None;
    }
    let name = shortcut_key_name(key.code)?;
    let mut parts: Vec<String> = Vec::new();
    if key.modifiers.command {
        parts.push("cmd".to_string());
    }
    if key.modifiers.control {
        parts.push("ctrl".to_string());
    }
    if key.modifiers.alt {
        parts.push("alt".to_string());
    }
    if key.modifiers.shift {
        parts.push("shift".to_string());
    }
    assert(crate::text::string_views(parts@) == modifier_names(key.modifiers));
    let ghost before = parts@;
    let ghost text = name@;
    parts.push(name);
    assert(crate::text::string_views(parts@) == crate::text::string_views(before).push(text));
    Some(join_strings(&parts, "+"))
}

/// A shortcut names the modifiers that were held, each once and no other, in the order of
/// `cmd`, `ctrl`, `alt` and `shift`, and then the key.
pub proof fn shortcuts_name_what_was_pressed(key: KeyEvent)
    requires
        shortcut_of_key(key) is Some,
    ensures
        ({
            let parts = crate::text::split(shortcut_of_key(key)->0, '+');
            let held = parts.drop_last();
            &&& key_name(key.code) == Some(parts.last())
            &&& held.contains("cmd"@) <==> key.modifiers.command
            &&& held.contains("ctrl"@) <==> key.modifiers.control
            &&& held.contains("alt"@) <==> key.modifiers.alt
            &&& held.contains("shift"@) <==> key.modifiers.shift
            &&& held.no_duplicates()
            &&& forall|i: int|
                0 <= i < held.len() ==> #[trigger] held[i] == "cmd"@ || held[i] == "ctrl"@ || held[i]
                    == "alt"@ || held[i] == "shift"@
            &&& forall|i: int, j: int|
                0 <= i < j < held.len() ==> #[trigger] held[j] != "cmd"@ && #[trigger] held[i]
                    != "shift"@ && (held[i] == "alt"@ ==> held[j] == "shift"@)
        }),
{
    reveal_strlit("cmd");
    reveal_strlit("ctrl");
    reveal_strlit("alt");
    reveal_strlit("shift");
    reveal_strlit("+");
    reveal_strlit("space");
    reveal_strlit("enter");
    reveal_strlit("tab");
    reveal_strlit("esc");
    reveal_strlit("backspace");
    reveal_strlit("delete");
    reveal_strlit("left");
    reveal_strlit("right");
    reveal_strlit("up");
    reveal_strlit("down");
    let name = key_name(key.code)->0;
    let m = key.modifiers;
    let names = modifier_names(m);
    let all = names.push(name);
    assert("+"@ =~= seq!['+']);
    assert(!crate::text::has_char(name, '+'));
    lemma_modifier_names(m);
    assert forall|i: int| 0 <= i < all.len() implies !crate::text::has_char(
        #[trigger] all[i],
        '+',
    ) by {
        if i < names.len() {
            assert(names.contains(names[i]));
        }
    }
    crate::text::split_of_join(all, '+');
    assert(all.drop_last() =~= names);
}

/// The names of modifiers.
proof fn lemma_modifier_names(m: KeyModifiers)
    ensures
        ({
            let names = modifier_names(m);
            &&& names.contains("cmd"@) <==> m.command
            &&& names.contains("ctrl"@) <==> m.control
            &&& names.contains("alt"@) <==> m.alt
            &&& names.contains("shift"@) <==> m.shift
            &&& names.no_duplicates()
            &&& forall|i: int|
                0 <= i < names.len() ==> #[trigger] names[i] == "cmd"@ || names[i] == "ctrl"@
                    || names[i] == "alt"@ || names[i] == "shift"@
            &&& forall|i: int|
                0 <= i < names.len() ==> !crate::text::has_char(#[trigger] names[i], '+')
            &&& forall|i: int, j: int|
                0 <= i < j < names.len() ==> #[trigger] names[j] != "cmd"@ && #[trigger] names[i]
                    != "shift"@ && (names[i] == "alt"@ ==> names[j] == "shift"@)
        }),
{
    reveal_strlit("cmd");
    reveal_strlit("ctrl");
    reveal_strlit("alt");
    reveal_strlit("shift");
    let names = modifier_names(m);
    let a: int = if m.command {
        1
    } else {
        0
    };
    let b: int = if m.control {
        1
    } else {
        0
    };
    let c: int = if m.alt {
        1
    } else {
        0
    };
    assert("cmd"@.len() == 3 && "ctrl"@.len() == 4 && "alt"@.len() == 3 && "shift"@.len() == 5);
    assert("cmd"@[0] == 'c' && "alt"@[0] == 'a');
    assert(m.command ==> names[0] == "cmd"@);
    assert(m.control ==> names[a] == "ctrl"@);
    assert(m.alt ==> names[a + b] == "alt"@);
    assert(m.shift ==> names[a + b + c] == "shift"@);
}

/// Two keys that type other characters have other names, unless they are the two
/// characters of one key.
pub proof fn keys_are_told_apart(a: char, b: char)
    requires
        key_name(KeyCode::Char(a)) is Some,
        key_name(KeyCode::Char(a)) == key_name(KeyCode::Char(b)),
    ensures
        a == b || crate::text::ascii_lower(a) == crate::text::ascii_lower(b) || {
            let pair = |x: char, y: char| (a == x && b == y) || (a == y && b == x);
            ||| pair('`', '~')
            ||| pair('-', '_')
            ||| pair('=', '+')
            ||| pair('[', '{')
            ||| pair(']', '}')
            ||| pair('\\', '|')
            ||| pair(';', ':')
            ||| pair('\'', '"')
            ||| pair(',', '<')
            ||| pair('.', '>')
            ||| pair('/', '?')
        },
{
    reveal_strlit("space");
    let x = key_name(KeyCode::Char(a))->0;
    let y = key_name(KeyCode::Char(b))->0;
    let low = |c: char|
        'A' <= c && c <= 'Z' ==> 'a' <= crate::text::ascii_lower(c) && crate::text::ascii_lower(c)
            <= 'z';
    assert(low(a) && low(b));
    if a == ' ' || b == ' ' {
        assert(x.len() == y.len());
    } else {
        assert(x[0] == key_char(a)->0 && y[0] == key_char(b)->0);
    }
}

} // verus!
