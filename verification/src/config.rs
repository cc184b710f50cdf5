//! Settings, and the files through which Ghostty learns of the shortcut.
//!
//! The shortcut lives in a file of its own. The user's Ghostty configuration refers to
//! that file by one managed line, which is added and taken out without touching any
//! other line.

use vstd::prelude::*;

use crate::error::Error;
use crate::text::{
    chars_of, holds_char, is_text, join_strings, lines_slice, same_str, split_once_slice,
    string_of, to_lowercase, trim_end_char_slice, trim_slice, trim_start_char_slice,
};

verus! {

/// The shortcut that is set up by default.
pub const DEFAULT_GHOSTTY_SHORTCUT: &'static str = "cmd+g";

/// Why a Ghostty configuration was left alone.
pub const GHOSTTY_EXTERNAL_CONFIG_REASON: &'static str =
    "Ghostty config appears to be managed externally (for example by Nix/Home Manager) and was not modified.";

// Settings.
/// The settings.
#[derive(Clone, Debug)]
pub struct Config {
    pub close_tab: bool,
    pub ghostty_shortcut: String,
}

/// What the settings are.
pub struct Settings {
    pub close_tab: bool,
    pub shortcut: Seq<char>,
}

impl View for Config {
    type V = Settings;

    open spec fn view(&self) -> Settings {
        Settings { close_tab: self.close_tab, shortcut: self.ghostty_shortcut@ }
    }
}

/// The settings before any are made.
pub open spec fn default_settings() -> Settings {
    Settings { close_tab: false, shortcut: "cmd+g"@ }
}

/// A shortcut setting that stands for no shortcut.
pub open spec fn shortcut_disabled(shortcut: Seq<char>) -> bool {
    let trimmed = crate::text::trim(shortcut);
    trimmed == "off"@ || trimmed == "none"@ || trimmed == "disabled"@
}

/// The form in which a shortcut is kept: without white space around it, in lower case,
/// and `off` where it is disabled. Blank ones, and those with characters that a setting
/// cannot hold, are refused.
pub open spec fn normalized_shortcut(shortcut: Seq<char>) -> Result<Seq<char>, Error> {
    kept_shortcut(crate::text::lowercase(crate::text::trim(shortcut)))
}

/// The form in which a shortcut in lower case is kept: `off` where it stands for none.
pub open spec fn kept_shortcut(lowered: Seq<char>) -> Result<Seq<char>, Error> {
    if lowered.len() == 0 {
        Err(Error::EmptyShortcut)
    } else if shortcut_disabled(lowered) {
        Ok("off"@)
    } else if crate::text::has_char(lowered, '=') || crate::text::has_char(lowered, '\n')
        || crate::text::has_char(lowered, '\r') {
        Err(Error::InvalidShortcut)
    } else {
        Ok(lowered)
    }
}

/// A text with its ASCII letters in lower case.
pub open spec fn ascii_lowered(s: Seq<char>) -> Seq<char> {
    s.map_values(|c: char| crate::text::ascii_lower(c))
}

/// The settings after one more line. Lines without `=`, and other keys, say nothing.
pub open spec fn with_setting(settings: Settings, line: Seq<char>) -> Result<Settings, Error> {
    match crate::text::split_once(line, "="@) {
        Some((key, value)) => {
            let key = crate::text::trim(key);
            let value = crate::text::trim(value);
            if key == "close_tab"@ {
                Ok(
                    Settings {
                        close_tab: value == "true"@ || value == "on"@,
                        shortcut: settings.shortcut,
                    },
                )
            } else if key == "ghostty_shortcut"@ && value.len() > 0 {
                match normalized_shortcut(value) {
                    Ok(shortcut) => Ok(Settings { close_tab: settings.close_tab, shortcut }),
                    Err(e) => Err(e),
                }
            } else {
                Ok(settings)
            }
        },
        None => Ok(settings),
    }
}

/// The settings that lines make.
pub open spec fn settings_of(lines: Seq<Seq<char>>) -> Result<Settings, Error>
    decreases lines.len(),
{
    if lines.len() == 0 {
        Ok(default_settings())
    } else {
        match settings_of(lines.drop_last()) {
            Ok(settings) => with_setting(settings, lines.last()),
            Err(e) => Err(e),
        }
    }
}

/// The settings of a file, or those by default where there is none.
pub open spec fn settings_of_file(raw: Option<Seq<char>>) -> Result<Settings, Error> {
    match raw {
        Some(text) => settings_of(crate::text::lines(text)),
        None => Ok(default_settings()),
    }
}

/// Settings as they are written.
pub open spec fn settings_text(settings: Settings) -> Seq<char> {
    (if settings.close_tab {
        "close_tab=true\n"@
    } else {
        "close_tab=false\n"@
    }) + "ghostty_shortcut="@ + settings.shortcut + "\n"@
}

/// Whether a shortcut setting stands for no shortcut.
pub fn is_shortcut_disabled(shortcut: &str) -> (r: bool)
    ensures
        r == shortcut_disabled(shortcut@),
{
    let chars = chars_of(shortcut);
    let trimmed = trim_slice(chars.as_slice());
    is_text(trimmed, "off") || is_text(trimmed, "none") || is_text(trimmed, "disabled")
}

/// Brings a shortcut in lower case into the form in which it is kept.
pub fn keep_lowered_shortcut(lowered: &str) -> (r: Result<String, Error>)
    ensures
        match r {
            Ok(s) => kept_shortcut(lowered@) == Ok::<Seq<char>, Error>(s@),
            Err(e) => kept_shortcut(lowered@) == Err::<Seq<char>, Error>(e),
        },
{
    let all = chars_of(lowered);
    if all.len() == 0 {
        return Err(Error::EmptyShortcut);
    }
    if is_shortcut_disabled(lowered) {
        return Ok("off".to_string());
    }
    if holds_char(all.as_slice(), '=') || holds_char(all.as_slice(), '\n') || holds_char(
        all.as_slice(),
        '\r',
    ) {
        return Err(Error::InvalidShortcut);
    }
    Ok(lowered.to_string())
}

/// Brings a shortcut into the form in which it is kept. One of ASCII characters is kept
/// with its letters in lower case.
pub fn normalize_ghostty_shortcut(shortcut: &str) -> (r: Result<String, Error>)
    ensures
        match r {
            Ok(s) => normalized_shortcut(shortcut@) == Ok::<Seq<char>, Error>(s@),
            Err(e) => normalized_shortcut(shortcut@) == Err::<Seq<char>, Error>(e),
        },
        crate::text::all_ascii(crate::text::trim(shortcut@)) ==> match r {
            Ok(s) => kept_shortcut(ascii_lowered(crate::text::trim(shortcut@))) == Ok::<
                Seq<char>,
                Error,
            >(s@),
            Err(e) => kept_shortcut(ascii_lowered(crate::text::trim(shortcut@))) == Err::<
                Seq<char>,
                Error,
            >(e),
        },
{
    let chars = chars_of(shortcut);
    let lowered = to_lowercase(string_of(trim_slice(chars.as_slice())).as_str());
    keep_lowered_shortcut(lowered.as_str())
}

/// A shortcut that was kept is kept as it is.
pub proof fn kept_shortcuts_stay(lowered: Seq<char>)
    ensures
        match kept_shortcut(lowered) {
            Ok(s) => kept_shortcut(s) == Ok::<Seq<char>, Error>(s),
            Err(_) => true,
        },
{
    reveal_strlit("off");
    crate::text::lemma_trimmed("off"@);
}

/// Normalizing a shortcut of ASCII characters twice changes nothing more: what is kept of
/// it has no white space around it, is in lower case, and is kept as it is.
pub proof fn normalizing_settles(shortcut: Seq<char>)
    requires
        crate::text::all_ascii(crate::text::trim(shortcut)),
    ensures
        match kept_shortcut(ascii_lowered(crate::text::trim(shortcut))) {
            Ok(s) => {
                &&& crate::text::trim(s) == s
                &&& crate::text::all_ascii(s)
                &&& ascii_lowered(s) == s
                &&& kept_shortcut(ascii_lowered(crate::text::trim(s))) == Ok::<Seq<char>, Error>(s)
            },
            Err(_) => true,
        },
{
    reveal_strlit("off");
    let t = crate::text::trim(shortcut);
    let lowered = ascii_lowered(t);
    crate::text::lemma_trim(shortcut);
    kept_shortcuts_stay(lowered);
    crate::text::lemma_trimmed("off"@);
    assert(ascii_lowered("off"@) =~= "off"@);
    assert(ascii_lowered(lowered) =~= lowered);
    if t.len() > 0 {
        assert(lowered[0] == crate::text::ascii_lower(t[0]));
        assert(lowered.last() == crate::text::ascii_lower(t.last()));
        assert((t[0] as u32) < 128 && (t[t.len() - 1] as u32) < 128);
        crate::text::lemma_trimmed(lowered);
    } else {
        assert(lowered.len() == 0);
    }
    assert forall|i: int| 0 <= i < lowered.len() implies (#[trigger] lowered[i] as u32) < 128 by {
        assert((t[i] as u32) < 128);
    }
}

impl Default for Config {
    fn default() -> (r: Self)
        ensures
            r@ == default_settings(),
    {
        Self { close_tab: false, ghostty_shortcut: "cmd+g".to_string() }
    }
}

impl Config {
    /// Reads the settings of a file, or those by default where there is none.
    pub fn parse(raw: Option<&str>) -> (r: Result<Self, Error>)
        ensures
            ({
                let settings = settings_of_file(
                    match raw {
                        Some(text) => Some(text@),
                        None => None,
                    },
                );
                match r {
                    Ok(config) => settings == Ok::<Settings, Error>(config@),
                    Err(e) => settings == Err::<Settings, Error>(e),
                }
            }),
    {
        match raw {
            None => Ok(Self::default()),
            Some(text) => {
                let chars = chars_of(text);
                let lines = lines_slice(chars.as_slice());
                let ghost all = crate::text::lines(text@);
                let mut config = Self::default();
                for i in 0..lines.len()
                    invariant
                        raw == Some(text),
                        all == crate::text::views(lines@),
                        all == crate::text::lines(text@),
                        settings_of(all.take(i as int)) == Ok::<Settings, Error>(config@),
                {
                    assert(all.take(i as int + 1).drop_last() == all.take(i as int));
                    assert(all.take(i as int + 1).last() == lines@[i as int]@);
                    if let Some((key, value)) = split_once_slice(lines[i], "=") {
                        let key = trim_slice(key);
                        let value = trim_slice(value);
                        if is_text(key, "close_tab") {
                            let on = is_text(value, "true") || is_text(value, "on");
                            config = Config {
                                close_tab: on,
                                ghostty_shortcut: config.ghostty_shortcut,
                            };
                        } else if is_text(key, "ghostty_shortcut") && value.len() > 0 {
                            match normalize_ghostty_shortcut(string_of(value).as_str()) {
                                Ok(shortcut) => {
                                    config = Config {
                                        close_tab: config.close_tab,
                                        ghostty_shortcut: shortcut,
                                    };
                                },
                                Err(e) => {
                                    proof {
                                        lemma_settings_error(all, i as int + 1, e);
                                    }
                                    return Err(e);
                                },
                            }
                        }
                    }
                }
                assert(all.take(all.len() as int) == all);
                Ok(config)
            },
        }
    }

    /// The settings as they are written.
    pub fn serialize(&self) -> (r: String)
        ensures
            r@ == settings_text(self@),
    {
        let mut out = if self.close_tab {
            "close_tab=true\n".to_string()
        } else {
            "close_tab=false\n".to_string()
        };
        out.append("ghostty_shortcut=");
        out.append(self.ghostty_shortcut.as_str());
        out.append("\n");
        out
    }
}

/// The first error stands.
proof fn lemma_settings_error(lines: Seq<Seq<char>>, k: int, e: Error)
    requires
        0 <= k <= lines.len(),
        settings_of(lines.take(k)) == Err::<Settings, Error>(e),
    ensures
        settings_of(lines) == Err::<Settings, Error>(e),
    decreases lines.len(),
{
    if k == lines.len() {
        assert(lines.take(k) == lines);
    } else {
        assert(lines.drop_last().take(k) == lines.take(k));
        lemma_settings_error(lines.drop_last(), k, e);
    }
}

/// A shortcut in the form in which it is kept. It is not blank: a blank one is refused.
pub open spec fn settled_shortcut(shortcut: Seq<char>) -> bool {
    normalized_shortcut(shortcut) == Ok::<Seq<char>, Error>(shortcut) && crate::text::trim(
        shortcut,
    ).len() > 0
}

/// A shortcut that was accepted is not empty and holds no character that would end its
/// setting or its key binding early.
pub proof fn accepted_shortcut_is_safe(shortcut: Seq<char>)
    ensures
        match normalized_shortcut(shortcut) {
            Ok(s) => s.len() > 0 && !crate::text::has_char(s, '=') && !crate::text::has_char(
                s,
                '\n',
            ) && !crate::text::has_char(s, '\r'),
            Err(_) => true,
        },
{
    reveal_strlit("off");
}

/// Settings that were written are read back.
pub proof fn settings_read_back(settings: Settings)
    requires
        settled_shortcut(settings.shortcut),
    ensures
        settings_of(crate::text::lines(settings_text(settings))) == Ok::<Settings, Error>(settings),
{
    let s = settings.shortcut;
    accepted_shortcut_is_safe(s);
    reveal_strlit("close_tab=true\n");
    reveal_strlit("close_tab=false\n");
    reveal_strlit("close_tab");
    reveal_strlit("true");
    reveal_strlit("false");
    reveal_strlit("on");
    reveal_strlit("ghostty_shortcut=");
    reveal_strlit("ghostty_shortcut");
    reveal_strlit("\n");
    reveal_strlit("=");
    let value = if settings.close_tab {
        "true"@
    } else {
        "false"@
    };
    let eq = seq!['='];
    let br = seq!['\n'];
    assert("="@ == eq);
    let a = "close_tab"@ + eq + value;
    let b = "ghostty_shortcut"@ + eq + s;
    let text = settings_text(settings);
    assert(text == a + br + (b + br + Seq::<char>::empty()));
    assert(!crate::text::has_char(a, '\n')) by {
        assert(!crate::text::has_char("close_tab"@, '\n'));
        assert(!crate::text::has_char(eq, '\n'));
        assert(!crate::text::has_char(value, '\n'));
        crate::text::lemma_concat_absent("close_tab"@, eq, '\n');
        crate::text::lemma_concat_absent("close_tab"@ + eq, value, '\n');
    }
    assert(a.last() == 'e');
    assert(!crate::text::has_char(b, '\n')) by {
        assert(!crate::text::has_char("ghostty_shortcut"@, '\n'));
        assert(!crate::text::has_char(eq, '\n'));
        crate::text::lemma_concat_absent("ghostty_shortcut"@, eq, '\n');
        crate::text::lemma_concat_absent("ghostty_shortcut"@ + eq, s, '\n');
    }
    assert(b.last() == s[s.len() - 1]);
    assert(b.last() != '\r') by {
        if b.last() == '\r' {
            assert(crate::text::has_char(s, '\r'));
        }
    }
    crate::text::lemma_lines_front(a, b + br + Seq::<char>::empty());
    crate::text::lemma_lines_front(b, Seq::<char>::empty());
    assert(crate::text::lines(Seq::<char>::empty()) == Seq::<Seq<char>>::empty());
    let lines = crate::text::lines(text);
    assert(lines == seq![a, b]);
    lemma_setting_parts("close_tab"@, value);
    lemma_setting_parts("ghostty_shortcut"@, s);
    assert("close_tab"@ != "ghostty_shortcut"@) by {
        assert("close_tab"@.len() != "ghostty_shortcut"@.len());
    }
    assert(value == "true"@ || value != "true"@ && value != "on"@) by {
        if !settings.close_tab {
            assert("false"@.len() != "true"@.len() && "false"@.len() != "on"@.len());
        }
    }
    crate::text::lemma_trimmed("close_tab"@);
    crate::text::lemma_trimmed("ghostty_shortcut"@);
    crate::text::lemma_trimmed(value);
    crate::text::lemma_trim(s);
    let one = Settings { close_tab: settings.close_tab, shortcut: default_settings().shortcut };
    assert(with_setting(default_settings(), a) == Ok::<Settings, Error>(one));
    assert(with_setting(one, b) == Ok::<Settings, Error>(settings));
    assert(lines.drop_last() == seq![a]);
    assert(seq![a].drop_last() == Seq::<Seq<char>>::empty());
    assert(settings_of(Seq::<Seq<char>>::empty()) == Ok::<Settings, Error>(default_settings()));
    assert(settings_of(seq![a]) == Ok::<Settings, Error>(one));
}

/// A setting splits at its first `=`.
proof fn lemma_setting_parts(key: Seq<char>, value: Seq<char>)
    requires
        !crate::text::has_char(key, '='),
    ensures
        crate::text::split_once(key + seq!['='] + value, seq!['=']) == Some((key, value)),
{
    let eq = seq!['='];
    let s = key + eq + value;
    let at = key.len() as int;
    assert(s.subrange(at, at + 1) == eq);
    assert(crate::text::occurs_at(s, eq, at));
    assert forall|j: int| 0 <= j < at implies !crate::text::occurs_at(s, eq, j) by {
        if crate::text::occurs_at(s, eq, j) {
            assert(s.subrange(j, j + 1)[0] == s[j]);
            assert(key[j] == '=');
        }
    }
    crate::text::lemma_find_from_is(s, eq, 0, at);
    assert(s.take(at) == key);
    assert(s.skip(at + 1) == value);
}

// The shortcut's own file.
/// The file that binds the shortcut.
pub open spec fn shortcut_file_text(shortcut: Seq<char>) -> Seq<char> {
    if shortcut_disabled(shortcut) {
        "# Managed by gtab. Update this with `gtab init` or `gtab set ghostty_shortcut`.\n# Ghostty-local shortcut is disabled.\n"@
    } else {
        "# Managed by gtab. Update this with `gtab init` or `gtab set ghostty_shortcut`.\n# Default Ghostty-local shortcut: send `gtab` to the focused shell for same-tab launch.\nkeybind = "@
            + shortcut + "=text:gtab\\x0d\n"@
    }
}

/// Builds the file that binds the shortcut.
pub fn build_ghostty_shortcut_include(shortcut: &str) -> (r: String)
    ensures
        r@ == shortcut_file_text(shortcut@),
{
    if is_shortcut_disabled(shortcut) {
        return "# Managed by gtab. Update this with `gtab init` or `gtab set ghostty_shortcut`.\n# Ghostty-local shortcut is disabled.\n".to_string();
    }
    let mut out =
        "# Managed by gtab. Update this with `gtab init` or `gtab set ghostty_shortcut`.\n# Default Ghostty-local shortcut: send `gtab` to the focused shell for same-tab launch.\nkeybind = ".to_string();
    out.append(shortcut);
    out.append("=text:gtab\\x0d\n");
    out
}

// The reference to it.
/// The line that refers to a file.
pub open spec fn reference_line(path: Seq<char>) -> Seq<char> {
    "config-file = \""@ + path + "\""@
}

/// A line that refers to that file.
pub open spec fn is_reference(line: Seq<char>, path: Seq<char>) -> bool {
    match crate::text::split_once(line, "="@) {
        Some((key, value)) => crate::text::trim(key) == "config-file"@ && crate::text::trim_end_char(
            crate::text::trim_start_char(crate::text::trim(value), '"'),
            '"',
        ) == path,
        None => false,
    }
}

/// The lines in front of a reference, without the mark and one blank line that belong to
/// it.
pub open spec fn without_mark_line(kept: Seq<Seq<char>>) -> Seq<Seq<char>> {
    let unmarked = if kept.len() > 0 && crate::text::trim(kept.last())
        == "# gtab managed include"@ {
        kept.drop_last()
    } else {
        kept
    };
    if unmarked.len() > 0 && crate::text::trim(unmarked.last()).len() == 0 {
        unmarked.drop_last()
    } else {
        unmarked
    }
}

/// The lines without references to the file and what belongs to them.
pub open spec fn without_references(lines: Seq<Seq<char>>, path: Seq<char>) -> Seq<Seq<char>>
    decreases lines.len(),
{
    if lines.len() == 0 {
        seq![]
    } else {
        let kept = without_references(lines.drop_last(), path);
        if is_reference(lines.last(), path) {
            without_mark_line(kept)
        } else {
            kept.push(lines.last())
        }
    }
}

/// A configuration of these lines.
pub open spec fn config_text(lines: Seq<Seq<char>>) -> Seq<char> {
    if lines.len() == 0 {
        seq![]
    } else {
        crate::text::join(lines, "\n"@) + "\n"@
    }
}

/// A configuration of these lines and the reference, behind a blank line.
pub open spec fn config_text_with_reference(lines: Seq<Seq<char>>, path: Seq<char>) -> Seq<char> {
    (if config_text(lines).len() == 0 {
        config_text(lines)
    } else {
        config_text(lines) + "\n"@
    }) + "# gtab managed include\n"@ + reference_line(path) + "\n"@
}

/// What a configuration becomes.
pub open spec fn synced_config(existing: Seq<char>, path: Seq<char>, enabled: bool) -> Seq<char> {
    let kept = without_references(crate::text::lines(existing), path);
    if enabled {
        config_text_with_reference(kept, path)
    } else {
        config_text(kept)
    }
}

/// The line that refers to a file.
pub fn render_ghostty_include_config_line(include_path: &str) -> (r: String)
    ensures
        r@ == reference_line(include_path@),
{
    crate::error::around("config-file = \"", include_path, "\"")
}

/// Whether a line refers to that file.
fn is_gtab_include_reference_line(line: &[char], include_path: &str) -> (r: bool)
    ensures
        r == is_reference(line@, include_path@),
{
    match split_once_slice(line, "=") {
        Some((key, value)) => is_text(trim_slice(key), "config-file") && is_text(
            trim_end_char_slice(trim_start_char_slice(trim_slice(value), '"'), '"'),
            include_path,
        ),
        None => false,
    }
}

/// Drops references to the file and what belongs to them.
fn strip_gtab_include_reference<'a>(lines: &Vec<&'a [char]>, include_path: &str) -> (r: Vec<
    &'a [char],
>)
    ensures
        crate::text::views(r@) == without_references(crate::text::views(lines@), include_path@),
{
    let ghost all = crate::text::views(lines@);
    let mut kept: Vec<&'a [char]> = Vec::new();
    for i in 0..lines.len()
        invariant
            all == crate::text::views(lines@),
            crate::text::views(kept@) == without_references(all.take(i as int), include_path@),
    {
        assert(all.take(i as int + 1).drop_last() == all.take(i as int));
        assert(all.take(i as int + 1).last() == lines@[i as int]@);
        let ghost start = kept@;
        if is_gtab_include_reference_line(lines[i], include_path) {
            if kept.len() > 0 && is_text(
                trim_slice(kept[kept.len() - 1]),
                "# gtab managed include",
            ) {
                kept.pop();
                assert(crate::text::views(kept@) == crate::text::views(start).drop_last());
            }
            let ghost unmarked = kept@;
            if kept.len() > 0 && trim_slice(kept[kept.len() - 1]).len() == 0 {
                kept.pop();
                assert(crate::text::views(kept@) == crate::text::views(unmarked).drop_last());
            }
        } else {
            kept.push(lines[i]);
            assert(crate::text::views(kept@) == crate::text::views(start).push(
                lines@[i as int]@,
            ));
        }
    }
    assert(all.take(all.len() as int) == all);
    kept
}

/// A configuration of these lines.
fn render_ghostty_config(lines: &Vec<&[char]>) -> (r: String)
    ensures
        r@ == config_text(crate::text::views(lines@)),
{
    if lines.len() == 0 {
        return String::new();
    }
    let mut texts: Vec<String> = Vec::new();
    let ghost all = crate::text::views(lines@);
    for i in 0..lines.len()
        invariant
            all == crate::text::views(lines@),
            crate::text::string_views(texts@) == all.take(i as int),
    {
        let ghost before = texts@;
        let text = string_of(lines[i]);
        texts.push(text);
        assert(crate::text::string_views(texts@) == crate::text::string_views(before).push(text@));
    }
    assert(all.take(all.len() as int) == all);
    let mut out = join_strings(&texts, "\n");
    out.append("\n");
    out
}

/// A configuration of these lines and the reference.
fn render_ghostty_config_with_gtab_include(lines: &Vec<&[char]>, include_path: &str) -> (r: String)
    ensures
        r@ == config_text_with_reference(crate::text::views(lines@), include_path@),
{
    let mut next = render_ghostty_config(lines);
    if !crate::text::is_empty_str(next.as_str()) {
        next.append("\n");
    }
    next.append("# gtab managed include\n");
    next.append(render_ghostty_include_config_line(include_path).as_str());
    next.append("\n");
    next
}

/// What is to be done with a Ghostty configuration.
#[derive(Clone, Debug, PartialEq, Eq)]
pub enum ConfigPlan {
    /// It is as it should be.
    Keep,
    /// It is managed elsewhere and must not be written.
    Manual,
    /// It becomes this text.
    Write(String),
}

/// Decides what is to be done with a Ghostty configuration: `existing` is its text, or
/// `None` where there is no such file.
pub fn plan_config_sync(
    existing: Option<&str>,
    include_path: &str,
    enabled: bool,
    externally_managed: bool,
) -> (r: ConfigPlan)
    ensures
        match existing {
            None => if !enabled {
                r is Keep
            } else if externally_managed {
                r is Manual
            } else {
                r matches ConfigPlan::Write(text) && text@ == config_text_with_reference(
                    seq![],
                    include_path@,
                )
            },
            Some(text) => {
                let next = synced_config(text@, include_path@, enabled);
                if next == text@ {
                    r is Keep
                } else if externally_managed {
                    r is Manual
                } else {
                    r matches ConfigPlan::Write(new_text) && new_text@ == next
                }
            },
        },
{
    match existing {
        None => {
            if !enabled {
                return ConfigPlan::Keep;
            }
            if externally_managed {
                return ConfigPlan::Manual;
            }
            let none: Vec<&[char]> = Vec::new();
            assert(crate::text::views(none@) == Seq::<Seq<char>>::empty());
            ConfigPlan::Write(render_ghostty_config_with_gtab_include(&none, include_path))
        },
        Some(text) => {
            let chars = chars_of(text);
            let lines = lines_slice(chars.as_slice());
            let kept = strip_gtab_include_reference(&lines, include_path);
            let next = if enabled {
                render_ghostty_config_with_gtab_include(&kept, include_path)
            } else {
                render_ghostty_config(&kept)
            };
            if same_str(next.as_str(), text) {
                return ConfigPlan::Keep;
            }
            if externally_managed {
                return ConfigPlan::Manual;
            }
            ConfigPlan::Write(next)
        },
    }
}

// What syncing keeps.
/// A path that the reference can hold: no line break in it, and no quote at its ends.
pub open spec fn quotable(path: Seq<char>) -> bool {
    &&& !crate::text::has_char(path, '\n')
    &&& path.len() > 0 ==> path[0] != '"' && path.last() != '"'
}

/// No line of a configuration ends with `\r` once its line break is off.
pub open spec fn no_stray_returns(existing: Seq<char>) -> bool {
    forall|i: int|
        0 <= i < crate::text::lines(existing).len() ==> {
            let line = #[trigger] crate::text::lines(existing)[i];
            line.len() > 0 ==> line.last() != '\r'
        }
}

/// The reference is recognized.
proof fn lemma_reference_is_reference(path: Seq<char>)
    requires
        quotable(path),
    ensures
        is_reference(reference_line(path), path),
        crate::text::plain_line(reference_line(path)),
        reference_line(path).len() > 0,
{
    reveal_strlit("config-file = \"");
    reveal_strlit("config-file");
    reveal_strlit("\"");
    reveal_strlit("=");
    let line = reference_line(path);
    let key = "config-file"@ + seq![' '];
    let value = seq![' ', '"'] + path + seq!['"'];
    assert("="@ == seq!['=']);
    assert(line == key + seq!['='] + value);
    assert(!crate::text::has_char(key, '='));
    lemma_setting_parts(key, value);
    // The key.
    assert(crate::text::trim_start(key) == key);
    assert(key.drop_last() == "config-file"@);
    crate::text::lemma_trimmed("config-file"@);
    assert(crate::text::trim_end(key) == crate::text::trim_end(key.drop_last()));
    // The value.
    let quoted = value.skip(1);
    assert(crate::text::trim_start(value) == crate::text::trim_start(quoted));
    crate::text::lemma_trimmed(quoted);
    assert(crate::text::trim(value) == quoted);
    let open = quoted.skip(1);
    assert(crate::text::trim_start_char(quoted, '"') == crate::text::trim_start_char(open, '"'));
    assert(open == path + seq!['"']);
    if path.len() == 0 {
        assert(open.skip(1) == Seq::<char>::empty());
        assert(crate::text::trim_start_char(open, '"') == crate::text::trim_start_char(
            open.skip(1),
            '"',
        ));
        assert(path == Seq::<char>::empty());
    } else {
        assert(crate::text::trim_start_char(open, '"') == open);
        assert(open.drop_last() == path);
        assert(crate::text::trim_end_char(open, '"') == crate::text::trim_end_char(
            open.drop_last(),
            '"',
        ));
    }
    // One line.
    assert(!crate::text::has_char("config-file = \""@, '\n'));
    assert(!crate::text::has_char("\""@, '\n'));
    crate::text::lemma_concat_absent("config-file = \""@, path, '\n');
    crate::text::lemma_concat_absent("config-file = \""@ + path, "\""@, '\n');
    assert(line.last() == '"');
}

/// Lines hold no line break.
proof fn lemma_lines_hold_no_break(s: Seq<char>)
    ensures
        forall|i: int|
            0 <= i < crate::text::lines(s).len() ==> !crate::text::has_char(
                #[trigger] crate::text::lines(s)[i],
                '\n',
            ),
    decreases s.len(),
{
    if s.len() > 0 {
        let at = crate::text::first_index(s, '\n');
        crate::text::lemma_first_index(s, '\n');
        if at < s.len() {
            let rest = s.skip(at + 1);
            lemma_lines_hold_no_break(rest);
            let head = s.take(at);
            let first = crate::text::drop_cr(head);
            assert(!crate::text::has_char(first, '\n')) by {
                if crate::text::has_char(first, '\n') {
                    let i = choose|i: int| 0 <= i < first.len() && first[i] == '\n';
                    assert(s[i] == '\n');
                }
            }
            assert forall|i: int| 0 <= i < crate::text::lines(s).len() implies !crate::text::has_char(
                #[trigger] crate::text::lines(s)[i],
                '\n',
            ) by {
                if i > 0 {
                    assert(crate::text::lines(s)[i] == crate::text::lines(rest)[i - 1]);
                }
            }
        } else {
            assert(!crate::text::has_char(s, '\n')) by {
                if crate::text::has_char(s, '\n') {
                    let i = choose|i: int| 0 <= i < s.len() && s[i] == '\n';
                }
            }
        }
    }
}

/// The lines that are kept are lines of the configuration, and none of them refers to
/// the file.
pub proof fn kept_lines_are_lines(lines: Seq<Seq<char>>, path: Seq<char>)
    ensures
        forall|i: int|
            0 <= i < without_references(lines, path).len() ==> {
                let line = #[trigger] without_references(lines, path)[i];
                !is_reference(line, path) && lines.contains(line)
            },
    decreases lines.len(),
{
    if lines.len() > 0 {
        let front = lines.drop_last();
        kept_lines_are_lines(front, path);
        let before = without_references(front, path);
        let kept = without_references(lines, path);
        assert forall|i: int| 0 <= i < kept.len() implies {
            let line = #[trigger] kept[i];
            !is_reference(line, path) && lines.contains(line)
        } by {
            if i < before.len() {
                assert(kept[i] == before[i]);
                let j = choose|j: int| 0 <= j < front.len() && front[j] == before[i];
                assert(lines[j] == kept[i]);
            } else {
                assert(lines[lines.len() - 1] == kept[i]);
            }
        }
    }
}

/// A configuration without references keeps all its lines.
pub proof fn other_lines_are_kept(lines: Seq<Seq<char>>, path: Seq<char>)
    requires
        forall|i: int| 0 <= i < lines.len() ==> !is_reference(#[trigger] lines[i], path),
    ensures
        without_references(lines, path) == lines,
    decreases lines.len(),
{
    if lines.len() > 0 {
        let front = lines.drop_last();
        assert forall|i: int| 0 <= i < front.len() implies !is_reference(
            #[trigger] front[i],
            path,
        ) by {
            assert(front[i] == lines[i]);
        }
        other_lines_are_kept(front, path);
        assert(!is_reference(lines[lines.len() - 1], path));
        assert(front.push(lines.last()) == lines);
    }
}

/// What was kept is read back from the text that it was written to.
proof fn lemma_kept_reads_back(kept: Seq<Seq<char>>, path: Seq<char>)
    requires
        quotable(path),
        forall|i: int|
            0 <= i < kept.len() ==> crate::text::plain_line(#[trigger] kept[i]) && !is_reference(
                kept[i],
                path,
            ),
    ensures
        without_references(
            crate::text::lines(config_text_with_reference(kept, path)),
            path,
        ) == kept,
        without_references(crate::text::lines(config_text(kept)), path) == kept,
        crate::text::lines(config_text(kept)) == kept,
        crate::text::lines(config_text_with_reference(kept, path)) == if kept.len() == 0 {
            seq!["# gtab managed include"@, reference_line(path)]
        } else {
            kept + seq![Seq::<char>::empty(), "# gtab managed include"@, reference_line(path)]
        },
{
    reveal_strlit("\n");
    reveal_strlit("# gtab managed include\n");
    reveal_strlit("# gtab managed include");
    reveal_strlit("=");
    let br = seq!['\n'];
    assert("\n"@ == br);
    let none = Seq::<char>::empty();
    let mark = "# gtab managed include"@;
    let line = reference_line(path);
    lemma_reference_is_reference(path);
    assert(!crate::text::has_char(mark, '\n'));
    assert("# gtab managed include\n"@ == mark + br);
    crate::text::lines_of_join(kept);
    other_lines_are_kept(kept, path);
    assert(crate::text::lines(none) == Seq::<Seq<char>>::empty());
    // The lines with the reference.
    let all = if kept.len() == 0 {
        seq![mark, line]
    } else {
        kept + seq![none, mark, line]
    };
    assert forall|i: int| 0 <= i < all.len() implies crate::text::plain_line(#[trigger] all[i]) by {
        if i < kept.len() {
            assert(all[i] == kept[i]);
        }
    }
    crate::text::lines_of_join(all);
    assert(config_text_with_reference(kept, path) == crate::text::join(all, br) + br) by {
        let two = seq![mark, line];
        crate::text::lemma_join_front(two, br);
        assert(two.skip(1) == seq![line]);
        assert(crate::text::join(seq![line], br) == line);
        if kept.len() > 0 {
            let a = kept.push(none);
            let b = a.push(mark);
            let c = b.push(line);
            assert(all == c);
            assert(c.drop_last() == b && b.drop_last() == a && a.drop_last() == kept);
            let body = crate::text::join(kept, br);
            assert(crate::text::join(a, br) == body + br + none);
            assert(crate::text::join(b, br) == body + br + none + br + mark);
            assert(crate::text::join(c, br) == body + br + none + br + mark + br + line);
            assert(config_text(kept) == body + br);
            assert(body + br + br + (mark + br) + line + br == body + br + none + br + mark + br
                + line + br);
        } else {
            assert(crate::text::join(all, br) == mark + br + line);
            assert(config_text(kept) + (mark + br) + line + br == mark + br + line + br);
        }
    }
    assert(crate::text::lines(config_text_with_reference(kept, path)) == all);
    // Taking the reference out again.
    let front = all.drop_last();
    assert(all.last() == line);
    lemma_no_equals(none);
    lemma_no_equals(mark);
    assert forall|i: int| 0 <= i < front.len() implies !is_reference(#[trigger] front[i], path) by {
        if i < kept.len() {
            assert(front[i] == kept[i]);
        }
    }
    other_lines_are_kept(front, path);
    crate::text::lemma_trimmed(mark);
    crate::text::lemma_trimmed(none);
    if kept.len() == 0 {
        assert(front == seq![mark]);
        assert(front.drop_last() == Seq::<Seq<char>>::empty());
        assert(kept == Seq::<Seq<char>>::empty());
    } else {
        assert(front.last() == mark);
        assert(front.drop_last() == kept.push(none));
        assert(kept.push(none).drop_last() == kept);
    }
    if kept.len() == 0 {
        assert(kept == Seq::<Seq<char>>::empty());
    }
}

/// A line without `=` refers to nothing.
proof fn lemma_no_equals(line: Seq<char>)
    requires
        !crate::text::has_char(line, '='),
    ensures
        forall|path: Seq<char>| !#[trigger] is_reference(line, path),
{
    reveal_strlit("=");
    crate::text::lemma_find_from(line, "="@, 0);
    if let Some(i) = crate::text::find(line, "="@) {
        assert(line.subrange(i, i + 1)[0] == line[i]);
        assert(line[i] == '=');
    }
}

/// Syncing twice is syncing once, and what one sync did another undoes: after any sync,
/// enabling gives what enabling gave at first, and disabling what disabling did. The
/// user's own lines are the same throughout.
pub proof fn syncing_settles(existing: Seq<char>, path: Seq<char>, first: bool, then: bool)
    requires
        quotable(path),
        no_stray_returns(existing),
    ensures
        synced_config(synced_config(existing, path, first), path, then) == synced_config(
            existing,
            path,
            then,
        ),
        without_references(
            crate::text::lines(synced_config(existing, path, first)),
            path,
        ) == without_references(crate::text::lines(existing), path),
{
    let lines = crate::text::lines(existing);
    let kept = without_references(lines, path);
    kept_lines_are_lines(lines, path);
    lemma_lines_hold_no_break(existing);
    assert forall|i: int| 0 <= i < kept.len() implies crate::text::plain_line(#[trigger] kept[i])
        && !is_reference(kept[i], path) by {
        let j = choose|j: int| 0 <= j < lines.len() && lines[j] == kept[i];
        assert(crate::text::lines(existing)[j] == kept[i]);
    }
    lemma_kept_reads_back(kept, path);
}

// What the shortcut's own file binds.
/// The key binding of a line, as Ghostty reads it: the trigger and what it does. A line
/// that starts with `#` binds nothing.
pub open spec fn binding_of(line: Seq<char>) -> Option<(Seq<char>, Seq<char>)> {
    if line.len() > 0 && line[0] == '#' {
        None
    } else {
        match crate::text::split_once(line, "="@) {
            Some((key, value)) => if crate::text::trim(key) == "keybind"@ {
                match crate::text::split_once(value, "="@) {
                    Some((trigger, action)) => Some((crate::text::trim(trigger), action)),
                    None => None,
                }
            } else {
                None
            },
            None => None,
        }
    }
}

/// The key bindings of lines.
pub open spec fn bindings_of(lines: Seq<Seq<char>>) -> Seq<(Seq<char>, Seq<char>)>
    decreases lines.len(),
{
    if lines.len() == 0 {
        seq![]
    } else {
        let before = bindings_of(lines.drop_last());
        match binding_of(lines.last()) {
            Some(binding) => before.push(binding),
            None => before,
        }
    }
}

/// The shortcut's file binds the shortcut itself and nothing else, to typing `gtab` and a
/// carriage return; where the shortcut is off it binds nothing.
pub proof fn file_binds_the_shortcut(shortcut: Seq<char>)
    requires
        !crate::text::has_char(shortcut, '='),
        !crate::text::has_char(shortcut, '\n'),
    ensures
        ({
            let s = crate::text::trim(shortcut);
            bindings_of(crate::text::lines(shortcut_file_text(shortcut))) == (if s == "off"@ || s
                == "none"@ || s == "disabled"@ {
                Seq::<(Seq<char>, Seq<char>)>::empty()
            } else {
                seq![(s, "text:gtab\\x0d"@)]
            })
        }),
{
    reveal_strlit("# Managed by gtab. Update this with `gtab init` or `gtab set ghostty_shortcut`.");
    reveal_strlit(
        "# Default Ghostty-local shortcut: send `gtab` to the focused shell for same-tab launch.",
    );
    reveal_strlit("# Ghostty-local shortcut is disabled.");
    let a = "# Managed by gtab. Update this with `gtab init` or `gtab set ghostty_shortcut`."@;
    let b =
        "# Default Ghostty-local shortcut: send `gtab` to the focused shell for same-tab launch."@;
    let c = "# Ghostty-local shortcut is disabled."@;
    lemma_shortcut_file_lines(shortcut);
    let lines = crate::text::lines(shortcut_file_text(shortcut));
    lemma_bindings_push(seq![], a);
    assert(Seq::<Seq<char>>::empty().push(a) =~= seq![a]);
    if shortcut_disabled(shortcut) {
        lemma_bindings_push(seq![a], c);
        assert(seq![a].push(c) =~= lines);
    } else {
        let line = binding_line(shortcut);
        lemma_binding_line(shortcut);
        lemma_bindings_push(seq![a], b);
        lemma_bindings_push(seq![a, b], line);
        assert(seq![a].push(b) =~= seq![a, b]);
        assert(seq![a, b].push(line) =~= lines);
        assert(bindings_of(lines) =~= seq![(crate::text::trim(shortcut), "text:gtab\\x0d"@)]);
    }
}

/// The line that binds a shortcut.
spec fn binding_line(shortcut: Seq<char>) -> Seq<char> {
    "keybind"@ + seq![' '] + seq!['='] + (seq![' '] + shortcut + seq!['='] + "text:gtab\\x0d"@)
}

/// The lines of the shortcut's file.
proof fn lemma_shortcut_file_lines(shortcut: Seq<char>)
    requires
        !crate::text::has_char(shortcut, '\n'),
    ensures
        crate::text::lines(shortcut_file_text(shortcut)) == if shortcut_disabled(shortcut) {
            seq![
                "# Managed by gtab. Update this with `gtab init` or `gtab set ghostty_shortcut`."@,
                "# Ghostty-local shortcut is disabled."@,
            ]
        } else {
            seq![
                "# Managed by gtab. Update this with `gtab init` or `gtab set ghostty_shortcut`."@,
                "# Default Ghostty-local shortcut: send `gtab` to the focused shell for same-tab launch."@,
                binding_line(shortcut),
            ]
        },
{
    let a = "# Managed by gtab. Update this with `gtab init` or `gtab set ghostty_shortcut`."@;
    let b =
        "# Default Ghostty-local shortcut: send `gtab` to the focused shell for same-tab launch."@;
    let c = "# Ghostty-local shortcut is disabled."@;
    let br = seq!['\n'];
    let none = Seq::<char>::empty();
    assert(crate::text::lines(none) =~= Seq::<Seq<char>>::empty());
    lemma_shortcut_file_notes();
    if shortcut_disabled(shortcut) {
        assert(a + br + c + br =~= a + br + (c + br + none));
        crate::text::lemma_lines_front(a, c + br + none);
        crate::text::lemma_lines_front(c, none);
        assert(crate::text::lines(shortcut_file_text(shortcut)) =~= seq![a, c]);
    } else {
        let line = binding_line(shortcut);
        lemma_binding_line_is_plain(shortcut);
        let action = "text:gtab\\x0d"@;
        assert(shortcut_file_text(shortcut) =~= a + br + (b + br + (line + br + none)));
        crate::text::lemma_lines_front(a, b + br + (line + br + none));
        crate::text::lemma_lines_front(b, line + br + none);
        crate::text::lemma_lines_front(line, none);
        assert(crate::text::lines(shortcut_file_text(shortcut)) =~= seq![a, b, line]);
    }
}

/// The fixed parts of the shortcut's file.
proof fn lemma_shortcut_file_notes()
    ensures
        ({
            let a = "# Managed by gtab. Update this with `gtab init` or `gtab set ghostty_shortcut`."@;
            let b =
                "# Default Ghostty-local shortcut: send `gtab` to the focused shell for same-tab launch."@;
            let c = "# Ghostty-local shortcut is disabled."@;
            let br = seq!['\n'];
            &&& crate::text::plain_line(a)
            &&& crate::text::plain_line(b)
            &&& crate::text::plain_line(c)
            &&& "# Managed by gtab. Update this with `gtab init` or `gtab set ghostty_shortcut`.\n# Ghostty-local shortcut is disabled.\n"@
                == a + br + c + br
            &&& "# Managed by gtab. Update this with `gtab init` or `gtab set ghostty_shortcut`.\n# Default Ghostty-local shortcut: send `gtab` to the focused shell for same-tab launch.\nkeybind = "@
                == a + br + b + br + "keybind"@ + seq![' ', '=', ' ']
            &&& "=text:gtab\\x0d\n"@ == seq!['='] + "text:gtab\\x0d"@ + br
        }),
{
    reveal_strlit("# Managed by gtab. Update this with `gtab init` or `gtab set ghostty_shortcut`.");
    reveal_strlit(
        "# Default Ghostty-local shortcut: send `gtab` to the focused shell for same-tab launch.",
    );
    reveal_strlit("# Ghostty-local shortcut is disabled.");
    reveal_strlit("keybind");
    reveal_strlit("=text:gtab\\x0d\n");
    reveal_strlit("text:gtab\\x0d");
    let a = "# Managed by gtab. Update this with `gtab init` or `gtab set ghostty_shortcut`."@;
    let b =
        "# Default Ghostty-local shortcut: send `gtab` to the focused shell for same-tab launch."@;
    let c = "# Ghostty-local shortcut is disabled."@;
    let br = seq!['\n'];
    assert(!crate::text::has_char(a, '\n'));
    assert(!crate::text::has_char(b, '\n'));
    assert(!crate::text::has_char(c, '\n'));
    assert("=text:gtab\\x0d\n"@ =~= seq!['='] + "text:gtab\\x0d"@ + br);
    assert("# Managed by gtab. Update this with `gtab init` or `gtab set ghostty_shortcut`.\n# Ghostty-local shortcut is disabled.\n"@
        =~= a + br + c + br) by {
        reveal_strlit(
            "# Managed by gtab. Update this with `gtab init` or `gtab set ghostty_shortcut`.\n# Ghostty-local shortcut is disabled.\n",
        );
    }
    assert("# Managed by gtab. Update this with `gtab init` or `gtab set ghostty_shortcut`.\n# Default Ghostty-local shortcut: send `gtab` to the focused shell for same-tab launch.\nkeybind = "@
        =~= a + br + b + br + "keybind"@ + seq![' ', '=', ' ']) by {
        reveal_strlit(
            "# Managed by gtab. Update this with `gtab init` or `gtab set ghostty_shortcut`.\n# Default Ghostty-local shortcut: send `gtab` to the focused shell for same-tab launch.\nkeybind = ",
        );
    }
}

/// The line that binds a shortcut is one line.
proof fn lemma_binding_line_is_plain(shortcut: Seq<char>)
    requires
        !crate::text::has_char(shortcut, '\n'),
    ensures
        crate::text::plain_line(binding_line(shortcut)),
{
    reveal_strlit("keybind");
    reveal_strlit("text:gtab\\x0d");
    let head = "keybind"@ + seq![' '] + seq!['='] + seq![' '];
    let tail = seq!['='] + "text:gtab\\x0d"@;
    let line = binding_line(shortcut);
    assert(line =~= head + shortcut + tail);
    assert(!crate::text::has_char(head, '\n'));
    assert(!crate::text::has_char(tail, '\n'));
    crate::text::lemma_concat_absent(head, shortcut, '\n');
    crate::text::lemma_concat_absent(head + shortcut, tail, '\n');
    assert(line.last() == 'd');
}

/// What the line that binds a shortcut binds.
proof fn lemma_binding_line(shortcut: Seq<char>)
    requires
        !crate::text::has_char(shortcut, '='),
    ensures
        binding_of(binding_line(shortcut)) == Some(
            (crate::text::trim(shortcut), "text:gtab\\x0d"@),
        ),
{
    reveal_strlit("keybind");
    reveal_strlit("=");
    assert("="@ =~= seq!['=']);
    let key = "keybind"@ + seq![' '];
    let action = "text:gtab\\x0d"@;
    let trigger = seq![' '] + shortcut;
    let line = binding_line(shortcut);
    assert(line[0] == 'k');
    assert(!crate::text::has_char(key, '='));
    lemma_setting_parts(key, trigger + seq!['='] + action);
    assert(crate::text::trim_start(key) == key);
    assert(key.drop_last() =~= "keybind"@);
    crate::text::lemma_trimmed("keybind"@);
    assert(crate::text::trim_end(key) == crate::text::trim_end(key.drop_last()));
    assert(!crate::text::has_char(seq![' '], '='));
    crate::text::lemma_concat_absent(seq![' '], shortcut, '=');
    lemma_setting_parts(trigger, action);
    assert(trigger.skip(1) =~= shortcut);
    assert(crate::text::trim_start(trigger) == crate::text::trim_start(shortcut));
}

/// One more line adds its binding.
proof fn lemma_bindings_push(lines: Seq<Seq<char>>, line: Seq<char>)
    ensures
        bindings_of(lines.push(line)) == (match binding_of(line) {
            Some(binding) => bindings_of(lines).push(binding),
            None => bindings_of(lines),
        }),
{
    assert(lines.push(line).drop_last() == lines);
}

// What settings and references say.
/// A line sets what its key names, and nothing else: white space around the key and the
/// value does not count, a later line counts more than an earlier one, and lines with other
/// keys say nothing.
pub proof fn last_setting_counts(before: Seq<Seq<char>>, key: Seq<char>, value: Seq<char>)
    requires
        settings_of(before) is Ok,
        !crate::text::has_char(key, '='),
    ensures
        ({
            let old_settings = settings_of(before)->Ok_0;
            let r = settings_of(before.push(key + seq!['='] + value));
            let k = crate::text::trim(key);
            let v = crate::text::trim(value);
            &&& k == "close_tab"@ ==> r is Ok && r->Ok_0.shortcut == old_settings.shortcut
                && r->Ok_0.close_tab == (v == "true"@ || v == "on"@)
            &&& k == "ghostty_shortcut"@ && v.len() > 0 ==> match normalized_shortcut(v) {
                Ok(s) => r is Ok && r->Ok_0.shortcut == s && r->Ok_0.close_tab
                    == old_settings.close_tab,
                Err(e) => r == Err::<Settings, Error>(e),
            }
            &&& k == "ghostty_shortcut"@ && v.len() == 0 ==> r == settings_of(before)
            &&& k != "close_tab"@ && k != "ghostty_shortcut"@ ==> r == settings_of(before)
        }),
{
    reveal_strlit("=");
    reveal_strlit("close_tab");
    reveal_strlit("ghostty_shortcut");
    assert("="@ =~= seq!['=']);
    assert("close_tab"@.len() != "ghostty_shortcut"@.len());
    lemma_setting_parts(key, value);
    let line = key + seq!['='] + value;
    assert(before.push(line).drop_last() =~= before);
}

/// A line without `=` sets nothing.
pub proof fn other_lines_set_nothing(before: Seq<Seq<char>>, line: Seq<char>)
    requires
        !crate::text::has_char(line, '='),
    ensures
        settings_of(before.push(line)) == settings_of(before),
{
    reveal_strlit("=");
    crate::text::lemma_find_from(line, "="@, 0);
    if let Some(i) = crate::text::find(line, "="@) {
        assert(line.subrange(i, i + 1)[0] == line[i]);
        assert(line[i] == '=');
    }
    assert(before.push(line).drop_last() =~= before);
}

/// A shortcut is refused only where it is blank or holds a character that would end it
/// early; the words for none of them give `off`, and any other shortcut is kept in lower
/// case.
pub proof fn shortcuts_are_kept_in_lower_case(shortcut: Seq<char>)
    ensures
        ({
            let s = crate::text::lowercase(crate::text::trim(shortcut));
            let r = normalized_shortcut(shortcut);
            let none = crate::text::trim(s) == "off"@ || crate::text::trim(s) == "none"@
                || crate::text::trim(s) == "disabled"@;
            let broken = s.contains('=') || s.contains('\n') || s.contains('\r');
            &&& r == Err::<Seq<char>, Error>(Error::EmptyShortcut) <==> s.len() == 0
            &&& s.len() > 0 && none ==> r == Ok::<Seq<char>, Error>("off"@)
            &&& s.len() > 0 && !none && !broken ==> r == Ok::<Seq<char>, Error>(s)
            &&& s.len() > 0 && !none && broken ==> r == Err::<Seq<char>, Error>(
                Error::InvalidShortcut,
            )
        }),
{
    let s = crate::text::lowercase(crate::text::trim(shortcut));
    assert forall|c: char| #[trigger] s.contains(c) == crate::text::has_char(s, c) by {
        if s.contains(c) {
            let i = choose|i: int| 0 <= i < s.len() && s[i] == c;
            assert(s[i] == c);
        }
        if crate::text::has_char(s, c) {
            let i = choose|i: int| 0 <= i < s.len() && s[i] == c;
            assert(s[i] == c);
        }
    }
}

/// A line refers to a file if it sets `config-file` to its path, quoted or not; it refers
/// to no other file.
pub proof fn references_name_the_file(path: Seq<char>, other: Seq<char>, key: Seq<char>)
    requires
        path.len() > 0,
        path[0] != '"' && path.last() != '"',
        crate::text::trim(path) == path,
        !crate::text::has_char(key, '='),
    ensures
        is_reference(key + seq!['='] + path, other) == (crate::text::trim(key) == "config-file"@
            && path == other),
        is_reference(key + seq!['=', '"'] + path + seq!['"'], other) == (crate::text::trim(key)
            == "config-file"@ && path == other),
{
    reveal_strlit("=");
    assert("="@ =~= seq!['=']);
    lemma_setting_parts(key, path);
    assert(crate::text::trim_start_char(path, '"') == path);
    assert(crate::text::trim_end_char(path, '"') == path);
    let value = seq!['"'] + path + seq!['"'];
    assert(key + seq!['=', '"'] + path + seq!['"'] =~= key + seq!['='] + value);
    lemma_setting_parts(key, value);
    crate::text::lemma_trimmed(value);
    let opened = value.skip(1);
    assert(opened =~= path + seq!['"']);
    assert(opened[0] == path[0]);
    assert(crate::text::trim_start_char(value, '"') == crate::text::trim_start_char(opened, '"'));
    assert(crate::text::trim_start_char(opened, '"') == opened);
    assert(opened.drop_last() =~= path);
    assert(crate::text::trim_end_char(opened, '"') == crate::text::trim_end_char(path, '"'));
}

/// Lines behind the last reference stay as they are.
proof fn lemma_references_append(a: Seq<Seq<char>>, b: Seq<Seq<char>>, path: Seq<char>)
    requires
        forall|i: int| 0 <= i < b.len() ==> !is_reference(#[trigger] b[i], path),
    ensures
        without_references(a + b, path) == without_references(a, path) + b,
    decreases b.len(),
{
    if b.len() == 0 {
        assert(a + b =~= a);
        assert(without_references(a, path) + b =~= without_references(a, path));
    } else {
        let f = b.drop_last();
        assert forall|i: int| 0 <= i < f.len() implies !is_reference(#[trigger] f[i], path) by {
            assert(f[i] == b[i]);
        }
        lemma_references_append(a, f, path);
        assert((a + b).drop_last() =~= a + f);
        assert((a + b).last() == b.last());
        assert(!is_reference(b[b.len() - 1], path));
        assert((without_references(a, path) + f).push(b.last()) =~= without_references(a, path)
            + b);
    }
}

/// Taking a reference out takes out its line, the mark in front of it and one blank line in
/// front of that, and no other line.
pub proof fn only_the_reference_is_taken_out(
    before: Seq<Seq<char>>,
    line: Seq<char>,
    after: Seq<Seq<char>>,
    path: Seq<char>,
)
    requires
        is_reference(line, path),
        forall|i: int| 0 <= i < before.len() ==> !is_reference(#[trigger] before[i], path),
        forall|i: int| 0 <= i < after.len() ==> !is_reference(#[trigger] after[i], path),
    ensures
        ({
            let mark = "# gtab managed include"@;
            let blank = Seq::<char>::empty();
            let ends_blank = before.len() > 0 && crate::text::trim(before.last()).len() == 0;
            let ends_marked = before.len() > 0 && crate::text::trim(before.last()) == mark;
            &&& !ends_blank && !ends_marked ==> without_references(
                before.push(line) + after,
                path,
            ) == before + after
            &&& !ends_blank ==> without_references(
                before.push(mark).push(line) + after,
                path,
            ) == before + after
            &&& without_references(
                before.push(blank).push(mark).push(line) + after,
                path,
            ) == before + after
            &&& without_references(
                before.push(blank).push(line) + after,
                path,
            ) == before + after
        }),
{
    reveal_strlit("# gtab managed include");
    let mark = "# gtab managed include"@;
    let blank = Seq::<char>::empty();
    crate::text::lemma_trimmed(mark);
    crate::text::lemma_trimmed(blank);
    assert(!crate::text::has_char(mark, '='));
    lemma_no_equals(mark);
    lemma_no_equals(blank);
    other_lines_are_kept(before, path);
    let a = before.push(line);
    let m = before.push(mark);
    let b = m.push(line);
    let e = before.push(blank);
    let d = e.push(line);
    let em = e.push(mark);
    let c = em.push(line);
    lemma_references_append(a, after, path);
    lemma_references_append(b, after, path);
    lemma_references_append(c, after, path);
    lemma_references_append(d, after, path);
    lemma_references_append(before, seq![mark], path);
    lemma_references_append(before, seq![blank], path);
    lemma_references_append(before, seq![blank, mark], path);
    assert(before + seq![mark] =~= m);
    assert(before + seq![blank] =~= e);
    assert(before + seq![blank, mark] =~= em);
    assert(a.drop_last() =~= before);
    assert(b.drop_last() =~= m);
    assert(c.drop_last() =~= em);
    assert(d.drop_last() =~= e);
    assert(m.drop_last() =~= before);
    assert(em.drop_last() =~= e);
    assert(e.drop_last() =~= before);
    assert(mark.len() > 0);
}

/// Once a configuration is synced, its last line refers to the file and no other line does,
/// or no line does where the shortcut is off. In front of the reference stand the lines
/// that were kept, and then at most a blank line and the mark.
pub proof fn synced_config_refers_once(existing: Seq<char>, path: Seq<char>)
    requires
        quotable(path),
        no_stray_returns(existing),
    ensures
        ({
            let kept = without_references(crate::text::lines(existing), path);
            let on = crate::text::lines(synced_config(existing, path, true));
            let off = crate::text::lines(synced_config(existing, path, false));
            &&& on.len() == kept.len() + (if kept.len() == 0 {
                2int
            } else {
                3int
            })
            &&& on.take(kept.len() as int) == kept
            &&& on.last() == "config-file = \""@ + path + "\""@
            &&& is_reference(on.last(), path)
            &&& on[on.len() - 2] == "# gtab managed include"@
            &&& kept.len() > 0 ==> on[kept.len() as int].len() == 0
            &&& forall|i: int| 0 <= i < on.len() - 1 ==> !is_reference(#[trigger] on[i], path)
            &&& off == kept
            &&& forall|i: int| 0 <= i < off.len() ==> !is_reference(#[trigger] off[i], path)
        }),
{
    reveal_strlit("# gtab managed include");
    let lines = crate::text::lines(existing);
    let kept = without_references(lines, path);
    kept_lines_are_lines(lines, path);
    lemma_lines_hold_no_break(existing);
    assert forall|i: int| 0 <= i < kept.len() implies crate::text::plain_line(#[trigger] kept[i])
        && !is_reference(kept[i], path) by {
        let j = choose|j: int| 0 <= j < lines.len() && lines[j] == kept[i];
        assert(crate::text::lines(existing)[j] == kept[i]);
    }
    lemma_kept_reads_back(kept, path);
    lemma_reference_is_reference(path);
    let mark = "# gtab managed include"@;
    let none = Seq::<char>::empty();
    assert(!crate::text::has_char(mark, '='));
    assert(!crate::text::has_char(none, '='));
    lemma_no_equals(mark);
    lemma_no_equals(none);
    let on = crate::text::lines(synced_config(existing, path, true));
    assert(on.take(kept.len() as int) =~= kept);
    assert forall|i: int| 0 <= i < on.len() - 1 implies !is_reference(#[trigger] on[i], path) by {
        if i < kept.len() {
            assert(on[i] == kept[i]);
        }
    }
}

} // verus!
