//! User preferences: the `[ui]` section of a small TOML file, read and
//! written.
use vstd::prelude::*;
use crate::app::{
    cursor_style_from_word, cursor_style_word, swatch_style_from_word, swatch_style_word,
    CursorStyle, ThemeSwatchStyle,
};
use crate::paths::{join_spec, join_part};
use crate::markdown::opt_view;
use crate::text::{
    push_char, before_char, first_index, free_of, all_free_of, join, is_ws, ws_skip, ws_back, trim_start,
    trim_end, char_skip, char_back, trim_start_char, occurs_at, find_from, lemma_find_from, lemma_split_join, first_index_of, all_digits, ascii_lower_seq, chars_are, chars_of, digits_between, find, find_char, split,
    split_on, string_of, to_ascii_lower, trim, trim_bounds, trim_char, trim_char_bounds,
};

verus! {

/// Preferences read from or written to the configuration file; `None`
/// leaves the built-in default.
#[derive(Clone, Debug, PartialEq, Eq)]
pub struct AppConfig {
    pub theme: Option<String>,
    pub cursor_style: Option<CursorStyle>,
    pub boxed_chrome: Option<bool>,
    pub theme_swatch_style: Option<ThemeSwatchStyle>,
    pub theme_swatch_spacing: Option<usize>,
    pub allow_remote_images: Option<bool>,
}

/// The value an [`AppConfig`] stands for.
pub struct AppConfigView {
    pub theme: Option<Seq<char>>,
    pub cursor_style: Option<CursorStyle>,
    pub boxed_chrome: Option<bool>,
    pub theme_swatch_style: Option<ThemeSwatchStyle>,
    pub theme_swatch_spacing: Option<usize>,
    pub allow_remote_images: Option<bool>,
}

impl DeepView for AppConfig {
    type V = AppConfigView;

    open spec fn deep_view(&self) -> AppConfigView {
        AppConfigView {
            theme: match self.theme {
                Some(t) => Some(t@),
                None => None,
            },
            cursor_style: self.cursor_style,
            boxed_chrome: self.boxed_chrome,
            theme_swatch_style: self.theme_swatch_style,
            theme_swatch_spacing: self.theme_swatch_spacing,
            allow_remote_images: self.allow_remote_images,
        }
    }
}

/// The configuration with nothing set.
pub open spec fn empty_config() -> AppConfigView {
    AppConfigView {
        theme: None,
        cursor_style: None,
        boxed_chrome: None,
        theme_swatch_style: None,
        theme_swatch_spacing: None,
        allow_remote_images: None,
    }
}

impl Default for AppConfig {
    fn default() -> (r: AppConfig)
        ensures
            r.deep_view() == empty_config(),
    {
        AppConfig {
            theme: None,
            cursor_style: None,
            boxed_chrome: None,
            theme_swatch_style: None,
            theme_swatch_spacing: None,
            allow_remote_images: None,
        }
    }
}

// ---------------------------------------------------------------------
// Values

/// The boolean a configuration word stands for.
pub open spec fn parse_bool_spec(raw: Seq<char>) -> Option<bool> {
    let v = ascii_lower_seq(trim(raw));
    if v == "true"@ || v == "yes"@ || v == "1"@ || v == "boxed"@ {
        Some(true)
    } else if v == "false"@ || v == "no"@ || v == "0"@ || v == "smooth"@ {
        Some(false)
    } else {
        None
    }
}

/// The boolean a configuration word stands for: `true`, `yes`, `1` or
/// `boxed`, and `false`, `no`, `0` or `smooth`, in any ASCII case.
pub fn parse_bool(raw: &[char]) -> (r: Option<bool>)
    ensures
        r == parse_bool_spec(raw@),
{
    let (a, b) = trim_bounds(raw);
    let v = to_ascii_lower(&raw[a..b]);
    if chars_are(&v, "true") || chars_are(&v, "yes") || chars_are(&v, "1") || chars_are(
        &v,
        "boxed",
    ) {
        Some(true)
    } else if chars_are(&v, "false") || chars_are(&v, "no") || chars_are(&v, "0") || chars_are(
        &v,
        "smooth",
    ) {
        Some(false)
    } else {
        None
    }
}

/// The number a string of decimal digits stands for.
pub open spec fn decimal(d: Seq<char>) -> nat
    decreases d.len(),
{
    if d.len() == 0 {
        0
    } else {
        decimal(d.drop_last()) * 10 + ((d.last() as u32) - 48) as nat
    }
}

/// `usize::from_str`: an optional `+`, then one or more digits whose value
/// fits in a `usize`.
pub open spec fn parse_usize_spec(s: Seq<char>) -> Option<usize> {
    let d = if s.len() > 0 && s[0] == '+' {
        s.skip(1)
    } else {
        s
    };
    if d.len() > 0 && all_digits(d) && decimal(d) <= usize::MAX {
        Some(decimal(d) as usize)
    } else {
        None
    }
}

/// Parses a `usize` as `str::parse` does.
#[verifier::loop_isolation(false)]
pub fn parse_usize(s: &[char]) -> (r: Option<usize>)
    ensures
        r == parse_usize_spec(s@),
{
    let start: usize = if s.len() > 0 && s[0] == '+' {
        1
    } else {
        0
    };
    let d = &s[start..s.len()];
    assert(d@ == if s@.len() > 0 && s@[0] == '+' {
        s@.skip(1)
    } else {
        s@
    });
    if d.len() == 0 || !digits_between(d, 0, d.len()) {
        assert(d@.subrange(0, d@.len() as int) == d@);
        return None;
    }
    assert(d@.subrange(0, d@.len() as int) == d@);
    let mut n: usize = 0;
    let mut i: usize = 0;
    while i < d.len()
        invariant
            i <= d.len(),
            all_digits(d@),
            n == decimal(d@.take(i as int)),
        decreases d.len() - i,
    {
        assert(d@.take(i + 1).drop_last() == d@.take(i as int));
        let digit = (d[i] as u32 - 48) as usize;
        assert('0' <= d@[i as int] <= '9');
        assert(decimal(d@.take(i + 1)) == n * 10 + digit);
        match n.checked_mul(10) {
            Some(m) => match m.checked_add(digit) {
                Some(v) => {
                    n = v;
                },
                None => {
                    proof {
                        lemma_decimal_grows(d@, i as int + 1);
                    }
                    return None;
                },
            },
            None => {
                proof {
                    lemma_decimal_grows(d@, i as int + 1);
                }
                return None;
            },
        }
        i += 1;
    }
    assert(d@.take(d.len() as int) == d@);
    Some(n)
}

/// A prefix of a digit string never stands for more than the whole.
pub proof fn lemma_decimal_grows(d: Seq<char>, k: int)
    requires
        0 <= k <= d.len(),
        all_digits(d),
    ensures
        decimal(d.take(k)) <= decimal(d),
    decreases d.len() - k,
{
    if k < d.len() {
        lemma_decimal_grows(d, k + 1);
        assert(d.take(k + 1).drop_last() == d.take(k));
        assert('0' <= d[k] <= '9');
    } else {
        assert(d.take(k) == d);
    }
}

// ---------------------------------------------------------------------
// Reading

/// `str::lines`: the text cut at each `\n`, a `\r` before it dropped, and
/// no final empty line.
pub open spec fn str_lines(s: Seq<char>) -> Seq<Seq<char>> {
    let parts = split(s, '\n');
    let n = parts.len() as int;
    let keep = if parts[n - 1].len() == 0 {
        n - 1
    } else {
        n
    };
    Seq::new(
        keep as nat,
        |i: int|
            if i < n - 1 {
                strip_cr(parts[i])
            } else {
                parts[i]
            },
    )
}

/// A line without one trailing `\r`.
pub open spec fn strip_cr(p: Seq<char>) -> Seq<char> {
    if p.len() > 0 && p.last() == '\r' {
        p.drop_last()
    } else {
        p
    }
}

/// A bracket character.
pub open spec fn is_bracket(c: char) -> bool {
    c == '[' || c == ']'
}

/// Index of the first character at or after `i` that is not a bracket.
pub open spec fn bracket_skip(s: Seq<char>, i: int) -> int
    decreases s.len() - i,
{
    if i >= s.len() {
        s.len() as int
    } else if is_bracket(s[i]) {
        bracket_skip(s, i + 1)
    } else {
        i
    }
}

/// Length of `s` once the brackets that end at `j` are cut off.
pub open spec fn bracket_back(s: Seq<char>, j: int) -> int
    decreases j,
{
    if j <= 0 {
        0
    } else if is_bracket(s[j - 1]) {
        bracket_back(s, j - 1)
    } else {
        j
    }
}

/// A section header stripped of its outer brackets.
pub open spec fn section_name(line: Seq<char>) -> Seq<char> {
    let t = line.skip(bracket_skip(line, 0));
    t.take(bracket_back(t, t.len() as int))
}

/// A known section, or none at all: the keys there are read.
pub open spec fn section_read(section: Seq<char>) -> bool {
    section.len() == 0 || section == "ui"@ || section == "editor"@ || section == "theme"@
}

/// The configuration after reading `key = value`.
pub open spec fn apply_key(cfg: AppConfigView, key: Seq<char>, value: Seq<char>) -> AppConfigView {
    if key == "theme"@ || key == "themeName"@ {
        AppConfigView { theme: Some(value), ..cfg }
    } else if key == "cursorStyle"@ || key == "cursor_style"@ {
        AppConfigView { cursor_style: cursor_style_from_word(value), ..cfg }
    } else if key == "boxedChrome"@ || key == "boxed_chrome"@ {
        AppConfigView { boxed_chrome: parse_bool_spec(value), ..cfg }
    } else if key == "themeSwatches"@ || key == "themeSwatchStyle"@ || key == "theme_swatches"@ {
        AppConfigView { theme_swatch_style: swatch_style_from_word(value), ..cfg }
    } else if key == "themeSwatchSpacing"@ || key == "theme_swatch_spacing"@ {
        AppConfigView {
            theme_swatch_spacing: match parse_usize_spec(value) {
                Some(n) => Some(if n < 8 { n } else { 8 }),
                None => None,
            },
            ..cfg
        }
    } else if key == "allowRemoteImages"@ || key == "allow_remote_images"@ {
        AppConfigView { allow_remote_images: parse_bool_spec(value), ..cfg }
    } else {
        cfg
    }
}

/// One line of the file read: the configuration and the current section
/// after it. Text from `#` on is a comment.
pub open spec fn config_step(raw_line: Seq<char>, cfg: AppConfigView, section: Seq<char>) -> (
    AppConfigView,
    Seq<char>,
) {
    let line = trim(before_char(raw_line, '#'));
    if line.len() == 0 {
        (cfg, section)
    } else if line[0] == '[' && line.last() == ']' {
        (cfg, section_name(line))
    } else {
        match find(line, seq!['=']) {
            None => (cfg, section),
            Some(eq) => if !section_read(section) {
                (cfg, section)
            } else {
                let key = trim(line.take(eq));
                let value = trim_char(trim(line.skip(eq + 1)), '"');
                (apply_key(cfg, key, value), section)
            },
        }
    }
}

/// The configuration after reading `lines` in order.
pub open spec fn config_lines(lines: Seq<Seq<char>>, cfg: AppConfigView, section: Seq<char>) -> AppConfigView
    decreases lines.len(),
{
    if lines.len() == 0 {
        cfg
    } else {
        let (c, s) = config_step(lines[0], cfg, section);
        config_lines(lines.drop_first(), c, s)
    }
}

/// The preferences a configuration file holds.
pub open spec fn parse_config_spec(raw: Seq<char>) -> AppConfigView {
    config_lines(str_lines(raw), empty_config(), Seq::empty())
}


/// The lines of a text, as `str::lines` gives them.
fn lines_of(s: &[char]) -> (r: Vec<Vec<char>>)
    ensures
        r.deep_view() == str_lines(s@),
{
    let parts = split_on(s, '\n');
    let ghost ps = split(s@, '\n');
    proof {
        crate::text::lemma_split_nonempty(s@, '\n');
    }
    let n = parts.len();
    let keep = if parts[n - 1].len() == 0 {
        n - 1
    } else {
        n
    };
    assert(parts[n - 1]@ == ps[n - 1]);
    let mut out: Vec<Vec<char>> = Vec::new();
    let mut i: usize = 0;
    while i < keep
        invariant
            i <= keep <= n == parts.len(),
            parts.deep_view() == ps,
            ps == split(s@, '\n'),
            n == ps.len(),
            keep == str_lines(s@).len(),
            out.deep_view() == str_lines(s@).take(i as int),
        decreases keep - i,
    {
        let p = parts[i].as_slice();
        assert(p@ == ps[i as int]);
        let line = if i < n - 1 && p.len() > 0 && p[p.len() - 1] == '\r' {
            assert(p@.subrange(0, p.len() - 1) == p@.drop_last());
            crate::text::copy_range(p, 0, p.len() - 1)
        } else {
            assert(p@.subrange(0, p.len() as int) == p@);
            crate::text::copy_range(p, 0, p.len())
        };
        assert(str_lines(s@)[i as int] == if (i as int) < (n as int) - 1 {
            strip_cr(ps[i as int])
        } else {
            ps[i as int]
        });
        assert(line@ == str_lines(s@)[i as int]);
        let ghost before = out.deep_view();
        assert(line.deep_view() == line@);
        let ghost lv = line@;
        out.push(line);
        assert(out.deep_view() =~= before.push(lv));
        assert(str_lines(s@).take(i + 1) =~= str_lines(s@).take(i as int).push(lv));
        assert(out.deep_view() =~= str_lines(s@).take(i + 1));
        i += 1;
    }
    assert(str_lines(s@).take(keep as int) =~= str_lines(s@));
    out
}

/// Bounds of `section_name(line@)` within `line`.
fn section_bounds(line: &[char]) -> (r: (usize, usize))
    ensures
        r.0 <= r.1 <= line.len(),
        line@.subrange(r.0 as int, r.1 as int) == section_name(line@),
{
    let mut i: usize = 0;
    while i < line.len() && (line[i] == '[' || line[i] == ']')
        invariant
            i <= line.len(),
            bracket_skip(line@, i as int) == bracket_skip(line@, 0),
        decreases line.len() - i,
    {
        i += 1;
    }
    let ghost t = line@.skip(i as int);
    let mut j: usize = line.len();
    while j > i && (line[j - 1] == '[' || line[j - 1] == ']')
        invariant
            i <= j <= line.len(),
            t == line@.skip(i as int),
            bracket_back(t, j - i) == bracket_back(t, t.len() as int),
        decreases j,
    {
        assert(t[j - 1 - i] == line@[j - 1]);
        j -= 1;
    }
    assert(line@.subrange(i as int, j as int) == t.take(j - i));
    (i, j)
}

fn is_any(v: &[char], a: &str, b: &str) -> (r: bool)
    ensures
        r == (v@ == a@ || v@ == b@),
{
    chars_are(v, a) || chars_are(v, b)
}

/// The configuration after reading `key = value`.
fn apply_key_exec(cfg: AppConfig, key: &[char], value: &[char]) -> (r: AppConfig)
    ensures
        r.deep_view() == apply_key(cfg.deep_view(), key@, value@),
{
    let mut cfg = cfg;
    if is_any(key, "theme", "themeName") {
        cfg.theme = Some(string_of(value));
    } else if is_any(key, "cursorStyle", "cursor_style") {
        let v = string_of(value);
        cfg.cursor_style = CursorStyle::from_config_str(v.as_str());
    } else if is_any(key, "boxedChrome", "boxed_chrome") {
        cfg.boxed_chrome = parse_bool(value);
    } else if chars_are(key, "themeSwatches") || chars_are(key, "themeSwatchStyle") || chars_are(
        key,
        "theme_swatches",
    ) {
        let v = string_of(value);
        cfg.theme_swatch_style = ThemeSwatchStyle::from_config_str(v.as_str());
    } else if is_any(key, "themeSwatchSpacing", "theme_swatch_spacing") {
        cfg.theme_swatch_spacing = match parse_usize(value) {
            Some(n) => Some(if n < 8 { n } else { 8 }),
            None => None,
        };
    } else if is_any(key, "allowRemoteImages", "allow_remote_images") {
        cfg.allow_remote_images = parse_bool(value);
    }
    cfg
}

/// The preferences a configuration file holds: keys of the `[ui]`,
/// `[editor]` and `[theme]` sections and of no section; unknown keys,
/// other sections, comments and malformed lines are skipped.
pub fn parse_config(raw: &str) -> (r: AppConfig)
    ensures
        r.deep_view() == parse_config_spec(raw@),
{
    let chars = chars_of(raw);
    let lines = lines_of(chars.as_slice());
    let ghost ls = str_lines(raw@);
    let mut cfg = AppConfig::default();
    let mut section: Vec<char> = Vec::new();
    let mut i: usize = 0;
    assert(ls.skip(0) == ls);
    while i < lines.len()
        invariant
            i <= lines.len(),
            lines.deep_view() == ls,
            config_lines(ls.skip(i as int), cfg.deep_view(), section@) == parse_config_spec(raw@),
        decreases lines.len() - i,
    {
        let raw_line = lines[i].as_slice();
        assert(raw_line@ == ls[i as int]);
        assert(ls.skip(i as int).drop_first() == ls.skip(i + 1));
        let ghost step = config_step(raw_line@, cfg.deep_view(), section@);
        let h = first_index_of(raw_line, '#');
        let (a, b) = trim_bounds(&raw_line[0..h]);
        let line = &raw_line[a..b];
        assert(raw_line@.subrange(0, h as int) == before_char(raw_line@, '#'));
        assert(line@ == trim(before_char(raw_line@, '#')));
        if line.len() == 0 {
            assert(cfg.deep_view() == step.0 && section@ == step.1);
        } else if line[0] == '[' && line[line.len() - 1] == ']' {
            let (sa, sb) = section_bounds(line);
            section = crate::text::copy_range(line, sa, sb);
            assert(cfg.deep_view() == step.0 && section@ == step.1);
        } else {
            assert(!(line@[0] == '[' && line@.last() == ']'));
            match find_char(line, '=') {
                None => {
                    assert(cfg.deep_view() == step.0 && section@ == step.1);
                },
                Some(eq) => {
                    proof {
                        crate::text::lemma_find_from(line@, seq!['='], 0);
                    }
                    assert(find(line@, seq!['=']) == Some(eq as int));
                    let read = section.len() == 0 || chars_are(&section, "ui") || chars_are(
                        &section,
                        "editor",
                    ) || chars_are(&section, "theme");
                    if read {
                        let (ka, kb) = trim_bounds(&line[0..eq]);
                        let key = &line[ka..kb];
                        assert(line@.subrange(0, eq as int) == line@.take(eq as int));
                        let rest = &line[eq + 1..line.len()];
                        assert(rest@ == line@.skip(eq + 1));
                        let (ra, rb) = trim_bounds(rest);
                        let tv = &rest[ra..rb];
                        let (va, vb) = trim_char_bounds(tv, '"');
                        let value = &tv[va..vb];
                        assert(key@ == trim(line@.take(eq as int)));
                        assert(value@ == trim_char(trim(line@.skip(eq + 1)), '"'));
                        assert(section_read(section@));
                        cfg = apply_key_exec(cfg, key, value);
                        assert(cfg.deep_view() == step.0 && section@ == step.1);
                    } else {
                        assert(!section_read(section@));
                        assert(cfg.deep_view() == step.0 && section@ == step.1);
                    }
                },
            }
        }
        assert(cfg.deep_view() == step.0 && section@ == step.1);
        i += 1;
    }
    cfg
}


// ---------------------------------------------------------------------
// Writing

/// A character as a TOML basic string holds it.
pub open spec fn escape_char(c: char) -> Seq<char> {
    if c == '\\' {
        seq!['\\', '\\']
    } else if c == '"' {
        seq!['\\', '"']
    } else {
        seq![c]
    }
}

/// A text with backslashes and double quotes escaped.
pub open spec fn escape_toml(s: Seq<char>) -> Seq<char>
    decreases s.len(),
{
    if s.len() == 0 {
        Seq::empty()
    } else {
        escape_toml(s.drop_last()) + escape_char(s.last())
    }
}

/// The TOML word of a boolean.
pub open spec fn bool_word(b: bool) -> Seq<char> {
    if b {
        "true"@
    } else {
        "false"@
    }
}

/// The decimal digit of a number below ten.
pub open spec fn digit_char(n: usize) -> char {
    (48 + n) as char
}

/// The spacing as written: at most eight.
pub open spec fn capped_spacing(n: usize) -> usize {
    if n < 8 {
        n
    } else {
        8
    }
}

/// The `theme` line, if a theme is set.
pub open spec fn theme_part(t: Option<Seq<char>>) -> Seq<char> {
    match t {
        Some(t) => "theme = \""@ + escape_toml(t) + "\"\n"@,
        None => Seq::empty(),
    }
}

/// The `cursorStyle` line, if a style is set.
pub open spec fn cursor_part(c: Option<CursorStyle>) -> Seq<char> {
    match c {
        Some(cs) => "cursorStyle = \""@ + cursor_style_word(cs) + "\"\n"@,
        None => Seq::empty(),
    }
}

/// The `boxedChrome` line, if set.
pub open spec fn boxed_part(b: Option<bool>) -> Seq<char> {
    match b {
        Some(b) => "boxedChrome = "@ + bool_word(b) + "\n"@,
        None => Seq::empty(),
    }
}

/// The `themeSwatches` line, if set.
pub open spec fn swatch_part(s: Option<ThemeSwatchStyle>) -> Seq<char> {
    match s {
        Some(sw) => "themeSwatches = \""@ + swatch_style_word(sw) + "\"\n"@,
        None => Seq::empty(),
    }
}

/// The `themeSwatchSpacing` line, if set.
pub open spec fn spacing_part(n: Option<usize>) -> Seq<char> {
    match n {
        Some(n) => "themeSwatchSpacing = "@ + seq![digit_char(capped_spacing(n))] + "\n"@,
        None => Seq::empty(),
    }
}

/// The `allowRemoteImages` line, if set.
pub open spec fn remote_part(b: Option<bool>) -> Seq<char> {
    match b {
        Some(b) => "allowRemoteImages = "@ + bool_word(b) + "\n"@,
        None => Seq::empty(),
    }
}

/// The configuration file text for a set of preferences: a comment, the
/// `[ui]` header, and one line for each preference that is set.
pub open spec fn to_toml_spec(c: AppConfigView) -> Seq<char> {
    "# poneglyph user preferences\n\n[ui]\n"@ + theme_part(c.theme) + cursor_part(c.cursor_style)
        + boxed_part(c.boxed_chrome) + swatch_part(c.theme_swatch_style) + spacing_part(
        c.theme_swatch_spacing,
    ) + remote_part(c.allow_remote_images)
}

/// A text with backslashes and double quotes escaped for a TOML string.
pub fn escape_toml_string(raw: &str) -> (r: String)
    ensures
        r@ == escape_toml(raw@),
{
    let chars = chars_of(raw);
    let mut out = String::new();
    let mut i: usize = 0;
    while i < chars.len()
        invariant
            i <= chars.len(),
            chars@ == raw@,
            out@ == escape_toml(chars@.take(i as int)),
        decreases chars.len() - i,
    {
        let c = chars[i];
        assert(chars@.take(i + 1).drop_last() == chars@.take(i as int));
        if c == '\\' {
            push_char(&mut out, '\\');
            push_char(&mut out, '\\');
        } else if c == '"' {
            push_char(&mut out, '\\');
            push_char(&mut out, '"');
        } else {
            push_char(&mut out, c);
        }
        assert(out@ =~= escape_toml(chars@.take(i + 1)));
        i += 1;
    }
    assert(chars@.take(chars.len() as int) == chars@);
    out
}

fn append_bool(out: &mut String, b: bool)
    ensures
        final(out)@ == old(out)@ + bool_word(b),
{
    if b {
        out.append("true");
    } else {
        out.append("false");
    }
}

fn append_theme(out: &mut String, t: &Option<String>)
    ensures
        final(out)@ == old(out)@ + theme_part(opt_string_view(*t)),
{
    match t {
        Some(theme) => {
            let ghost o = out@;
            out.append("theme = \"");
            let e = escape_toml_string(theme.as_str());
            out.append(e.as_str());
            out.append("\"\n");
            assert(out@ =~= o + theme_part(opt_string_view(*t)));
        },
        None => {
            assert(out@ =~= out@ + theme_part(opt_string_view(*t)));
        },
    }
}

fn append_cursor(out: &mut String, c: Option<CursorStyle>)
    ensures
        final(out)@ == old(out)@ + cursor_part(c),
{
    match c {
        Some(cs) => {
            let ghost o = out@;
            out.append("cursorStyle = \"");
            out.append(cs.as_config_str());
            out.append("\"\n");
            assert(out@ =~= o + cursor_part(c));
        },
        None => {
            assert(out@ =~= out@ + cursor_part(c));
        },
    }
}

fn append_boxed(out: &mut String, b: Option<bool>)
    ensures
        final(out)@ == old(out)@ + boxed_part(b),
{
    match b {
        Some(v) => {
            let ghost o = out@;
            out.append("boxedChrome = ");
            append_bool(out, v);
            out.append("\n");
            assert(out@ =~= o + boxed_part(b));
        },
        None => {
            assert(out@ =~= out@ + boxed_part(b));
        },
    }
}

fn append_swatch(out: &mut String, s: Option<ThemeSwatchStyle>)
    ensures
        final(out)@ == old(out)@ + swatch_part(s),
{
    match s {
        Some(sw) => {
            let ghost o = out@;
            out.append("themeSwatches = \"");
            out.append(sw.as_config_str());
            out.append("\"\n");
            assert(out@ =~= o + swatch_part(s));
        },
        None => {
            assert(out@ =~= out@ + swatch_part(s));
        },
    }
}

fn append_spacing(out: &mut String, n: Option<usize>)
    ensures
        final(out)@ == old(out)@ + spacing_part(n),
{
    match n {
        Some(v) => {
            let ghost o = out@;
            out.append("themeSwatchSpacing = ");
            let m: usize = if v < 8 { v } else { 8 };
            let d: u8 = 48u8 + (m as u8);
            push_char(out, d as char);
            out.append("\n");
            assert(out@ =~= o + spacing_part(n));
        },
        None => {
            assert(out@ =~= out@ + spacing_part(n));
        },
    }
}

fn append_remote(out: &mut String, b: Option<bool>)
    ensures
        final(out)@ == old(out)@ + remote_part(b),
{
    match b {
        Some(v) => {
            let ghost o = out@;
            out.append("allowRemoteImages = ");
            append_bool(out, v);
            out.append("\n");
            assert(out@ =~= o + remote_part(b));
        },
        None => {
            assert(out@ =~= out@ + remote_part(b));
        },
    }
}

/// The view of an optional string.
pub open spec fn opt_string_view(o: Option<String>) -> Option<Seq<char>> {
    match o {
        Some(s) => Some(s@),
        None => None,
    }
}

impl AppConfig {
    /// The configuration file text for these preferences.
    pub fn to_toml(&self) -> (r: String)
        ensures
            r@ == to_toml_spec(self.deep_view()),
    {
        let mut out = String::from_str("# poneglyph user preferences\n\n[ui]\n");
        append_theme(&mut out, &self.theme);
        append_cursor(&mut out, self.cursor_style);
        append_boxed(&mut out, self.boxed_chrome);
        append_swatch(&mut out, self.theme_swatch_style);
        append_spacing(&mut out, self.theme_swatch_spacing);
        append_remote(&mut out, self.allow_remote_images);
        assert(opt_string_view(self.theme) == self.deep_view().theme);
        out
    }
}


// ---------------------------------------------------------------------
// Reading back what was written

/// The text of `ls`, each line ended by a newline.
pub open spec fn text_of(ls: Seq<Seq<char>>) -> Seq<char> {
    join(ls.push(Seq::<char>::empty()), '\n')
}

proof fn lemma_text_push(ls: Seq<Seq<char>>, l: Seq<char>)
    ensures
        text_of(ls.push(l)) == text_of(ls) + l.push('\n'),
{
    let e = Seq::<char>::empty();
    let p = ls.push(l).push(e);
    assert(p.drop_last() =~= ls.push(l));
    assert(p.last() == e);
    assert(ls.push(l).drop_last() =~= ls);
    assert(ls.push(l).last() == l);
    assert(ls.push(e).drop_last() =~= ls);
    assert(join(p, '\n') == join(ls.push(l), '\n').push('\n') + e);
    assert(join(ls.push(l), '\n').push('\n') + e =~= join(ls.push(l), '\n').push('\n'));
    if ls.len() == 0 {
        assert(ls.push(e) =~= seq![e]);
        assert(ls.push(l) =~= seq![l]);
        assert(text_of(ls) == e);
        assert(join(ls.push(l), '\n') == l);
        assert(text_of(ls.push(l)) =~= l.push('\n'));
        assert(text_of(ls) + l.push('\n') =~= l.push('\n'));
    } else {
        assert(join(ls.push(e), '\n') == join(ls, '\n').push('\n') + e);
        assert(text_of(ls) =~= join(ls, '\n').push('\n'));
        assert(join(ls.push(l), '\n') == join(ls, '\n').push('\n') + l);
        assert(text_of(ls.push(l)) =~= (join(ls, '\n').push('\n') + l).push('\n'));
        assert(text_of(ls.push(l)) =~= text_of(ls) + l.push('\n'));
    }
}

proof fn lemma_text_concat(a: Seq<Seq<char>>, b: Seq<Seq<char>>)
    ensures
        text_of(a + b) == text_of(a) + text_of(b),
    decreases b.len(),
{
    let e = Seq::<char>::empty();
    if b.len() == 0 {
        assert(a + b =~= a);
        assert(b.push(e) =~= seq![e]);
        assert(text_of(b) == e);
        assert(text_of(a) + text_of(b) =~= text_of(a));
    } else {
        let b0 = b.drop_last();
        lemma_text_concat(a, b0);
        assert(a + b =~= (a + b0).push(b.last()));
        assert(b =~= b0.push(b.last()));
        lemma_text_push(a + b0, b.last());
        lemma_text_push(b0, b.last());
        assert(text_of(a + b) =~= text_of(a) + text_of(b));
    }
}

proof fn lemma_text_one(l: Seq<char>)
    ensures
        text_of(seq![l]) == l.push('\n'),
{
    lemma_text_push(Seq::<Seq<char>>::empty(), l);
    assert(Seq::<Seq<char>>::empty().push(l) =~= seq![l]);
    assert(Seq::<Seq<char>>::empty().push(Seq::<char>::empty()) =~= seq![Seq::<char>::empty()]);
    assert(text_of(Seq::<Seq<char>>::empty()) == Seq::<char>::empty());
    assert(Seq::<char>::empty() + l.push('\n') =~= l.push('\n'));
}

/// A line that a carriage return does not end.
pub open spec fn no_cr_end(l: Seq<char>) -> bool {
    l.len() == 0 || l.last() != '\r'
}

proof fn lemma_lines_of_text(ls: Seq<Seq<char>>)
    requires
        all_free_of(ls, '\n'),
        forall|i: int| 0 <= i < ls.len() ==> no_cr_end(#[trigger] ls[i]),
    ensures
        str_lines(text_of(ls)) == ls,
{
    let e = Seq::<char>::empty();
    let p = ls.push(e);
    assert forall|i: int| 0 <= i < p.len() implies free_of(#[trigger] p[i], '\n') by {
        if i < ls.len() {
            assert(p[i] == ls[i]);
        }
    }
    lemma_split_join(p, '\n');
    let parts = split(text_of(ls), '\n');
    assert(parts == p);
    assert(parts[parts.len() - 1].len() == 0);
    let r = str_lines(text_of(ls));
    assert(r.len() == ls.len());
    assert forall|i: int| 0 <= i < ls.len() implies r[i] == ls[i] by {
        assert(parts[i] == ls[i]);
        assert(no_cr_end(ls[i]));
    }
    assert(r =~= ls);
}


proof fn lemma_first_index_free(s: Seq<char>, c: char, i: int)
    requires
        0 <= i,
        free_of(s, c),
    ensures
        first_index(s, c, i) == s.len(),
    decreases s.len() - i,
{
    if i < s.len() {
        lemma_first_index_free(s, c, i + 1);
    }
}

proof fn lemma_trim_fixed(s: Seq<char>)
    requires
        s.len() > 0,
        !is_ws(s[0]),
        !is_ws(s.last()),
    ensures
        trim(s) == s,
        trim_start(s) == s,
{
    assert(ws_skip(s, 0) == 0);
    assert(trim_start(s) =~= s);
    assert(ws_back(s, s.len() as int) == s.len());
    assert(trim_end(s) =~= s);
}

proof fn lemma_trim_key(k: Seq<char>)
    requires
        k.len() > 0,
        !is_ws(k[0]),
        !is_ws(k.last()),
    ensures
        trim(k.push(' ')) == k,
{
    let s = k.push(' ');
    assert(s[0] == k[0]);
    assert(ws_skip(s, 0) == 0);
    assert(trim_start(s) =~= s);
    assert(is_ws(s[s.len() - 1]));
    assert(s[k.len() - 1] == k.last());
    assert(ws_back(s, k.len() as int) == k.len());
    assert(ws_back(s, s.len() as int) == k.len());
    assert(s.take(k.len() as int) =~= k);
}

proof fn lemma_trim_value(v: Seq<char>)
    requires
        v.len() > 0,
        !is_ws(v[0]),
        !is_ws(v.last()),
    ensures
        trim(seq![' '] + v) == v,
{
    let s = seq![' '] + v;
    assert(s[0] == ' ');
    assert(s[1] == v[0]);
    assert(ws_skip(s, 1) == 1);
    assert(ws_skip(s, 0) == 1);
    assert(trim_start(s) =~= v);
    lemma_trim_fixed(v);
}

proof fn lemma_unquote(t: Seq<char>)
    requires
        free_of(t, '"'),
    ensures
        trim_char(seq!['"'] + t + seq!['"'], '"') == t,
{
    let v = seq!['"'] + t + seq!['"'];
    if t.len() == 0 {
        assert(v[0] == '"');
        assert(v[1] == '"');
        assert(v.len() == 2);
        assert(char_skip(v, '"', 2) == 2);
        assert(char_skip(v, '"', 1) == 2);
        assert(char_skip(v, '"', 0) == 2);
        let u = trim_start_char(v, '"');
        assert(u.len() == 0);
        assert(char_back(u, '"', 0) == 0);
        assert(trim_char(v, '"') =~= t);
    } else {
        assert(v[1] == t[0]);
        assert(char_skip(v, '"', 1) == 1);
        assert(char_skip(v, '"', 0) == 1);
        let u = trim_start_char(v, '"');
        assert(u =~= t + seq!['"']);
        assert(u[u.len() - 1] == '"');
        assert(u[t.len() - 1] == t.last());
        assert(char_back(u, '"', t.len() as int) == t.len());
        assert(char_back(u, '"', u.len() as int) == t.len());
        assert(u.take(t.len() as int) =~= t);
    }
}

proof fn lemma_bare(w: Seq<char>)
    requires
        w.len() > 0,
        w[0] != '"',
        w.last() != '"',
    ensures
        trim_char(w, '"') == w,
{
    assert(char_skip(w, '"', 0) == 0);
    assert(trim_start_char(w, '"') =~= w);
    assert(char_back(w, '"', w.len() as int) == w.len());
    assert(w.take(w.len() as int) =~= w);
}

/// A `key = value` line read in a known section.
proof fn lemma_kv_step(k: Seq<char>, v: Seq<char>, cfg: AppConfigView, sec: Seq<char>)
    requires
        k.len() > 0,
        free_of(k, '='),
        free_of(k, '#'),
        k[0] != '[',
        !is_ws(k[0]),
        !is_ws(k.last()),
        v.len() > 0,
        free_of(v, '#'),
        !is_ws(v[0]),
        !is_ws(v.last()),
        section_read(sec),
    ensures
        config_step(k + " = "@ + v, cfg, sec) == (apply_key(cfg, k, trim_char(v, '"')), sec),
{
    reveal_strlit(" = ");
    let line = k + " = "@ + v;
    let n = k.len() as int;
    assert(line.len() == n + 3 + v.len());
    assert forall|i: int| 0 <= i < line.len() implies #[trigger] line[i] != '#' by {
        if i < n {
            assert(line[i] == k[i]);
        } else if i >= n + 3 {
            assert(line[i] == v[i - n - 3]);
        }
    }
    lemma_first_index_free(line, '#', 0);
    assert(before_char(line, '#') =~= line);
    assert(line[0] == k[0]);
    assert(line.last() == v.last());
    lemma_trim_fixed(line);
    let m = n + 1;
    assert(line[m] == '=');
    assert(line.subrange(m, m + 1) =~= seq!['=']);
    assert(occurs_at(line, seq!['='], m));
    lemma_find_from(line, seq!['='], 0);
    match find_from(line, seq!['='], 0) {
        Some(j) => {
            if j < m {
                assert(occurs_at(line, seq!['='], j));
                assert(line.subrange(j, j + 1)[0] == line[j]);
                if j < n {
                    assert(line[j] == k[j]);
                } else {
                    assert(line[j] == ' ');
                }
            }
            if j > m {
                assert(!occurs_at(line, seq!['='], m));
            }
        },
        None => {
            assert(!occurs_at(line, seq!['='], m));
        },
    }
    assert(find(line, seq!['=']) == Some(m));
    assert(line.take(m) =~= k.push(' '));
    lemma_trim_key(k);
    assert(line.skip(m + 1) =~= seq![' '] + v);
    lemma_trim_value(v);
}


proof fn lemma_lines_cons(l: Seq<char>, rest: Seq<Seq<char>>, cfg: AppConfigView, sec: Seq<char>)
    ensures
        config_lines(seq![l] + rest, cfg, sec) == config_lines(
            rest,
            config_step(l, cfg, sec).0,
            config_step(l, cfg, sec).1,
        ),
{
    let s = seq![l] + rest;
    assert(s[0] == l);
    assert(s.drop_first() =~= rest);
}

/// A text between double quotes.
pub open spec fn quoted(w: Seq<char>) -> Seq<char> {
    seq!['"'] + w + seq!['"']
}

/// The line `key = value` for a preference that is set.
pub open spec fn opt_line(k: Seq<char>, v: Option<Seq<char>>) -> Seq<Seq<char>> {
    match v {
        Some(v) => seq![k + " = "@ + v],
        None => seq![],
    }
}

/// What a preference reads as once `key = value` is applied, if set.
pub open spec fn apply_opt(cfg: AppConfigView, k: Seq<char>, v: Option<Seq<char>>) -> AppConfigView {
    match v {
        Some(v) => apply_key(cfg, k, trim_char(v, '"')),
        None => cfg,
    }
}

/// A key the reader finds in a `key = value` line.
pub open spec fn plain_key(k: Seq<char>) -> bool {
    &&& k.len() > 0
    &&& free_of(k, '=')
    &&& free_of(k, '#')
    &&& free_of(k, '\n')
    &&& k[0] != '['
    &&& !is_ws(k[0])
    &&& !is_ws(k.last())
}

/// A value the reader finds whole in a `key = value` line.
pub open spec fn plain_value(v: Seq<char>) -> bool {
    &&& v.len() > 0
    &&& free_of(v, '#')
    &&& free_of(v, '\n')
    &&& !is_ws(v[0])
    &&& !is_ws(v.last())
    &&& v.last() != '\r'
}

proof fn lemma_opt_step(
    k: Seq<char>,
    v: Option<Seq<char>>,
    rest: Seq<Seq<char>>,
    cfg: AppConfigView,
    sec: Seq<char>,
)
    requires
        section_read(sec),
        plain_key(k),
        v matches Some(w) ==> plain_value(w),
    ensures
        config_lines(opt_line(k, v) + rest, cfg, sec) == config_lines(rest, apply_opt(cfg, k, v), sec),
{
    match v {
        Some(w) => {
            lemma_kv_step(k, w, cfg, sec);
            lemma_lines_cons(k + " = "@ + w, rest, cfg, sec);
        },
        None => {
            assert(opt_line(k, v) + rest =~= rest);
        },
    }
}

proof fn lemma_opt_line_ok(k: Seq<char>, v: Option<Seq<char>>)
    requires
        plain_key(k),
        v matches Some(w) ==> plain_value(w),
    ensures
        all_free_of(opt_line(k, v), '\n'),
        forall|i: int| 0 <= i < opt_line(k, v).len() ==> no_cr_end(#[trigger] opt_line(k, v)[i]),
{
    reveal_strlit(" = ");
    match v {
        Some(w) => {
            let l = k + " = "@ + w;
            assert(opt_line(k, v)[0] == l);
            assert forall|i: int| 0 <= i < l.len() implies #[trigger] l[i] != '\n' by {
                if i < k.len() {
                    assert(l[i] == k[i]);
                } else if i >= k.len() + 3 {
                    assert(l[i] == w[i - k.len() - 3]);
                }
            }
            assert(l.last() == w.last());
        },
        None => {},
    }
}

proof fn lemma_opt_text(k: Seq<char>, v: Option<Seq<char>>)
    ensures
        text_of(opt_line(k, v)) == match v {
            Some(w) => (k + " = "@ + w).push('\n'),
            None => Seq::<char>::empty(),
        },
{
    match v {
        Some(w) => {
            lemma_text_one(k + " = "@ + w);
        },
        None => {
            assert(opt_line(k, v).push(Seq::<char>::empty()) =~= seq![Seq::<char>::empty()]);
        },
    }
}


proof fn lemma_escape_plain(t: Seq<char>)
    requires
        free_of(t, '"'),
        free_of(t, '\\'),
    ensures
        escape_toml(t) == t,
    decreases t.len(),
{
    if t.len() > 0 {
        let t0 = t.drop_last();
        assert forall|k: int| 0 <= k < t0.len() implies #[trigger] t0[k] != '"' && t0[k] != '\\' by {
            assert(t0[k] == t[k]);
        }
        lemma_escape_plain(t0);
        assert(t.last() == t[t.len() - 1]);
        assert(t0 + seq![t.last()] =~= t);
    }
}

/// The value written for the theme.
pub open spec fn theme_value(t: Option<Seq<char>>) -> Option<Seq<char>> {
    match t {
        Some(t) => Some(quoted(escape_toml(t))),
        None => None,
    }
}

/// The value written for the cursor style.
pub open spec fn cursor_value(c: Option<CursorStyle>) -> Option<Seq<char>> {
    match c {
        Some(cs) => Some(quoted(cursor_style_word(cs))),
        None => None,
    }
}

/// The value written for a yes-or-no preference.
pub open spec fn bool_value(b: Option<bool>) -> Option<Seq<char>> {
    match b {
        Some(b) => Some(bool_word(b)),
        None => None,
    }
}

/// The value written for the swatch style.
pub open spec fn swatch_value(s: Option<ThemeSwatchStyle>) -> Option<Seq<char>> {
    match s {
        Some(sw) => Some(quoted(swatch_style_word(sw))),
        None => None,
    }
}

/// The value written for the swatch spacing.
pub open spec fn spacing_value(n: Option<usize>) -> Option<Seq<char>> {
    match n {
        Some(n) => Some(seq![digit_char(capped_spacing(n))]),
        None => None,
    }
}

/// The lines of the configuration file written for `c`.
pub open spec fn toml_lines(c: AppConfigView) -> Seq<Seq<char>> {
    seq!["# poneglyph user preferences"@, Seq::<char>::empty(), "[ui]"@] + (opt_line(
        "theme"@,
        theme_value(c.theme),
    ) + (opt_line("cursorStyle"@, cursor_value(c.cursor_style)) + (opt_line(
        "boxedChrome"@,
        bool_value(c.boxed_chrome),
    ) + (opt_line("themeSwatches"@, swatch_value(c.theme_swatch_style)) + (opt_line(
        "themeSwatchSpacing"@,
        spacing_value(c.theme_swatch_spacing),
    ) + opt_line("allowRemoteImages"@, bool_value(c.allow_remote_images)))))))
}

proof fn lemma_header_text()
    ensures
        text_of(seq!["# poneglyph user preferences"@, Seq::<char>::empty(), "[ui]"@])
            == "# poneglyph user preferences\n\n[ui]\n"@,
{
    reveal_strlit("# poneglyph user preferences\n\n[ui]\n");
    reveal_strlit("# poneglyph user preferences");
    reveal_strlit("[ui]");
    let e = Seq::<char>::empty();
    let h1 = "# poneglyph user preferences"@;
    lemma_text_one(h1);
    lemma_text_push(seq![h1], e);
    assert(seq![h1].push(e) =~= seq![h1, e]);
    lemma_text_push(seq![h1, e], "[ui]"@);
    assert(seq![h1, e].push("[ui]"@) =~= seq![h1, e, "[ui]"@]);
    assert(text_of(seq![h1, e, "[ui]"@]) =~= "# poneglyph user preferences\n\n[ui]\n"@);
}

proof fn lemma_theme_text(t: Option<Seq<char>>)
    ensures
        text_of(opt_line("theme"@, theme_value(t))) == theme_part(t),
{
    reveal_strlit(" = ");
    reveal_strlit("theme");
    reveal_strlit("theme = \"");
    reveal_strlit("\"\n");
    lemma_opt_text("theme"@, theme_value(t));
    assert(text_of(opt_line("theme"@, theme_value(t))) =~= theme_part(t));
}

proof fn lemma_cursor_text(c: Option<CursorStyle>)
    ensures
        text_of(opt_line("cursorStyle"@, cursor_value(c))) == cursor_part(c),
{
    reveal_strlit(" = ");
    reveal_strlit("cursorStyle");
    reveal_strlit("cursorStyle = \"");
    reveal_strlit("\"\n");
    lemma_opt_text("cursorStyle"@, cursor_value(c));
    assert(text_of(opt_line("cursorStyle"@, cursor_value(c))) =~= cursor_part(c));
}

proof fn lemma_boxed_text(b: Option<bool>)
    ensures
        text_of(opt_line("boxedChrome"@, bool_value(b))) == boxed_part(b),
{
    reveal_strlit(" = ");
    reveal_strlit("boxedChrome");
    reveal_strlit("boxedChrome = ");
    reveal_strlit("\n");
    lemma_opt_text("boxedChrome"@, bool_value(b));
    assert(text_of(opt_line("boxedChrome"@, bool_value(b))) =~= boxed_part(b));
}

proof fn lemma_swatch_text(w: Option<ThemeSwatchStyle>)
    ensures
        text_of(opt_line("themeSwatches"@, swatch_value(w))) == swatch_part(w),
{
    reveal_strlit(" = ");
    reveal_strlit("themeSwatches");
    reveal_strlit("themeSwatches = \"");
    reveal_strlit("\"\n");
    lemma_opt_text("themeSwatches"@, swatch_value(w));
    assert(text_of(opt_line("themeSwatches"@, swatch_value(w))) =~= swatch_part(w));
}

proof fn lemma_spacing_text(n: Option<usize>)
    ensures
        text_of(opt_line("themeSwatchSpacing"@, spacing_value(n))) == spacing_part(n),
{
    reveal_strlit(" = ");
    reveal_strlit("themeSwatchSpacing");
    reveal_strlit("themeSwatchSpacing = ");
    reveal_strlit("\n");
    lemma_opt_text("themeSwatchSpacing"@, spacing_value(n));
    assert(text_of(opt_line("themeSwatchSpacing"@, spacing_value(n))) =~= spacing_part(n));
}

proof fn lemma_remote_text(b: Option<bool>)
    ensures
        text_of(opt_line("allowRemoteImages"@, bool_value(b))) == remote_part(b),
{
    reveal_strlit(" = ");
    reveal_strlit("allowRemoteImages");
    reveal_strlit("allowRemoteImages = ");
    reveal_strlit("\n");
    lemma_opt_text("allowRemoteImages"@, bool_value(b));
    assert(text_of(opt_line("allowRemoteImages"@, bool_value(b))) =~= remote_part(b));
}

#[verifier::spinoff_prover]
#[verifier::rlimit(40)]
proof fn lemma_toml_text(c: AppConfigView)
    ensures
        to_toml_spec(c) == text_of(toml_lines(c)),
{
    let h = seq!["# poneglyph user preferences"@, Seq::<char>::empty(), "[ui]"@];
    let a = opt_line("theme"@, theme_value(c.theme));
    let b = opt_line("cursorStyle"@, cursor_value(c.cursor_style));
    let d = opt_line("boxedChrome"@, bool_value(c.boxed_chrome));
    let f = opt_line("themeSwatches"@, swatch_value(c.theme_swatch_style));
    let g = opt_line("themeSwatchSpacing"@, spacing_value(c.theme_swatch_spacing));
    let r = opt_line("allowRemoteImages"@, bool_value(c.allow_remote_images));
    lemma_header_text();
    lemma_theme_text(c.theme);
    lemma_cursor_text(c.cursor_style);
    lemma_boxed_text(c.boxed_chrome);
    lemma_swatch_text(c.theme_swatch_style);
    lemma_spacing_text(c.theme_swatch_spacing);
    lemma_remote_text(c.allow_remote_images);
    lemma_text_concat(g, r);
    lemma_text_concat(f, g + r);
    lemma_text_concat(d, f + (g + r));
    lemma_text_concat(b, d + (f + (g + r)));
    lemma_text_concat(a, b + (d + (f + (g + r))));
    lemma_text_concat(h, a + (b + (d + (f + (g + r)))));
    assert(to_toml_spec(c) =~= text_of(toml_lines(c)));
}


proof fn lemma_header_read(rest: Seq<Seq<char>>, cfg: AppConfigView)
    ensures
        config_lines(
            seq!["# poneglyph user preferences"@, Seq::<char>::empty(), "[ui]"@] + rest,
            cfg,
            Seq::<char>::empty(),
        ) == config_lines(rest, cfg, "ui"@),
{
    reveal_strlit("# poneglyph user preferences");
    reveal_strlit("[ui]");
    reveal_strlit("ui");
    let e = Seq::<char>::empty();
    let h1 = "# poneglyph user preferences"@;
    let ui = "[ui]"@;
    assert(seq![h1, e, ui] + rest =~= seq![h1] + (seq![e] + (seq![ui] + rest)));
    lemma_lines_cons(h1, seq![e] + (seq![ui] + rest), cfg, e);
    assert(h1[0] == '#');
    assert(first_index(h1, '#', 0) == 0);
    assert(before_char(h1, '#') =~= e);
    assert(ws_skip(e, 0) == 0);
    assert(ws_back(e, 0) == 0);
    assert(trim(e).len() == 0);
    assert(config_step(h1, cfg, e) == (cfg, e));
    lemma_lines_cons(e, seq![ui] + rest, cfg, e);
    assert(first_index(e, '#', 0) == 0);
    assert(before_char(e, '#') =~= e);
    assert(config_step(e, cfg, e) == (cfg, e));
    lemma_lines_cons(ui, rest, cfg, e);
    assert(free_of(ui, '#'));
    lemma_first_index_free(ui, '#', 0);
    assert(before_char(ui, '#') =~= ui);
    lemma_trim_fixed(ui);
    assert(bracket_skip(ui, 1) == 1);
    assert(bracket_skip(ui, 0) == 1);
    let t = ui.skip(1);
    assert(t =~= seq!['u', 'i', ']']);
    assert(bracket_back(t, 2) == 2);
    assert(bracket_back(t, 3) == 2);
    assert(section_name(ui) =~= "ui"@);
    assert(config_step(ui, cfg, e) == (cfg, "ui"@));
}

/// Every line free of newlines and not ended by a carriage return.
pub open spec fn lines_ok(ls: Seq<Seq<char>>) -> bool {
    &&& all_free_of(ls, '\n')
    &&& forall|i: int| 0 <= i < ls.len() ==> no_cr_end(#[trigger] ls[i])
}

proof fn lemma_lines_ok_concat(a: Seq<Seq<char>>, b: Seq<Seq<char>>)
    requires
        lines_ok(a),
        lines_ok(b),
    ensures
        lines_ok(a + b),
{
    let s = a + b;
    assert forall|i: int| 0 <= i < s.len() implies free_of(#[trigger] s[i], '\n') && no_cr_end(s[i]) by {
        if i < a.len() {
            assert(s[i] == a[i]);
        } else {
            assert(s[i] == b[i - a.len()]);
        }
    }
}

proof fn lemma_keys_plain()
    ensures
        plain_key("theme"@),
        plain_key("cursorStyle"@),
        plain_key("boxedChrome"@),
        plain_key("themeSwatches"@),
        plain_key("themeSwatchSpacing"@),
        plain_key("allowRemoteImages"@),
{
    reveal_strlit("theme");
    reveal_strlit("cursorStyle");
    reveal_strlit("boxedChrome");
    reveal_strlit("themeSwatches");
    reveal_strlit("themeSwatchSpacing");
    reveal_strlit("allowRemoteImages");
}

/// A theme name that the file keeps as it is: no `#`, double quote,
/// backslash or line break in it.
pub open spec fn theme_writable(t: Option<Seq<char>>) -> bool {
    t matches Some(x) ==> free_of(x, '#') && free_of(x, '"') && free_of(x, '\\') && free_of(x, '\n')
}

proof fn lemma_quoted_plain(x: Seq<char>)
    requires
        free_of(x, '#'),
        free_of(x, '\n'),
    ensures
        plain_value(quoted(x)),
{
    let v = quoted(x);
    assert forall|i: int| 0 <= i < v.len() implies #[trigger] v[i] != '#' && v[i] != '\n' by {
        if 0 < i < v.len() - 1 {
            assert(v[i] == x[i - 1]);
        }
    }
}

proof fn lemma_words_plain(cs: CursorStyle, sw: ThemeSwatchStyle, b: bool, n: usize)
    ensures
        plain_value(quoted(cursor_style_word(cs))),
        plain_value(quoted(swatch_style_word(sw))),
        plain_value(bool_word(b)),
        plain_value(seq![digit_char(capped_spacing(n))]),
        free_of(cursor_style_word(cs), '"'),
        free_of(swatch_style_word(sw), '"'),
{
    reveal_strlit("brackets");
    reveal_strlit("block");
    reveal_strlit("bar");
    reveal_strlit("underline");
    reveal_strlit("box");
    reveal_strlit("off");
    reveal_strlit("circle");
    reveal_strlit("square");
    reveal_strlit("true");
    reveal_strlit("false");
    lemma_quoted_plain(cursor_style_word(cs));
    lemma_quoted_plain(swatch_style_word(sw));
    let d = digit_char(capped_spacing(n));
    assert(48 <= d as u32 <= 56);
}

proof fn lemma_toml_lines_ok(c: AppConfigView)
    requires
        theme_writable(c.theme),
    ensures
        lines_ok(toml_lines(c)),
{
    reveal_strlit("# poneglyph user preferences");
    reveal_strlit("[ui]");
    lemma_keys_plain();
    let cs = match c.cursor_style {
        Some(x) => x,
        None => CursorStyle::Block,
    };
    let sw = match c.theme_swatch_style {
        Some(x) => x,
        None => ThemeSwatchStyle::Off,
    };
    let bb = match c.boxed_chrome {
        Some(x) => x,
        None => false,
    };
    let rb = match c.allow_remote_images {
        Some(x) => x,
        None => false,
    };
    let n = match c.theme_swatch_spacing {
        Some(x) => x,
        None => 0,
    };
    lemma_words_plain(cs, sw, bb, n);
    lemma_words_plain(cs, sw, rb, n);
    match c.theme {
        Some(x) => {
            lemma_escape_plain(x);
            lemma_quoted_plain(x);
        },
        None => {},
    }
    let h = seq!["# poneglyph user preferences"@, Seq::<char>::empty(), "[ui]"@];
    let a = opt_line("theme"@, theme_value(c.theme));
    let b = opt_line("cursorStyle"@, cursor_value(c.cursor_style));
    let d = opt_line("boxedChrome"@, bool_value(c.boxed_chrome));
    let f = opt_line("themeSwatches"@, swatch_value(c.theme_swatch_style));
    let g = opt_line("themeSwatchSpacing"@, spacing_value(c.theme_swatch_spacing));
    let r = opt_line("allowRemoteImages"@, bool_value(c.allow_remote_images));
    lemma_opt_line_ok("theme"@, theme_value(c.theme));
    lemma_opt_line_ok("cursorStyle"@, cursor_value(c.cursor_style));
    lemma_opt_line_ok("boxedChrome"@, bool_value(c.boxed_chrome));
    lemma_opt_line_ok("themeSwatches"@, swatch_value(c.theme_swatch_style));
    lemma_opt_line_ok("themeSwatchSpacing"@, spacing_value(c.theme_swatch_spacing));
    lemma_opt_line_ok("allowRemoteImages"@, bool_value(c.allow_remote_images));
    assert(lines_ok(h)) by {
        assert forall|i: int| 0 <= i < h.len() implies free_of(#[trigger] h[i], '\n') && no_cr_end(h[i]) by {
            if i == 0 {
                assert(h[i] == "# poneglyph user preferences"@);
            } else if i == 2 {
                assert(h[i] == "[ui]"@);
            }
        }
    }
    lemma_lines_ok_concat(g, r);
    lemma_lines_ok_concat(f, g + r);
    lemma_lines_ok_concat(d, f + (g + r));
    lemma_lines_ok_concat(b, d + (f + (g + r)));
    lemma_lines_ok_concat(a, b + (d + (f + (g + r))));
    lemma_lines_ok_concat(h, a + (b + (d + (f + (g + r)))));
}


proof fn lemma_apply_theme(cfg: AppConfigView, t: Option<Seq<char>>)
    requires
        theme_writable(t),
        cfg.theme is None,
    ensures
        apply_opt(cfg, "theme"@, theme_value(t)) == (AppConfigView { theme: t, ..cfg }),
{
    match t {
        Some(x) => {
            lemma_escape_plain(x);
            lemma_unquote(x);
        },
        None => {},
    }
}

proof fn lemma_apply_cursor(cfg: AppConfigView, c: Option<CursorStyle>)
    requires
        cfg.cursor_style is None,
    ensures
        apply_opt(cfg, "cursorStyle"@, cursor_value(c)) == (AppConfigView { cursor_style: c, ..cfg }),
{
    reveal_strlit("theme");
    reveal_strlit("themeName");
    reveal_strlit("cursorStyle");
    reveal_strlit("brackets");
    reveal_strlit("block");
    reveal_strlit("bar");
    reveal_strlit("underline");
    reveal_strlit("box");
    assert("cursorStyle"@.len() == 11);
    assert("cursorStyle"@.len() == 11 && "theme"@.len() == 5);
    assert("cursorStyle"@ != "theme"@);
    assert("cursorStyle"@.len() == 11 && "themeName"@.len() == 9);
    assert("cursorStyle"@ != "themeName"@);
    match c {
        Some(cs) => {
            lemma_words_plain(cs, ThemeSwatchStyle::Off, true, 0);
            lemma_unquote(cursor_style_word(cs));
            match cs {
                CursorStyle::Brackets => assert(cursor_style_from_word("brackets"@) == Some(cs)),
                CursorStyle::Block => assert(cursor_style_from_word("block"@) == Some(cs)),
                CursorStyle::Bar => assert(cursor_style_from_word("bar"@) == Some(cs)),
                CursorStyle::Underline => assert(cursor_style_from_word("underline"@) == Some(cs)),
                CursorStyle::Box => assert(cursor_style_from_word("box"@) == Some(cs)),
            }
        },
        None => {},
    }
}

proof fn lemma_parse_bool_word(b: bool)
    ensures
        parse_bool_spec(trim_char(bool_word(b), '"')) == Some(b),
{
    reveal_strlit("true");
    reveal_strlit("false");
    reveal_strlit("yes");
    reveal_strlit("1");
    reveal_strlit("boxed");
    let w = bool_word(b);
    lemma_bare(w);
    lemma_trim_fixed(w);
    assert(ascii_lower_seq(w) =~= w);
}

proof fn lemma_apply_boxed(cfg: AppConfigView, b: Option<bool>)
    requires
        cfg.boxed_chrome is None,
    ensures
        apply_opt(cfg, "boxedChrome"@, bool_value(b)) == (AppConfigView { boxed_chrome: b, ..cfg }),
{
    reveal_strlit("theme");
    reveal_strlit("themeName");
    reveal_strlit("cursorStyle");
    reveal_strlit("cursor_style");
    reveal_strlit("boxedChrome");
    assert("boxedChrome"@.len() == 11 && "theme"@.len() == 5);
    assert("boxedChrome"@ != "theme"@);
    assert("boxedChrome"@.len() == 11 && "themeName"@.len() == 9);
    assert("boxedChrome"@ != "themeName"@);
    assert("boxedChrome"@.len() == 11 && "cursorStyle"@.len() == 11);
    assert("boxedChrome"@[0] == 'b' && "cursorStyle"@[0] == 'c');
    assert("boxedChrome"@ != "cursorStyle"@);
    assert("boxedChrome"@.len() == 11 && "cursor_style"@.len() == 12);
    assert("boxedChrome"@ != "cursor_style"@);
    match b {
        Some(x) => {
            lemma_parse_bool_word(x);
        },
        None => {},
    }
}

proof fn lemma_apply_swatch(cfg: AppConfigView, w: Option<ThemeSwatchStyle>)
    requires
        cfg.theme_swatch_style is None,
    ensures
        apply_opt(cfg, "themeSwatches"@, swatch_value(w)) == (AppConfigView {
            theme_swatch_style: w,
            ..cfg
        }),
{
    reveal_strlit("theme");
    reveal_strlit("themeName");
    reveal_strlit("cursorStyle");
    reveal_strlit("cursor_style");
    reveal_strlit("boxedChrome");
    reveal_strlit("boxed_chrome");
    reveal_strlit("themeSwatches");
    reveal_strlit("off");
    reveal_strlit("circle");
    reveal_strlit("square");
    assert("themeSwatches"@.len() == 13 && "theme"@.len() == 5);
    assert("themeSwatches"@ != "theme"@);
    assert("themeSwatches"@.len() == 13 && "themeName"@.len() == 9);
    assert("themeSwatches"@ != "themeName"@);
    assert("themeSwatches"@.len() == 13 && "cursorStyle"@.len() == 11);
    assert("themeSwatches"@ != "cursorStyle"@);
    assert("themeSwatches"@.len() == 13 && "cursor_style"@.len() == 12);
    assert("themeSwatches"@ != "cursor_style"@);
    assert("themeSwatches"@.len() == 13 && "boxedChrome"@.len() == 11);
    assert("themeSwatches"@ != "boxedChrome"@);
    assert("themeSwatches"@.len() == 13 && "boxed_chrome"@.len() == 12);
    assert("themeSwatches"@ != "boxed_chrome"@);
    match w {
        Some(sw) => {
            lemma_words_plain(CursorStyle::Block, sw, true, 0);
            lemma_unquote(swatch_style_word(sw));
            match sw {
                ThemeSwatchStyle::Off => assert(swatch_style_from_word("off"@) == Some(sw)),
                ThemeSwatchStyle::Circle => assert(swatch_style_from_word("circle"@) == Some(sw)),
                ThemeSwatchStyle::Square => assert(swatch_style_from_word("square"@) == Some(sw)),
            }
        },
        None => {},
    }
}

proof fn lemma_apply_spacing(cfg: AppConfigView, n: Option<usize>)
    requires
        cfg.theme_swatch_spacing is None,
    ensures
        apply_opt(cfg, "themeSwatchSpacing"@, spacing_value(n)) == (AppConfigView {
            theme_swatch_spacing: match n {
                Some(k) => Some(capped_spacing(k)),
                None => None,
            },
            ..cfg
        }),
{
    reveal_strlit("theme");
    reveal_strlit("themeName");
    reveal_strlit("cursorStyle");
    reveal_strlit("cursor_style");
    reveal_strlit("boxedChrome");
    reveal_strlit("boxed_chrome");
    reveal_strlit("themeSwatches");
    reveal_strlit("themeSwatchStyle");
    reveal_strlit("theme_swatches");
    reveal_strlit("themeSwatchSpacing");
    assert("themeSwatchSpacing"@.len() == 18 && "theme"@.len() == 5);
    assert("themeSwatchSpacing"@ != "theme"@);
    assert("themeSwatchSpacing"@.len() == 18 && "themeName"@.len() == 9);
    assert("themeSwatchSpacing"@ != "themeName"@);
    assert("themeSwatchSpacing"@.len() == 18 && "cursorStyle"@.len() == 11);
    assert("themeSwatchSpacing"@ != "cursorStyle"@);
    assert("themeSwatchSpacing"@.len() == 18 && "cursor_style"@.len() == 12);
    assert("themeSwatchSpacing"@ != "cursor_style"@);
    assert("themeSwatchSpacing"@.len() == 18 && "boxedChrome"@.len() == 11);
    assert("themeSwatchSpacing"@ != "boxedChrome"@);
    assert("themeSwatchSpacing"@.len() == 18 && "boxed_chrome"@.len() == 12);
    assert("themeSwatchSpacing"@ != "boxed_chrome"@);
    assert("themeSwatchSpacing"@.len() == 18 && "themeSwatches"@.len() == 13);
    assert("themeSwatchSpacing"@ != "themeSwatches"@);
    assert("themeSwatchSpacing"@.len() == 18 && "themeSwatchStyle"@.len() == 16);
    assert("themeSwatchSpacing"@ != "themeSwatchStyle"@);
    assert("themeSwatchSpacing"@.len() == 18 && "theme_swatches"@.len() == 14);
    assert("themeSwatchSpacing"@ != "theme_swatches"@);
    match n {
        Some(k) => {
            let m = capped_spacing(k);
            let w = seq![digit_char(m)];
            assert(48 <= digit_char(m) as u32 <= 56);
            lemma_bare(w);
            assert(w[0] != '+');
            assert(all_digits(w));
            assert(w.drop_last() =~= Seq::<char>::empty());
            assert(digit_char(m) as u32 == 48 + m);
            assert(decimal(w.drop_last()) == 0);
            assert(decimal(w) == m);
            assert(parse_usize_spec(w) == Some(m));
        },
        None => {},
    }
}

proof fn lemma_apply_remote(cfg: AppConfigView, b: Option<bool>)
    requires
        cfg.allow_remote_images is None,
    ensures
        apply_opt(cfg, "allowRemoteImages"@, bool_value(b)) == (AppConfigView {
            allow_remote_images: b,
            ..cfg
        }),
{
    reveal_strlit("theme");
    reveal_strlit("themeName");
    reveal_strlit("cursorStyle");
    reveal_strlit("cursor_style");
    reveal_strlit("boxedChrome");
    reveal_strlit("boxed_chrome");
    reveal_strlit("themeSwatches");
    reveal_strlit("themeSwatchStyle");
    reveal_strlit("theme_swatches");
    reveal_strlit("themeSwatchSpacing");
    reveal_strlit("theme_swatch_spacing");
    reveal_strlit("allowRemoteImages");
    assert("allowRemoteImages"@.len() == 17 && "theme"@.len() == 5);
    assert("allowRemoteImages"@ != "theme"@);
    assert("allowRemoteImages"@.len() == 17 && "themeName"@.len() == 9);
    assert("allowRemoteImages"@ != "themeName"@);
    assert("allowRemoteImages"@.len() == 17 && "cursorStyle"@.len() == 11);
    assert("allowRemoteImages"@ != "cursorStyle"@);
    assert("allowRemoteImages"@.len() == 17 && "cursor_style"@.len() == 12);
    assert("allowRemoteImages"@ != "cursor_style"@);
    assert("allowRemoteImages"@.len() == 17 && "boxedChrome"@.len() == 11);
    assert("allowRemoteImages"@ != "boxedChrome"@);
    assert("allowRemoteImages"@.len() == 17 && "boxed_chrome"@.len() == 12);
    assert("allowRemoteImages"@ != "boxed_chrome"@);
    assert("allowRemoteImages"@.len() == 17 && "themeSwatches"@.len() == 13);
    assert("allowRemoteImages"@ != "themeSwatches"@);
    assert("allowRemoteImages"@.len() == 17 && "themeSwatchStyle"@.len() == 16);
    assert("allowRemoteImages"@ != "themeSwatchStyle"@);
    assert("allowRemoteImages"@.len() == 17 && "theme_swatches"@.len() == 14);
    assert("allowRemoteImages"@ != "theme_swatches"@);
    assert("allowRemoteImages"@.len() == 17 && "themeSwatchSpacing"@.len() == 18);
    assert("allowRemoteImages"@ != "themeSwatchSpacing"@);
    assert("allowRemoteImages"@.len() == 17 && "theme_swatch_spacing"@.len() == 20);
    assert("allowRemoteImages"@ != "theme_swatch_spacing"@);
    match b {
        Some(x) => {
            lemma_parse_bool_word(x);
        },
        None => {},
    }
}

/// The preferences as they read back from the file written for `c`: the
/// swatch spacing is written capped at eight.
pub open spec fn written_config(c: AppConfigView) -> AppConfigView {
    AppConfigView {
        theme_swatch_spacing: match c.theme_swatch_spacing {
            Some(n) => Some(capped_spacing(n)),
            None => None,
        },
        ..c
    }
}

/// Reading the configuration file written for a set of preferences gives
/// those preferences back, the swatch spacing capped at eight, whenever the
/// theme name holds no `#`, double quote, backslash or line break.
pub proof fn law_config_round_trip(c: AppConfig)
    requires
        theme_writable(c.deep_view().theme),
    ensures
        parse_config_spec(to_toml_spec(c.deep_view())) == written_config(c.deep_view()),
{
    let v = c.deep_view();
    lemma_toml_text(v);
    lemma_toml_lines_ok(v);
    lemma_lines_of_text(toml_lines(v));
    assert(str_lines(to_toml_spec(v)) == toml_lines(v));
    lemma_keys_plain();
    let cs = match v.cursor_style {
        Some(x) => x,
        None => CursorStyle::Block,
    };
    let sw = match v.theme_swatch_style {
        Some(x) => x,
        None => ThemeSwatchStyle::Off,
    };
    let bb = match v.boxed_chrome {
        Some(x) => x,
        None => false,
    };
    let rb = match v.allow_remote_images {
        Some(x) => x,
        None => false,
    };
    let n = match v.theme_swatch_spacing {
        Some(x) => x,
        None => 0,
    };
    lemma_words_plain(cs, sw, bb, n);
    lemma_words_plain(cs, sw, rb, n);
    match v.theme {
        Some(x) => {
            lemma_escape_plain(x);
            lemma_quoted_plain(x);
        },
        None => {},
    }
    let ui = "ui"@;
    reveal_strlit("ui");
    assert(section_read(ui));
    let a = opt_line("theme"@, theme_value(v.theme));
    let b = opt_line("cursorStyle"@, cursor_value(v.cursor_style));
    let d = opt_line("boxedChrome"@, bool_value(v.boxed_chrome));
    let f = opt_line("themeSwatches"@, swatch_value(v.theme_swatch_style));
    let g = opt_line("themeSwatchSpacing"@, spacing_value(v.theme_swatch_spacing));
    let r = opt_line("allowRemoteImages"@, bool_value(v.allow_remote_images));
    let e = Seq::<Seq<char>>::empty();
    let c0 = empty_config();
    lemma_header_read(a + (b + (d + (f + (g + r)))), c0);
    lemma_apply_theme(c0, v.theme);
    let c1 = apply_opt(c0, "theme"@, theme_value(v.theme));
    lemma_opt_step("theme"@, theme_value(v.theme), b + (d + (f + (g + r))), c0, ui);
    lemma_apply_cursor(c1, v.cursor_style);
    let c2 = apply_opt(c1, "cursorStyle"@, cursor_value(v.cursor_style));
    lemma_opt_step("cursorStyle"@, cursor_value(v.cursor_style), d + (f + (g + r)), c1, ui);
    lemma_apply_boxed(c2, v.boxed_chrome);
    let c3 = apply_opt(c2, "boxedChrome"@, bool_value(v.boxed_chrome));
    lemma_opt_step("boxedChrome"@, bool_value(v.boxed_chrome), f + (g + r), c2, ui);
    lemma_apply_swatch(c3, v.theme_swatch_style);
    let c4 = apply_opt(c3, "themeSwatches"@, swatch_value(v.theme_swatch_style));
    lemma_opt_step("themeSwatches"@, swatch_value(v.theme_swatch_style), g + r, c3, ui);
    lemma_apply_spacing(c4, v.theme_swatch_spacing);
    let c5 = apply_opt(c4, "themeSwatchSpacing"@, spacing_value(v.theme_swatch_spacing));
    lemma_opt_step("themeSwatchSpacing"@, spacing_value(v.theme_swatch_spacing), r, c4, ui);
    lemma_apply_remote(c5, v.allow_remote_images);
    let c6 = apply_opt(c5, "allowRemoteImages"@, bool_value(v.allow_remote_images));
    assert(r =~= r + e);
    lemma_opt_step("allowRemoteImages"@, bool_value(v.allow_remote_images), e, c5, ui);
    assert(config_lines(e, c6, ui) == c6);
    assert(c6 == written_config(v));
}


// ---------------------------------------------------------------------
// Where the preferences file is

/// What the preferences file's location depends on: the variables
/// `PONEGLYPH_CONFIG`, `MD_EDITOR_RUST_CONFIG`, `XDG_CONFIG_HOME` and
/// `HOME`, the working directory (when known), and whether
/// `.poneglyph.toml` and `.md-editor.toml` exist in it.
#[derive(Clone, Debug, PartialEq, Eq)]
pub struct ConfigEnv {
    pub poneglyph_config: Option<String>,
    pub legacy_config: Option<String>,
    pub cwd: Option<String>,
    pub local_exists: bool,
    pub legacy_exists: bool,
    pub xdg_config_home: Option<String>,
    pub home: Option<String>,
}

/// The file named by a variable or found in the working directory, before
/// the per-user location is tried: `PONEGLYPH_CONFIG`, then
/// `MD_EDITOR_RUST_CONFIG`, then `.poneglyph.toml` and `.md-editor.toml`
/// of the working directory when they exist.
pub open spec fn config_override(e: ConfigEnv) -> Option<Seq<char>> {
    match e.poneglyph_config {
        Some(p) => Some(p@),
        None => match e.legacy_config {
            Some(p) => Some(p@),
            None => match e.cwd {
                Some(c) => if e.local_exists {
                    Some(join_spec(c@, ".poneglyph.toml"@))
                } else if e.legacy_exists {
                    Some(join_spec(c@, ".md-editor.toml"@))
                } else {
                    None
                },
                None => None,
            },
        },
    }
}

/// The per-user preferences file: `poneglyph/config.toml` under
/// `XDG_CONFIG_HOME`, else under `.config` of `HOME`, else under `.`.
pub open spec fn user_config_path(e: ConfigEnv) -> Seq<char> {
    let base = match e.xdg_config_home {
        Some(x) => x@,
        None => match e.home {
            Some(h) => join_spec(h@, ".config"@),
            None => "."@,
        },
    };
    join_spec(base, "poneglyph/config.toml"@)
}

/// Where preferences are written: the override when there is one, else the
/// per-user file.
pub open spec fn config_save_spec(e: ConfigEnv) -> Seq<char> {
    match config_override(e) {
        Some(p) => p,
        None => user_config_path(e),
    }
}

/// Where preferences are read from: the override when there is one, else
/// the per-user file when it exists, else nowhere.
pub open spec fn config_load_spec(e: ConfigEnv, user_exists: bool) -> Option<Seq<char>> {
    match config_override(e) {
        Some(p) => Some(p),
        None => if user_exists {
            Some(user_config_path(e))
        } else {
            None
        },
    }
}

fn override_path(e: &ConfigEnv) -> (r: Option<String>)
    ensures
        opt_view(r) == config_override(*e),
{
    match &e.poneglyph_config {
        Some(p) => Some(p.clone()),
        None => match &e.legacy_config {
            Some(p) => Some(p.clone()),
            None => match &e.cwd {
                Some(c) => if e.local_exists {
                    Some(string_of(&join_part(&chars_of(c.as_str()), ".poneglyph.toml")))
                } else if e.legacy_exists {
                    Some(string_of(&join_part(&chars_of(c.as_str()), ".md-editor.toml")))
                } else {
                    None
                },
                None => None,
            },
        },
    }
}

fn user_path(e: &ConfigEnv) -> (r: String)
    ensures
        r@ == user_config_path(*e),
{
    let base: Vec<char> = match &e.xdg_config_home {
        Some(x) => chars_of(x.as_str()),
        None => match &e.home {
            Some(h) => join_part(&chars_of(h.as_str()), ".config"),
            None => chars_of("."),
        },
    };
    string_of(&join_part(&base, "poneglyph/config.toml"))
}

/// Where the preferences are written.
pub fn config_path_for_save(e: &ConfigEnv) -> (r: String)
    ensures
        r@ == config_save_spec(*e),
{
    match override_path(e) {
        Some(p) => p,
        None => user_path(e),
    }
}

/// Where the preferences are read from; `user_exists` tells whether the
/// per-user file ([`config_path_for_save`] without an override) exists.
pub fn config_path_for_load(e: &ConfigEnv, user_exists: bool) -> (r: Option<String>)
    ensures
        opt_view(r) == config_load_spec(*e, user_exists),
{
    match override_path(e) {
        Some(p) => Some(p),
        None => if user_exists {
            Some(user_path(e))
        } else {
            None
        },
    }
}

} // verus!
