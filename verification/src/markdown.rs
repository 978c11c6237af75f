//! Line classification, headings, lists, tables and inline markdown
//! tokenizing.
use vstd::prelude::*;
use crate::text::{
    contains, find_in, has_prefix,
    count_char, count_of, split, split_on, starts_with, string_of, trim_char, trim_char_bounds,
    trimmed, all_are, all_digits, all_eq, chars_of, digits_between, find, find_char, is_digit,
    lemma_find_from, lemma_ws_skip_bounds, trim, trim_bounds, trim_start, trim_start_index,
    ws_skip, ws_back, trim_end, is_ws, find_from, occurs_at,
};

verus! {

/// The block kind of one source line.
#[derive(Clone, Copy, Debug, PartialEq, Eq, Structural)]
pub enum LineKind {
    Heading(u8),
    Blockquote,
    UnorderedList,
    OrderedList,
    CodeBlock,
    Table,
    HorizontalRule,
    Empty,
    Text,
}

/// One source line with its block kind.
#[derive(Clone, Debug, PartialEq, Eq)]
pub struct ClassifiedLine {
    pub kind: LineKind,
    pub text: String,
    pub level: Option<u8>,
    pub language: Option<String>,
}

/// The value a [`ClassifiedLine`] stands for.
pub struct ClassifiedLineView {
    pub kind: LineKind,
    pub text: Seq<char>,
    pub level: Option<u8>,
    pub language: Option<Seq<char>>,
}

/// The view of an optional string.
pub open spec fn opt_view(o: Option<String>) -> Option<Seq<char>> {
    match o {
        Some(s) => Some(s@),
        None => None,
    }
}

impl DeepView for ClassifiedLine {
    type V = ClassifiedLineView;

    open spec fn deep_view(&self) -> ClassifiedLineView {
        ClassifiedLineView {
            kind: self.kind,
            text: self.text@,
            level: self.level,
            language: opt_view(self.language),
        }
    }
}

/// A heading of the document outline.
#[derive(Clone, Debug, PartialEq, Eq)]
pub struct OutlineItem {
    pub level: u8,
    pub text: String,
    pub line: usize,
}

/// The value an [`OutlineItem`] stands for.
pub struct OutlineItemView {
    pub level: u8,
    pub text: Seq<char>,
    pub line: int,
}

impl DeepView for OutlineItem {
    type V = OutlineItemView;

    open spec fn deep_view(&self) -> OutlineItemView {
        OutlineItemView { level: self.level, text: self.text@, line: self.line as int }
    }
}

// ---------------------------------------------------------------------
// Headings

/// Number of leading `#` at or after `i`, counting at most up to index 6.
pub open spec fn hash_run(line: Seq<char>, i: int) -> int
    decreases 6 - i,
{
    if i < 6 && i < line.len() && line[i] == '#' {
        hash_run(line, i + 1)
    } else {
        i
    }
}

/// The heading level and title of a line: up to six leading `#`, the rest
/// trimmed; `None` when the line does not begin with `#`.
pub open spec fn heading_spec(line: Seq<char>) -> Option<(u8, Seq<char>)> {
    let level = hash_run(line, 0);
    if level <= 0 {
        None
    } else {
        Some((level as u8, trim(line.skip(level))))
    }
}

pub proof fn lemma_hash_run(line: Seq<char>, i: int)
    requires
        0 <= i <= 6,
        i <= line.len(),
    ensures
        i <= hash_run(line, i) <= 6,
        hash_run(line, i) <= line.len(),
    decreases 6 - i,
{
    if i < 6 && i < line.len() && line[i] == '#' {
        lemma_hash_run(line, i + 1);
    }
}

/// Level and title bounds `(level, a, b)` of a heading line, the title
/// being `line@.subrange(a, b)`.
pub fn heading_bounds(line: &[char]) -> (r: Option<(u8, usize, usize)>)
    ensures
        match r {
            Some((lv, a, b)) => a <= b <= line.len() && heading_spec(line@) == Some(
                (lv, line@.subrange(a as int, b as int)),
            ),
            None => heading_spec(line@) is None,
        },
        r matches Some((lv, a, b)) ==> 1 <= lv <= 6,
{
    let mut level: usize = 0;
    while level < line.len() && line[level] == '#' && level < 6
        invariant
            level <= 6,
            level <= line.len(),
            hash_run(line@, level as int) == hash_run(line@, 0),
        decreases 6 - level,
    {
        level += 1;
    }
    if level == 0 {
        return None;
    }
    let rest = &line[level..line.len()];
    let (a, b) = trim_bounds(rest);
    proof {
        assert(rest@ == line@.skip(level as int));
        assert(line@.subrange(level + a, level + b) == rest@.subrange(a as int, b as int));
    }
    Some((level as u8, level + a, level + b))
}

/// The heading level and title of a markdown line, as the outline reads it.
pub fn heading(line: &str) -> (r: Option<(u8, &str)>)
    ensures
        match r {
            Some((lv, t)) => heading_spec(line@) == Some((lv, t@)),
            None => heading_spec(line@) is None,
        },
{
    let chars = chars_of(line);
    match heading_bounds(&chars) {
        Some((lv, a, b)) => Some((lv, line.substring_char(a, b))),
        None => None,
    }
}

// ---------------------------------------------------------------------
// Rules, lists, tables

/// A horizontal rule: three or more of one of `-`, `*`, `_`.
pub open spec fn is_hr_spec(s: Seq<char>) -> bool {
    s.len() >= 3 && (all_eq(s, '-') || all_eq(s, '*') || all_eq(s, '_'))
}

/// Whether an already trimmed line is a horizontal rule.
pub fn is_hr(s: &[char]) -> (b: bool)
    ensures
        b == is_hr_spec(s@),
{
    s.len() >= 3 && (all_are(s, '-') || all_are(s, '*') || all_are(s, '_'))
}

/// A bullet marker character.
pub open spec fn is_bullet(c: char) -> bool {
    c == '-' || c == '*' || c == '+'
}

/// An unordered list item: after leading white space, a bullet and a space.
pub open spec fn unordered_spec(line: Seq<char>) -> bool {
    let s = trim_start(line);
    s.len() >= 2 && is_bullet(s[0]) && s[1] == ' '
}

/// The index of the `.` that ends an ordered-list number in `s`, if `s`
/// begins with one or more digits, a `.` and a space.
pub open spec fn ordered_dot(s: Seq<char>) -> Option<int> {
    match find(s, seq!['.']) {
        Some(d) => if d > 0 && all_digits(s.take(d)) && d + 1 < s.len() && s[d + 1] == ' ' {
            Some(d)
        } else {
            None
        },
        None => None,
    }
}

/// An ordered list item: after leading white space, digits, `.` and a space.
pub open spec fn ordered_spec(line: Seq<char>) -> bool {
    ordered_dot(trim_start(line)) is Some
}

/// Dot index of an ordered-list marker in `s`.
fn ordered_dot_of(s: &[char]) -> (r: Option<usize>)
    ensures
        match r {
            Some(d) => ordered_dot(s@) == Some(d as int),
            None => ordered_dot(s@) is None,
        },
        r matches Some(d) ==> d + 2 <= s.len(),
{
    match find_char(s, '.') {
        Some(d) => {
            proof {
                lemma_find_from(s@, seq!['.'], 0);
            }
            if d > 0 && digits_between(s, 0, d) && d + 1 < s.len() && s[d + 1] == ' ' {
                assert(s@.subrange(0, d as int) == s@.take(d as int));
                Some(d)
            } else {
                assert(s@.subrange(0, d as int) == s@.take(d as int));
                None
            }
        },
        None => None,
    }
}

/// Whether a line is an unordered list item.
pub fn unordered(line: &[char]) -> (b: bool)
    ensures
        b == unordered_spec(line@),
{
    let k = trim_start_index(line);
    let n = line.len() - k;
    n >= 2 && (line[k] == '-' || line[k] == '*' || line[k] == '+') && line[k + 1] == ' '
}

/// Whether a line is an ordered list item.
pub fn ordered(line: &[char]) -> (b: bool)
    ensures
        b == ordered_spec(line@),
{
    let k = trim_start_index(line);
    let s = &line[k..line.len()];
    assert(s@ == trim_start(line@));
    ordered_dot_of(s).is_some()
}

/// What a list line holds: its indent (leading white-space characters),
/// nesting level, marker and content.
pub struct ListInfoView {
    pub indent: int,
    pub level: int,
    pub marker: Seq<char>,
    pub content: Seq<char>,
    pub ordered: bool,
}

/// The list structure of a line, if it is a list item.
pub open spec fn list_info_spec(line: Seq<char>) -> Option<ListInfoView> {
    let indent = ws_skip(line, 0);
    let s = trim_start(line);
    if s.len() >= 2 && is_bullet(s[0]) && s[1] == ' ' {
        Some(
            ListInfoView {
                indent,
                level: indent / 2,
                marker: s.take(1),
                content: s.skip(2),
                ordered: false,
            },
        )
    } else {
        match ordered_dot(s) {
            Some(d) => Some(
                ListInfoView {
                    indent,
                    level: indent / 2,
                    marker: s.take(d + 1),
                    content: s.skip(d + 2),
                    ordered: true,
                },
            ),
            None => None,
        }
    }
}

/// List structure of a line, as positions in it: the marker is
/// `line[start..marker_end]` and the content `line[content_start..]`.
pub struct ListInfo {
    pub indent: usize,
    pub level: usize,
    pub start: usize,
    pub marker_end: usize,
    pub content_start: usize,
    pub ordered: bool,
}

/// The list structure of a line.
pub fn list_info(line: &[char]) -> (r: Option<ListInfo>)
    ensures
        match r {
            Some(li) => {
                &&& li.start <= li.marker_end <= li.content_start <= line.len()
                &&& list_info_spec(line@) == Some(
                    ListInfoView {
                        indent: li.indent as int,
                        level: li.level as int,
                        marker: line@.subrange(li.start as int, li.marker_end as int),
                        content: line@.skip(li.content_start as int),
                        ordered: li.ordered,
                    },
                )
            },
            None => list_info_spec(line@) is None,
        },
{
    let k = trim_start_index(line);
    let s = &line[k..line.len()];
    assert(s@ == trim_start(line@));
    proof {
        lemma_ws_skip_bounds(line@, 0);
    }
    if s.len() >= 2 && (s[0] == '-' || s[0] == '*' || s[0] == '+') && s[1] == ' ' {
        assert(line@.subrange(k as int, k + 1) == s@.take(1));
        assert(line@.skip(k + 2) == s@.skip(2));
        return Some(
            ListInfo {
                indent: k,
                level: k / 2,
                start: k,
                marker_end: k + 1,
                content_start: k + 2,
                ordered: false,
            },
        );
    }
    match ordered_dot_of(s) {
        Some(d) => {
            assert(line@.subrange(k as int, k + d + 1) == s@.take(d + 1));
            assert(line@.skip(k + d + 2) == s@.skip(d + 2));
            Some(
                ListInfo {
                    indent: k,
                    level: k / 2,
                    start: k,
                    marker_end: k + d + 1,
                    content_start: k + d + 2,
                    ordered: true,
                },
            )
        },
        None => None,
    }
}


/// A character a table separator cell may hold.
pub open spec fn is_sep_char(c: char) -> bool {
    c == '-' || c == ':' || c == ' '
}

/// A separator cell: once trimmed, three or more of `-`, `:` and space.
pub open spec fn sep_cell(cell: Seq<char>) -> bool {
    let c = trim(cell);
    c.len() >= 3 && forall|k: int| 0 <= k < c.len() ==> is_sep_char(#[trigger] c[k])
}

/// A line trimmed, stripped of its outer pipes and trimmed again.
pub open spec fn table_inner(line: Seq<char>) -> Seq<char> {
    trim(trim_char(trim(line), '|'))
}

/// A table separator line such as `| --- | :-: |`.
pub open spec fn is_table_separator_spec(line: Seq<char>) -> bool {
    let t = table_inner(line);
    let cells = split(t, '|');
    t.len() > 0 && forall|i: int| 0 <= i < cells.len() ==> sep_cell(#[trigger] cells[i])
}

/// A table row: two or more pipes, and not a separator line.
pub open spec fn is_table_row_spec(line: Seq<char>) -> bool {
    count_char(trim(line), '|') >= 2 && !is_table_separator_spec(line)
}

fn is_sep_cell(cell: &[char]) -> (b: bool)
    ensures
        b == sep_cell(cell@),
{
    let (a, e) = trim_bounds(cell);
    if e - a < 3 {
        return false;
    }
    let mut i = a;
    while i < e
        invariant
            a <= i <= e <= cell.len(),
            cell@.subrange(a as int, e as int) == trim(cell@),
            forall|k: int| a <= k < i ==> is_sep_char(#[trigger] cell@[k]),
        decreases e - i,
    {
        if !(cell[i] == '-' || cell[i] == ':' || cell[i] == ' ') {
            assert(cell@.subrange(a as int, e as int)[i - a] == cell@[i as int]);
            return false;
        }
        i += 1;
    }
    assert forall|k: int| 0 <= k < e - a implies is_sep_char(
        #[trigger] cell@.subrange(a as int, e as int)[k],
    ) by {
        assert(cell@.subrange(a as int, e as int)[k] == cell@[a + k]);
    }
    true
}

/// Bounds `(a, b)` of `table_inner(line@)` within `line`.
fn table_inner_bounds(line: &[char]) -> (r: (usize, usize))
    ensures
        r.0 <= r.1 <= line.len(),
        line@.subrange(r.0 as int, r.1 as int) == table_inner(line@),
{
    let (a, b) = trim_bounds(line);
    let t0 = &line[a..b];
    let (c, d) = trim_char_bounds(t0, '|');
    let t1 = &t0[c..d];
    let (e, f) = trim_bounds(t1);
    proof {
        assert(line@.subrange(a + c + e, a + c + f) == t1@.subrange(e as int, f as int));
    }
    (a + c + e, a + c + f)
}

/// Whether a line is a table separator.
pub fn is_table_separator(line: &[char]) -> (b: bool)
    ensures
        b == is_table_separator_spec(line@),
{
    let (a, b) = table_inner_bounds(line);
    if a == b {
        return false;
    }
    let t = &line[a..b];
    let cells = split_on(t, '|');
    let mut i: usize = 0;
    while i < cells.len()
        invariant
            i <= cells.len(),
            t@ == table_inner(line@),
            t@.len() > 0,
            cells.deep_view() == split(t@, '|'),
            forall|j: int| 0 <= j < i ==> sep_cell(#[trigger] split(t@, '|')[j]),
        decreases cells.len() - i,
    {
        assert(cells[i as int]@ == cells.deep_view()[i as int]);
        if !is_sep_cell(cells[i].as_slice()) {
            return false;
        }
        i += 1;
    }
    true
}

/// Whether a line is a table row.
pub fn is_table_row(line: &[char]) -> (b: bool)
    ensures
        b == is_table_row_spec(line@),
{
    let (a, b) = trim_bounds(line);
    count_of(&line[a..b], '|') >= 2 && !is_table_separator(line)
}

/// A table block starts at `idx`: a row followed by a separator line.
pub open spec fn starts_table_block_spec(lines: Seq<Seq<char>>, idx: int) -> bool {
    idx + 1 < lines.len() && is_table_row_spec(lines[idx]) && is_table_separator_spec(
        lines[idx + 1],
    )
}

/// The trimmed cells of a table line.
pub open spec fn table_cells_spec(line: Seq<char>) -> Seq<Seq<char>> {
    let parts = split(trim_char(trim(line), '|'), '|');
    Seq::new(parts.len(), |i: int| trim(parts[i]))
}

/// The trimmed cells of a table line.
pub fn table_cells(line: &[char]) -> (r: Vec<Vec<char>>)
    ensures
        r.deep_view() == table_cells_spec(line@),
{
    let (a, b) = trim_bounds(line);
    let t0 = &line[a..b];
    let (c, d) = trim_char_bounds(t0, '|');
    let t1 = &t0[c..d];
    let parts = split_on(t1, '|');
    let ghost ps = split(t1@, '|');
    let mut out: Vec<Vec<char>> = Vec::new();
    let mut i: usize = 0;
    while i < parts.len()
        invariant
            i <= parts.len(),
            parts.deep_view() == ps,
            out.deep_view() == Seq::new(i as nat, |k: int| trim(ps[k])),
        decreases parts.len() - i,
    {
        assert(parts[i as int]@ == ps[i as int]);
        let cell = trimmed(parts[i].as_slice());
        let ghost before = out.deep_view();
        assert(cell.deep_view() == cell@);
        out.push(cell);
        assert(out.deep_view() =~= before.push(cell@));
        assert(out.deep_view() =~= Seq::new((i + 1) as nat, |k: int| trim(ps[k])));
        i += 1;
    }
    out
}

// ---------------------------------------------------------------------
// Line classification

/// A code fence line: it begins with three backticks.
pub open spec fn is_fence(line: Seq<char>) -> bool {
    starts_with(line, seq!['`', '`', '`'])
}

/// `line` with every leading run of three backticks removed.
pub open spec fn strip_fences(s: Seq<char>) -> Seq<char>
    decreases s.len(),
{
    if s.len() >= 3 && s[0] == '`' && s[1] == '`' && s[2] == '`' {
        strip_fences(s.skip(3))
    } else {
        s
    }
}

/// The language named on a fence line.
pub open spec fn fence_language(line: Seq<char>) -> Seq<char> {
    trim(strip_fences(line))
}

/// An empty language reads as none.
pub open spec fn lang_opt(lang: Seq<char>) -> Option<Seq<char>> {
    if lang.len() == 0 {
        None
    } else {
        Some(lang)
    }
}

/// A classified line with the given kind and text, and no level or language.
pub open spec fn plain_view(kind: LineKind, text: Seq<char>) -> ClassifiedLineView {
    ClassifiedLineView { kind, text, level: None, language: None }
}

/// The class of a line outside code blocks.
pub open spec fn classify_outside_code(line: Seq<char>) -> ClassifiedLineView {
    let t = trim(line);
    if t.len() == 0 {
        plain_view(LineKind::Empty, line)
    } else if is_hr_spec(t) {
        plain_view(LineKind::HorizontalRule, line)
    } else if is_table_row_spec(line) || is_table_separator_spec(line) {
        plain_view(LineKind::Table, line)
    } else {
        match heading_spec(line) {
            Some((lv, title)) => ClassifiedLineView {
                kind: LineKind::Heading(lv),
                text: title,
                level: Some(lv),
                language: None,
            },
            None => if t[0] == '>' {
                plain_view(LineKind::Blockquote, line)
            } else if unordered_spec(line) {
                plain_view(LineKind::UnorderedList, line)
            } else if ordered_spec(line) {
                plain_view(LineKind::OrderedList, line)
            } else {
                plain_view(LineKind::Text, line)
            },
        }
    }
}

/// A code-block line with the language of its block.
pub open spec fn code_view(line: Seq<char>, lang: Seq<char>) -> ClassifiedLineView {
    ClassifiedLineView {
        kind: LineKind::CodeBlock,
        text: line,
        level: None,
        language: lang_opt(lang),
    }
}

/// One step of classification: the class of `line` given whether a code
/// block is open and its language, and the state after the line.
pub open spec fn classify_step(line: Seq<char>, in_code: bool, lang: Seq<char>) -> (
    ClassifiedLineView,
    bool,
    Seq<char>,
) {
    if is_fence(line) {
        if in_code {
            (code_view(line, lang), false, Seq::<char>::empty())
        } else {
            let l = fence_language(line);
            (code_view(line, l), true, l)
        }
    } else if in_code {
        (code_view(line, lang), true, lang)
    } else {
        (classify_outside_code(line), false, lang)
    }
}

/// The classes of `lines`, starting in the given state.
pub open spec fn classify_lines(lines: Seq<Seq<char>>, in_code: bool, lang: Seq<char>) -> Seq<
    ClassifiedLineView,
>
    decreases lines.len(),
{
    if lines.len() == 0 {
        Seq::empty()
    } else {
        let (c, ic, l) = classify_step(lines[0], in_code, lang);
        seq![c].add(classify_lines(lines.drop_first(), ic, l))
    }
}

/// The classes of the lines of a document.
pub open spec fn classify_spec(content: Seq<char>) -> Seq<ClassifiedLineView> {
    classify_lines(split(content, '\n'), false, Seq::empty())
}

pub fn fence_language_of(line: &[char]) -> (r: Vec<char>)
    ensures
        r@ == fence_language(line@),
{
    let mut i: usize = 0;
    assert(line@.skip(0) == line@);
    while line.len() - i >= 3 && line[i] == '`' && line[i + 1] == '`' && line[i + 2] == '`'
        invariant
            i <= line.len(),
            strip_fences(line@.skip(i as int)) == strip_fences(line@),
        decreases line.len() - i,
    {
        assert(line@.skip(i as int).skip(3) == line@.skip(i + 3));
        i += 3;
    }
    trimmed(&line[i..line.len()])
}

fn classified(kind: LineKind, text: &[char]) -> (r: ClassifiedLine)
    ensures
        r.deep_view() == plain_view(kind, text@),
{
    ClassifiedLine { kind, text: string_of(text), level: None, language: None }
}

fn classify_plain(line: &[char]) -> (r: ClassifiedLine)
    ensures
        r.deep_view() == classify_outside_code(line@),
{
    let (a, b) = trim_bounds(line);
    let t = &line[a..b];
    if a == b {
        return classified(LineKind::Empty, line);
    }
    if is_hr(t) {
        return classified(LineKind::HorizontalRule, line);
    }
    if is_table_row(line) || is_table_separator(line) {
        return classified(LineKind::Table, line);
    }
    match heading_bounds(line) {
        Some((lv, ha, hb)) => {
            return ClassifiedLine {
                kind: LineKind::Heading(lv),
                text: string_of(&line[ha..hb]),
                level: Some(lv),
                language: None,
            };
        },
        None => {},
    }
    if t[0] == '>' {
        classified(LineKind::Blockquote, line)
    } else if unordered(line) {
        classified(LineKind::UnorderedList, line)
    } else if ordered(line) {
        classified(LineKind::OrderedList, line)
    } else {
        classified(LineKind::Text, line)
    }
}

fn code_line(line: &[char], lang: &Vec<char>) -> (r: ClassifiedLine)
    ensures
        r.deep_view() == code_view(line@, lang@),
{
    ClassifiedLine {
        kind: LineKind::CodeBlock,
        text: string_of(line),
        level: None,
        language: if lang.len() == 0 {
            None
        } else {
            Some(string_of(lang.as_slice()))
        },
    }
}

/// The block kind of every line of a document, with code blocks followed
/// across lines.
pub fn classify_document(content: &str) -> (r: Vec<ClassifiedLine>)
    ensures
        r.deep_view() == classify_spec(content@),
{
    let chars = chars_of(content);
    let lines = split_on(chars.as_slice(), '\n');
    let ghost ls = split(content@, '\n');
    let mut out: Vec<ClassifiedLine> = Vec::new();
    let mut in_code = false;
    let mut lang: Vec<char> = Vec::new();
    let mut i: usize = 0;
    assert(ls.skip(0) == ls);
    while i < lines.len()
        invariant
            i <= lines.len(),
            lines.deep_view() == ls,
            out.deep_view() + classify_lines(ls.skip(i as int), in_code, lang@) == classify_spec(
                content@,
            ),
        decreases lines.len() - i,
    {
        let line = lines[i].as_slice();
        assert(line@ == ls[i as int]);
        assert(ls.skip(i as int).drop_first() == ls.skip(i + 1));
        assert(ls.skip(i as int)[0] == ls[i as int]);
        let ghost before = out.deep_view();
        let ghost old_ic = in_code;
        let ghost old_lang = lang@;
        let ghost step = classify_step(line@, in_code, lang@);
        let is_fence_line = line.len() >= 3 && line[0] == '`' && line[1] == '`' && line[2] == '`';
        assert(is_fence_line == is_fence(line@)) by {
            if line@.len() >= 3 {
                assert(line@.take(3)[0] == line@[0]);
                assert(line@.take(3)[1] == line@[1]);
                assert(line@.take(3)[2] == line@[2]);
                if is_fence_line {
                    assert(line@.take(3) =~= seq!['`', '`', '`']);
                }
            }
        }
        let c = if is_fence_line {
            if in_code {
                let c = code_line(line, &lang);
                in_code = false;
                lang = Vec::new();
                c
            } else {
                lang = fence_language_of(line);
                in_code = true;
                code_line(line, &lang)
            }
        } else if in_code {
            code_line(line, &lang)
        } else {
            classify_plain(line)
        };
        assert(c.deep_view() == step.0 && in_code == step.1 && lang@ == step.2);
        out.push(c);
        assert(out.deep_view() =~= before.push(step.0));
        assert(classify_lines(ls.skip(i as int), old_ic, old_lang) == seq![step.0].add(
            classify_lines(ls.skip(i + 1), in_code, lang@),
        ));
        assert(out.deep_view() + classify_lines(ls.skip(i + 1), in_code, lang@) =~= before
            + classify_lines(ls.skip(i as int), old_ic, old_lang));
        i += 1;
    }
    assert(classify_lines(ls.skip(i as int), in_code, lang@) =~= Seq::<ClassifiedLineView>::empty());
    assert(out.deep_view() + classify_lines(ls.skip(i as int), in_code, lang@) =~= out.deep_view());
    out
}


// ---------------------------------------------------------------------
// Outline

/// The outline of `lines` from index `i` on: every heading line, in order,
/// with its level, title and index.
pub open spec fn outline_from(lines: Seq<Seq<char>>, i: int) -> Seq<OutlineItemView>
    decreases lines.len() - i,
{
    if i < 0 || i >= lines.len() {
        Seq::empty()
    } else {
        match heading_spec(lines[i]) {
            Some((lv, title)) => seq![OutlineItemView { level: lv, text: title, line: i }].add(
                outline_from(lines, i + 1),
            ),
            None => outline_from(lines, i + 1),
        }
    }
}

/// The outline of a document.
pub open spec fn outline_spec(content: Seq<char>) -> Seq<OutlineItemView> {
    outline_from(split(content, '\n'), 0)
}

/// The headings of a document, with their levels, titles and line indices.
pub fn outline(content: &str) -> (r: Vec<OutlineItem>)
    ensures
        r.deep_view() == outline_spec(content@),
{
    let chars = chars_of(content);
    let lines = split_on(chars.as_slice(), '\n');
    let ghost ls = split(content@, '\n');
    let mut out: Vec<OutlineItem> = Vec::new();
    let mut i: usize = 0;
    while i < lines.len()
        invariant
            i <= lines.len(),
            lines.deep_view() == ls,
            out.deep_view() + outline_from(ls, i as int) == outline_spec(content@),
        decreases lines.len() - i,
    {
        let line = lines[i].as_slice();
        assert(line@ == ls[i as int]);
        let ghost before = out.deep_view();
        match heading_bounds(line) {
            Some((lv, a, b)) => {
                let item = OutlineItem { level: lv, text: string_of(&line[a..b]), line: i };
                out.push(item);
                assert(out.deep_view() =~= before.push(
                    OutlineItemView { level: lv, text: line@.subrange(a as int, b as int), line: i as int },
                ));
                assert(out.deep_view() + outline_from(ls, i + 1) =~= before + outline_from(
                    ls,
                    i as int,
                ));
            },
            None => {},
        }
        i += 1;
    }
    assert(outline_from(ls, i as int) =~= Seq::<OutlineItemView>::empty());
    assert(out.deep_view() + outline_from(ls, i as int) =~= out.deep_view());
    out
}

// ---------------------------------------------------------------------
// Inline markdown

/// The kind of an inline markdown segment.
#[derive(Clone, Copy, Debug, PartialEq, Eq, Structural)]
pub enum InlineKind {
    Text,
    Image,
    Link,
    Autolink,
    Code,
    BoldItalic,
    Bold,
    Italic,
    Strikethrough,
}

/// One inline segment: its kind, its visible text and, for images and
/// links, its target.
#[derive(Clone, Debug, PartialEq, Eq)]
pub struct InlineSegment {
    pub kind: InlineKind,
    pub text: String,
    pub target: Option<String>,
}

/// The value an [`InlineSegment`] stands for.
pub struct SegmentView {
    pub kind: InlineKind,
    pub text: Seq<char>,
    pub target: Option<Seq<char>>,
}

impl DeepView for InlineSegment {
    type V = SegmentView;

    open spec fn deep_view(&self) -> SegmentView {
        SegmentView { kind: self.kind, text: self.text@, target: opt_view(self.target) }
    }
}

/// The inline segments of one line of a document.
#[derive(Clone, Debug, PartialEq, Eq)]
pub struct InlineLine {
    pub line: usize,
    pub segments: Vec<InlineSegment>,
}

/// The value an [`InlineLine`] stands for.
pub struct InlineLineView {
    pub line: int,
    pub segments: Seq<SegmentView>,
}

impl DeepView for InlineLine {
    type V = InlineLineView;

    open spec fn deep_view(&self) -> InlineLineView {
        InlineLineView { line: self.line as int, segments: self.segments.deep_view() }
    }
}

/// A segment of the given kind, text and target.
pub open spec fn seg(kind: InlineKind, text: Seq<char>, target: Option<Seq<char>>) -> SegmentView {
    SegmentView { kind, text, target }
}

/// After an opening bracket: the text up to `](`, the target up to `)`,
/// and how many characters that consumed.
pub open spec fn bracket_target_spec(s: Seq<char>) -> Option<(Seq<char>, Seq<char>, int)> {
    match find(s, seq![']', '(']) {
        Some(e) => {
            let after = s.skip(e + 2);
            match find(after, seq![')']) {
                Some(t) => Some((s.take(e), after.take(t), e + 2 + t + 1)),
                None => None,
            }
        },
        None => None,
    }
}

/// A span opened and closed by the delimiter `d`, with non-empty text.
pub open spec fn delimited_spec(rest: Seq<char>, d: Seq<char>, kind: InlineKind) -> Option<
    (SegmentView, int),
> {
    if starts_with(rest, d) {
        let st = rest.skip(d.len() as int);
        match find(st, d) {
            Some(e) => if e > 0 {
                Some((seg(kind, st.take(e), None), d.len() + e + d.len()))
            } else {
                None
            },
            None => None,
        }
    } else {
        None
    }
}

/// The first of two optional matches.
pub open spec fn first_of<T>(a: Option<T>, b: Option<T>) -> Option<T> {
    if a is Some {
        a
    } else {
        b
    }
}

/// Code, bold-italic, bold, italic and strikethrough spans, tried in order.
pub open spec fn emphasis_spec(rest: Seq<char>) -> Option<(SegmentView, int)> {
    first_of(
        delimited_spec(rest, seq!['`'], InlineKind::Code),
        first_of(
            delimited_spec(rest, seq!['*', '*', '*'], InlineKind::BoldItalic),
            first_of(
                delimited_spec(rest, seq!['_', '_', '_'], InlineKind::BoldItalic),
                first_of(
                    delimited_spec(rest, seq!['*', '*'], InlineKind::Bold),
                    first_of(
                        delimited_spec(rest, seq!['_', '_'], InlineKind::Bold),
                        first_of(
                            delimited_spec(rest, seq!['*'], InlineKind::Italic),
                            first_of(
                                delimited_spec(rest, seq!['_'], InlineKind::Italic),
                                delimited_spec(rest, seq!['~', '~'], InlineKind::Strikethrough),
                            ),
                        ),
                    ),
                ),
            ),
        ),
    )
}

/// An image `![alt](target)`.
pub open spec fn image_spec(rest: Seq<char>) -> Option<(SegmentView, int)> {
    if starts_with(rest, seq!['!', '[']) {
        match bracket_target_spec(rest.skip(2)) {
            Some((alt, target, n)) => Some((seg(InlineKind::Image, alt, Some(target)), 2 + n)),
            None => None,
        }
    } else {
        None
    }
}

/// A link `[text](target)`.
pub open spec fn link_spec(rest: Seq<char>) -> Option<(SegmentView, int)> {
    if starts_with(rest, seq!['[']) {
        match bracket_target_spec(rest.skip(1)) {
            Some((text, target, n)) => Some((seg(InlineKind::Link, text, Some(target)), 1 + n)),
            None => None,
        }
    } else {
        None
    }
}

/// An autolink `<target>` whose target holds `://` or `@`.
pub open spec fn autolink_spec(rest: Seq<char>) -> Option<(SegmentView, int)> {
    if starts_with(rest, seq!['<']) {
        let st = rest.skip(1);
        match find(st, seq!['>']) {
            Some(e) => {
                let t = st.take(e);
                if contains(t, seq![':', '/', '/']) || contains(t, seq!['@']) {
                    Some((seg(InlineKind::Autolink, t, Some(t)), 1 + e + 1))
                } else {
                    None
                }
            },
            None => None,
        }
    } else {
        None
    }
}

/// The inline construct that begins `rest`, if any, and its length.
pub open spec fn match_inline_spec(rest: Seq<char>) -> Option<(SegmentView, int)> {
    first_of(
        image_spec(rest),
        first_of(link_spec(rest), first_of(autolink_spec(rest), emphasis_spec(rest))),
    )
}

/// Segments of `rest` before adjacent text is merged: each inline
/// construct, and each other character as text of its own.
pub open spec fn tokenize_raw(rest: Seq<char>) -> Seq<SegmentView>
    decreases rest.len(),
{
    if rest.len() == 0 {
        Seq::empty()
    } else {
        match match_inline_spec(rest) {
            Some((sg, n)) => if 0 < n <= rest.len() {
                seq![sg].add(tokenize_raw(rest.skip(n)))
            } else {
                Seq::empty()
            },
            None => seq![seg(InlineKind::Text, seq![rest[0]], None)].add(
                tokenize_raw(rest.skip(1)),
            ),
        }
    }
}

/// `segs` with each run of adjacent text segments merged into one.
pub open spec fn coalesce(segs: Seq<SegmentView>) -> Seq<SegmentView>
    decreases segs.len(),
{
    if segs.len() == 0 {
        Seq::empty()
    } else {
        let out = coalesce(segs.drop_last());
        let s = segs.last();
        if s.kind == InlineKind::Text && out.len() > 0 && out.last().kind == InlineKind::Text {
            out.update(out.len() - 1, seg(InlineKind::Text, out.last().text + s.text, out.last().target))
        } else {
            out.push(s)
        }
    }
}

/// The inline segments of a line of markdown.
pub open spec fn tokenize_spec(text: Seq<char>) -> Seq<SegmentView> {
    coalesce(tokenize_raw(text))
}

pub proof fn lemma_find_len(s: Seq<char>, p: Seq<char>)
    ensures
        find(s, p) matches Some(k) ==> 0 <= k && k + p.len() <= s.len(),
{
    lemma_find_from(s, p, 0);
}

/// Every match consumes at least one character and no more than it has.
pub proof fn lemma_match_inline_len(rest: Seq<char>)
    ensures
        match_inline_spec(rest) matches Some((sg, n)) ==> 0 < n <= rest.len(),
{
    let d = seq![']', '('];
    lemma_find_len(rest.skip(2), d);
    lemma_find_len(rest.skip(1), d);
    if let Some(e) = find(rest.skip(2), d) {
        lemma_find_len(rest.skip(2).skip(e + 2), seq![')']);
    }
    if let Some(e) = find(rest.skip(1), d) {
        lemma_find_len(rest.skip(1).skip(e + 2), seq![')']);
    }
    lemma_find_len(rest.skip(1), seq!['>']);
    lemma_find_len(rest.skip(1), seq!['`']);
    lemma_find_len(rest.skip(3), seq!['*', '*', '*']);
    lemma_find_len(rest.skip(3), seq!['_', '_', '_']);
    lemma_find_len(rest.skip(2), seq!['*', '*']);
    lemma_find_len(rest.skip(2), seq!['_', '_']);
    lemma_find_len(rest.skip(1), seq!['*']);
    lemma_find_len(rest.skip(1), seq!['_']);
    lemma_find_len(rest.skip(2), seq!['~', '~']);
}

fn mk_seg(kind: InlineKind, text: &[char], target: Option<&[char]>) -> (r: InlineSegment)
    ensures
        r.deep_view() == seg(
            kind,
            text@,
            match target {
                Some(t) => Some(t@),
                None => None,
            },
        ),
{
    InlineSegment {
        kind,
        text: string_of(text),
        target: match target {
            Some(t) => Some(string_of(t)),
            None => None,
        },
    }
}

/// After an opening bracket: `(text_end, target_start, target_end, consumed)`.
fn bracket_target(s: &[char]) -> (r: Option<(usize, usize, usize, usize)>)
    ensures
        match r {
            Some((te, ts, tend, n)) => te <= ts <= tend <= s.len() && n <= s.len()
                && bracket_target_spec(s@) == Some(
                (s@.take(te as int), s@.subrange(ts as int, tend as int), n as int),
            ),
            None => bracket_target_spec(s@) is None,
        },
{
    let d = [']', '('];
    assert(d@ == seq![']', '(']);
    match find_in(s, &d, 0) {
        Some(e) => {
            proof {
                lemma_find_len(s@, d@);
            }
            assert(e + 2 <= s.len());
            let after = &s[e + 2..s.len()];
            assert(after@ == s@.skip(e + 2));
            match find_char(after, ')') {
                Some(t) => {
                    proof {
                        lemma_find_len(after@, seq![')']);
                    }
                    assert(s@.subrange(e + 2, e + 2 + t) == after@.take(t as int));
                    Some((e, e + 2, e + 2 + t, e + 2 + t + 1))
                },
                None => None,
            }
        },
        None => None,
    }
}

fn delimited(rest: &[char], d: &[char], kind: InlineKind) -> (r: Option<(InlineSegment, usize)>)
    ensures
        match r {
            Some((sg, n)) => delimited_spec(rest@, d@, kind) == Some((sg.deep_view(), n as int)),
            None => delimited_spec(rest@, d@, kind) is None,
        },
{
    if !has_prefix(rest, d) {
        return None;
    }
    let st = &rest[d.len()..rest.len()];
    assert(st@ == rest@.skip(d@.len() as int));
    match find_in(st, d, 0) {
        Some(e) => {
            proof {
                lemma_find_len(st@, d@);
            }
            if e > 0 {
                let sg = mk_seg(kind, &st[0..e], None);
                assert(st@.subrange(0, e as int) == st@.take(e as int));
                Some((sg, d.len() + e + d.len()))
            } else {
                None
            }
        },
        None => None,
    }
}

fn emphasis(rest: &[char]) -> (r: Option<(InlineSegment, usize)>)
    ensures
        match r {
            Some((sg, n)) => emphasis_spec(rest@) == Some((sg.deep_view(), n as int)),
            None => emphasis_spec(rest@) is None,
        },
{
    let d1 = ['`'];
    let d2 = ['*', '*', '*'];
    let d3 = ['_', '_', '_'];
    let d4 = ['*', '*'];
    let d5 = ['_', '_'];
    let d6 = ['*'];
    let d7 = ['_'];
    let d8 = ['~', '~'];
    assert(d1@ == seq!['`']);
    assert(d2@ == seq!['*', '*', '*']);
    assert(d3@ == seq!['_', '_', '_']);
    assert(d4@ == seq!['*', '*']);
    assert(d5@ == seq!['_', '_']);
    assert(d6@ == seq!['*']);
    assert(d7@ == seq!['_']);
    assert(d8@ == seq!['~', '~']);
    let r = delimited(rest, &d1, InlineKind::Code);
    if r.is_some() {
        return r;
    }
    let r = delimited(rest, &d2, InlineKind::BoldItalic);
    if r.is_some() {
        return r;
    }
    let r = delimited(rest, &d3, InlineKind::BoldItalic);
    if r.is_some() {
        return r;
    }
    let r = delimited(rest, &d4, InlineKind::Bold);
    if r.is_some() {
        return r;
    }
    let r = delimited(rest, &d5, InlineKind::Bold);
    if r.is_some() {
        return r;
    }
    let r = delimited(rest, &d6, InlineKind::Italic);
    if r.is_some() {
        return r;
    }
    let r = delimited(rest, &d7, InlineKind::Italic);
    if r.is_some() {
        return r;
    }
    delimited(rest, &d8, InlineKind::Strikethrough)
}

/// The inline construct that begins `rest`, if any, and its length.
fn match_inline(rest: &[char]) -> (r: Option<(InlineSegment, usize)>)
    ensures
        match r {
            Some((sg, n)) => match_inline_spec(rest@) == Some((sg.deep_view(), n as int)),
            None => match_inline_spec(rest@) is None,
        },
{
    let img = ['!', '['];
    assert(img@ == seq!['!', '[']);
    if has_prefix(rest, &img) {
        let st = &rest[2..rest.len()];
        assert(st@ == rest@.skip(2));
        match bracket_target(st) {
            Some((te, ts, tend, n)) => {
                return Some(
                    (mk_seg(InlineKind::Image, &st[0..te], Some(&st[ts..tend])), 2 + n),
                );
            },
            None => {},
        }
    }
    assert(image_spec(rest@) is None);
    if rest.len() >= 1 && rest[0] == '[' {
        assert(rest@.take(1) =~= seq!['[']);
        let st = &rest[1..rest.len()];
        assert(st@ == rest@.skip(1));
        match bracket_target(st) {
            Some((te, ts, tend, n)) => {
                return Some((mk_seg(InlineKind::Link, &st[0..te], Some(&st[ts..tend])), 1 + n));
            },
            None => {},
        }
    }
    assert(link_spec(rest@) is None) by {
        if starts_with(rest@, seq!['[']) {
            assert(rest@.take(1)[0] == rest@[0]);
        }
    }
    if rest.len() >= 1 && rest[0] == '<' {
        assert(rest@.take(1) =~= seq!['<']);
        let st = &rest[1..rest.len()];
        assert(st@ == rest@.skip(1));
        match find_char(st, '>') {
            Some(e) => {
                proof {
                    lemma_find_len(st@, seq!['>']);
                }
                let t = &st[0..e];
                assert(t@ == st@.take(e as int));
                let sep = [':', '/', '/'];
                assert(sep@ == seq![':', '/', '/']);
                if find_in(t, &sep, 0).is_some() || find_char(t, '@').is_some() {
                    return Some((mk_seg(InlineKind::Autolink, t, Some(t)), 1 + e + 1));
                }
            },
            None => {},
        }
    }
    assert(autolink_spec(rest@) is None) by {
        if starts_with(rest@, seq!['<']) {
            assert(rest@.take(1)[0] == rest@[0]);
        }
    }
    emphasis(rest)
}

/// The segments of `text` before adjacent text is merged.
fn tokenize_raw_exec(text: &[char]) -> (r: Vec<InlineSegment>)
    ensures
        r.deep_view() == tokenize_raw(text@),
{
    let mut out: Vec<InlineSegment> = Vec::new();
    let mut pos: usize = 0;
    assert(text@.skip(0) == text@);
    while pos < text.len()
        invariant
            pos <= text.len(),
            out.deep_view() + tokenize_raw(text@.skip(pos as int)) == tokenize_raw(text@),
        decreases text.len() - pos,
    {
        let rest = &text[pos..text.len()];
        assert(rest@ == text@.skip(pos as int));
        proof {
            lemma_match_inline_len(rest@);
        }
        let ghost before = out.deep_view();
        match match_inline(rest) {
            Some((sg, n)) => {
                let ghost sv = sg.deep_view();
                out.push(sg);
                assert(out.deep_view() =~= before.push(sv));
                assert(rest@.skip(n as int) == text@.skip(pos + n));
                assert(out.deep_view() + tokenize_raw(text@.skip(pos + n)) =~= before
                    + tokenize_raw(rest@));
                pos = pos + n;
            },
            None => {
                let one = [rest[0]];
                let sg = mk_seg(InlineKind::Text, &one, None);
                assert(one@ == seq![rest@[0]]);
                let ghost sv = sg.deep_view();
                out.push(sg);
                assert(out.deep_view() =~= before.push(sv));
                assert(rest@.skip(1) == text@.skip(pos + 1));
                assert(out.deep_view() + tokenize_raw(text@.skip(pos + 1)) =~= before
                    + tokenize_raw(rest@));
                pos = pos + 1;
            },
        }
    }
    assert(tokenize_raw(text@.skip(pos as int)) =~= Seq::<SegmentView>::empty());
    assert(out.deep_view() + tokenize_raw(text@.skip(pos as int)) =~= out.deep_view());
    out
}

/// A copy of a segment.
fn copy_segment(sg: &InlineSegment) -> (r: InlineSegment)
    ensures
        r.deep_view() == sg.deep_view(),
{
    InlineSegment {
        kind: sg.kind,
        text: sg.text.clone(),
        target: match &sg.target {
            Some(t) => Some(t.clone()),
            None => None,
        },
    }
}

/// Merges each run of adjacent text segments into one.
fn coalesce_text(segments: Vec<InlineSegment>) -> (r: Vec<InlineSegment>)
    ensures
        r.deep_view() == coalesce(segments.deep_view()),
{
    let ghost all = segments.deep_view();
    let mut out: Vec<InlineSegment> = Vec::new();
    let mut i: usize = 0;
    assert(all.take(0) =~= Seq::<SegmentView>::empty());
    while i < segments.len()
        invariant
            i <= segments.len(),
            all == segments.deep_view(),
            out.deep_view() == coalesce(all.take(i as int)),
        decreases segments.len() - i,
    {
        let sg = copy_segment(&segments[i]);
        assert(all.take(i + 1).drop_last() == all.take(i as int));
        assert(all.take(i + 1).last() == all[i as int]);
        let ghost before = out.deep_view();
        let ghost sv = all[i as int];
        if sg.kind == InlineKind::Text && out.len() > 0 && out[out.len() - 1].kind == InlineKind::Text {
            assert(before.last() == out[out.len() - 1].deep_view());
            let mut prev = out.pop().unwrap();
            prev.text.append(sg.text.as_str());
            out.push(prev);
            assert(out.deep_view() =~= before.update(
                before.len() - 1,
                seg(InlineKind::Text, before.last().text + sv.text, before.last().target),
            ));
        } else {
            out.push(sg);
            assert(out.deep_view() =~= before.push(sv));
        }
        i += 1;
    }
    assert(all.take(i as int) == all);
    out
}

/// The inline segments of a sequence of characters.
pub fn tokenize_chars(text: &[char]) -> (r: Vec<InlineSegment>)
    ensures
        r.deep_view() == tokenize_spec(text@),
{
    coalesce_text(tokenize_raw_exec(text))
}

/// The inline markdown segments of a line: images, links, autolinks, code,
/// emphasis and strikethrough, with the text between them merged.
pub fn tokenize_inline(text: &str) -> (r: Vec<InlineSegment>)
    ensures
        r.deep_view() == tokenize_spec(text@),
{
    let chars = chars_of(text);
    tokenize_chars(chars.as_slice())
}

/// The inline segments of every line of a document.
pub open spec fn tokenize_document_spec(content: Seq<char>) -> Seq<InlineLineView> {
    let lines = split(content, '\n');
    Seq::new(lines.len(), |i: int| InlineLineView { line: i, segments: tokenize_spec(lines[i]) })
}

/// The inline segments of every line of a document, with line indices.
pub fn tokenize_inline_document(content: &str) -> (r: Vec<InlineLine>)
    ensures
        r.deep_view() == tokenize_document_spec(content@),
{
    let chars = chars_of(content);
    let lines = split_on(chars.as_slice(), '\n');
    let ghost ls = split(content@, '\n');
    let mut out: Vec<InlineLine> = Vec::new();
    let mut i: usize = 0;
    while i < lines.len()
        invariant
            i <= lines.len(),
            lines.deep_view() == ls,
            out.deep_view() == Seq::new(
                i as nat,
                |k: int| InlineLineView { line: k, segments: tokenize_spec(ls[k]) },
            ),
        decreases lines.len() - i,
    {
        assert(lines[i as int]@ == ls[i as int]);
        let segments = tokenize_chars(lines[i].as_slice());
        let ghost before = out.deep_view();
        let il = InlineLine { line: i, segments };
        let ghost ilv = InlineLineView { line: i as int, segments: tokenize_spec(ls[i as int]) };
        assert(il.deep_view() == ilv);
        out.push(il);
        assert(out.deep_view() =~= before.push(ilv));
        assert(out.deep_view() =~= Seq::new(
            (i + 1) as nat,
            |k: int| InlineLineView { line: k, segments: tokenize_spec(ls[k]) },
        ));
        i += 1;
    }
    out
}


// ---------------------------------------------------------------------
// Laws of the whole document

/// A line that begins with `#`.
pub open spec fn hash_line(line: Seq<char>) -> bool {
    line.len() > 0 && line[0] == '#'
}

proof fn lemma_heading_iff_hash(line: Seq<char>)
    ensures
        heading_spec(line) is Some <==> hash_line(line),
        heading_spec(line) matches Some((lv, _)) ==> 1 <= lv <= 6,
{
    lemma_hash_run(line, 0);
    if hash_line(line) {
        lemma_hash_run(line, 1);
        assert(hash_run(line, 0) == hash_run(line, 1));
    }
}

proof fn lemma_outline_from(lines: Seq<Seq<char>>, i: int)
    requires
        0 <= i,
    ensures
        forall|k: int|
            #![trigger outline_from(lines, i)[k]]
            0 <= k < outline_from(lines, i).len() ==> {
                let it = outline_from(lines, i)[k];
                &&& i <= it.line < lines.len()
                &&& heading_spec(lines[it.line]) == Some((it.level, it.text))
                &&& 1 <= it.level <= 6
            },
        forall|k: int, m: int|
            0 <= k < m < outline_from(lines, i).len() ==> #[trigger] outline_from(lines, i)[k].line
                < #[trigger] outline_from(lines, i)[m].line,
        forall|j: int|
            i <= j < lines.len() && #[trigger] hash_line(lines[j]) ==> exists|k: int|
                0 <= k < outline_from(lines, i).len() && outline_from(lines, i)[k].line == j,
    decreases lines.len() - i,
{
    if i < lines.len() {
        lemma_outline_from(lines, i + 1);
        lemma_heading_iff_hash(lines[i]);
        let rest = outline_from(lines, i + 1);
        let r = outline_from(lines, i);
        match heading_spec(lines[i]) {
            Some((lv, title)) => {
                let it = OutlineItemView { level: lv, text: title, line: i };
                assert(r == seq![it].add(rest));
                assert forall|k: int| 0 < k < r.len() implies #[trigger] r[k] == rest[k - 1] by {}
                assert forall|j: int|
                    i <= j < lines.len() && #[trigger] hash_line(lines[j]) implies exists|k: int|
                        0 <= k < r.len() && r[k].line == j by {
                    if j == i {
                        assert(r[0].line == j);
                    } else {
                        let k0 = choose|k: int| 0 <= k < rest.len() && rest[k].line == j;
                        assert(r[k0 + 1] == rest[k0]);
                    }
                }
                assert forall|k: int, m: int| 0 <= k < m < r.len() implies #[trigger] r[k].line
                    < #[trigger] r[m].line by {
                    assert(r[m] == rest[m - 1]);
                    if k > 0 {
                        assert(r[k] == rest[k - 1]);
                    }
                }
            },
            None => {
                assert(r == rest);
            },
        }
    }
}

/// The outline lists every line that begins with `#` (in code blocks
/// too), each once, in the order of the document, with its level (one to
/// six leading `#`) and its title as the line gives them.
pub proof fn law_outline_lists_headings(content: Seq<char>)
    ensures
        ({
            let ls = split(content, '\n');
            let r = outline_spec(content);
            &&& forall|k: int|
                #![trigger r[k]]
                0 <= k < r.len() ==> 0 <= r[k].line < ls.len() && hash_line(ls[r[k].line])
                    && heading_spec(ls[r[k].line]) == Some((r[k].level, r[k].text))
                    && 1 <= r[k].level <= 6
            &&& forall|k: int, m: int| 0 <= k < m < r.len() ==> #[trigger] r[k].line < #[trigger] r[m].line
            &&& forall|j: int|
                0 <= j < ls.len() && #[trigger] hash_line(ls[j]) ==> exists|k: int|
                    0 <= k < r.len() && r[k].line == j
        }),
{
    let ls = split(content, '\n');
    lemma_outline_from(ls, 0);
    let r = outline_spec(content);
    assert forall|k: int| 0 <= k < r.len() implies #[trigger] hash_line(ls[r[k].line]) by {
        lemma_heading_iff_hash(ls[r[k].line]);
    }
}

proof fn lemma_classify_lines(lines: Seq<Seq<char>>, in_code: bool, lang: Seq<char>)
    ensures
        classify_lines(lines, in_code, lang).len() == lines.len(),
        forall|i: int|
            #![trigger classify_lines(lines, in_code, lang)[i]]
            0 <= i < lines.len() ==> classify_shape(classify_lines(lines, in_code, lang)[i], lines[i]),
    decreases lines.len(),
{
    if lines.len() > 0 {
        let (c, ic, l) = classify_step(lines[0], in_code, lang);
        lemma_classify_lines(lines.drop_first(), ic, l);
        let r = classify_lines(lines, in_code, lang);
        let rest = classify_lines(lines.drop_first(), ic, l);
        assert(r == seq![c].add(rest));
        assert(classify_shape(c, lines[0]));
        assert forall|i: int| 0 <= i < lines.len() implies #[trigger] classify_shape(r[i], lines[i]) by {
            if i > 0 {
                assert(r[i] == rest[i - 1]);
                assert(lines[i] == lines.drop_first()[i - 1]);
            }
        }
    }
}

/// How a classified line relates to its source line: a heading carries its
/// level and the title that [`heading_spec`] reads; any other line carries
/// no level and its whole text; only code lines carry a language, and a
/// fence line is always code.
pub open spec fn classify_shape(c: ClassifiedLineView, line: Seq<char>) -> bool {
    &&& (c.kind matches LineKind::Heading(lv) ==> c.level == Some(lv) && heading_spec(line) == Some(
        (lv, c.text),
    ))
    &&& (!(c.kind is Heading) ==> c.level is None && c.text == line)
    &&& (c.language is Some ==> c.kind == LineKind::CodeBlock)
    &&& (is_fence(line) ==> c.kind == LineKind::CodeBlock)
}

/// Classifying a document gives one class per line, each shaped as
/// [`classify_shape`] says.
pub proof fn law_classified_lines(content: Seq<char>)
    ensures
        classify_spec(content).len() == split(content, '\n').len(),
        forall|i: int|
            #![trigger classify_spec(content)[i]]
            0 <= i < classify_spec(content).len() ==> classify_shape(
                classify_spec(content)[i],
                split(content, '\n')[i],
            ),
{
    lemma_classify_lines(split(content, '\n'), false, Seq::empty());
}


proof fn lemma_delimited_kind(rest: Seq<char>, d: Seq<char>, kind: InlineKind)
    ensures
        delimited_spec(rest, d, kind) matches Some((sg, _)) ==> sg.kind == kind,
{
}

proof fn lemma_match_not_text(rest: Seq<char>)
    ensures
        match_inline_spec(rest) matches Some((sg, _)) ==> sg.kind != InlineKind::Text,
{
    lemma_delimited_kind(rest, seq!['`'], InlineKind::Code);
    lemma_delimited_kind(rest, seq!['*', '*', '*'], InlineKind::BoldItalic);
    lemma_delimited_kind(rest, seq!['_', '_', '_'], InlineKind::BoldItalic);
    lemma_delimited_kind(rest, seq!['*', '*'], InlineKind::Bold);
    lemma_delimited_kind(rest, seq!['_', '_'], InlineKind::Bold);
    lemma_delimited_kind(rest, seq!['*'], InlineKind::Italic);
    lemma_delimited_kind(rest, seq!['_'], InlineKind::Italic);
    lemma_delimited_kind(rest, seq!['~', '~'], InlineKind::Strikethrough);
}

/// Text segments with some text and no target.
pub open spec fn plain_texts(segs: Seq<SegmentView>) -> bool {
    forall|k: int|
        0 <= k < segs.len() && (#[trigger] segs[k]).kind == InlineKind::Text ==> segs[k].text.len() > 0
            && segs[k].target is None
}

/// No two text segments side by side.
pub open spec fn no_adjacent_text(segs: Seq<SegmentView>) -> bool {
    forall|k: int, m: int|
        0 <= k && m == k + 1 && m < segs.len() ==> !((#[trigger] segs[k]).kind == InlineKind::Text
            && (#[trigger] segs[m]).kind == InlineKind::Text)
}

proof fn lemma_raw_texts(rest: Seq<char>)
    ensures
        plain_texts(tokenize_raw(rest)),
    decreases rest.len(),
{
    if rest.len() > 0 {
        lemma_match_not_text(rest);
        let r = tokenize_raw(rest);
        match match_inline_spec(rest) {
            Some((sg, n)) => {
                if 0 < n <= rest.len() {
                    lemma_raw_texts(rest.skip(n));
                    let t = tokenize_raw(rest.skip(n));
                    assert forall|k: int| 0 < k < r.len() implies #[trigger] r[k] == t[k - 1] by {}
                }
            },
            None => {
                lemma_raw_texts(rest.skip(1));
                let t = tokenize_raw(rest.skip(1));
                assert forall|k: int| 0 < k < r.len() implies #[trigger] r[k] == t[k - 1] by {}
            },
        }
    }
}

proof fn lemma_merge_last(out: Seq<SegmentView>, s: SegmentView)
    requires
        plain_texts(out),
        no_adjacent_text(out),
        out.len() > 0,
        out.last().kind == InlineKind::Text,
        s.text.len() > 0,
    ensures
        plain_texts(out.update(out.len() - 1, seg(InlineKind::Text, out.last().text + s.text, out.last().target))),
        no_adjacent_text(out.update(out.len() - 1, seg(InlineKind::Text, out.last().text + s.text, out.last().target))),
{
    let n = out.len() - 1;
    let r = out.update(n, seg(InlineKind::Text, out.last().text + s.text, out.last().target));
    assert(out[n] == out.last());
    assert forall|k: int| 0 <= k < r.len() && (#[trigger] r[k]).kind == InlineKind::Text implies r[k].text.len()
        > 0 && r[k].target is None by {
        if k < n {
            assert(r[k] == out[k]);
        }
    }
    assert forall|k: int, m: int| 0 <= k && m == k + 1 && m < r.len() implies !((#[trigger] r[k]).kind
        == InlineKind::Text && (#[trigger] r[m]).kind == InlineKind::Text) by {
        assert(r[k] == out[k]);
        if m < n {
            assert(r[m] == out[m]);
        }
    }
}

proof fn lemma_push_last(out: Seq<SegmentView>, s: SegmentView)
    requires
        plain_texts(out),
        no_adjacent_text(out),
        s.kind == InlineKind::Text ==> s.text.len() > 0 && s.target is None,
        !(s.kind == InlineKind::Text && out.len() > 0 && out.last().kind == InlineKind::Text),
    ensures
        plain_texts(out.push(s)),
        no_adjacent_text(out.push(s)),
{
    let r = out.push(s);
    assert forall|k: int| 0 <= k < r.len() && (#[trigger] r[k]).kind == InlineKind::Text implies r[k].text.len()
        > 0 && r[k].target is None by {
        if k < out.len() {
            assert(r[k] == out[k]);
        }
    }
    assert forall|k: int, m: int| 0 <= k && m == k + 1 && m < r.len() implies !((#[trigger] r[k]).kind
        == InlineKind::Text && (#[trigger] r[m]).kind == InlineKind::Text) by {
        assert(r[k] == out[k]);
        if m < out.len() {
            assert(r[m] == out[m]);
        } else {
            assert(out.last() == out[k]);
        }
    }
}

proof fn lemma_coalesce(segs: Seq<SegmentView>)
    requires
        plain_texts(segs),
    ensures
        plain_texts(coalesce(segs)),
        no_adjacent_text(coalesce(segs)),
    decreases segs.len(),
{
    if segs.len() > 0 {
        let a = segs.drop_last();
        assert forall|k: int| 0 <= k < a.len() && (#[trigger] a[k]).kind == InlineKind::Text implies a[k].text.len()
            > 0 && a[k].target is None by {
            assert(a[k] == segs[k]);
        }
        lemma_coalesce(a);
        let out = coalesce(a);
        let s = segs.last();
        assert(s == segs[segs.len() - 1]);
        if s.kind == InlineKind::Text && out.len() > 0 && out.last().kind == InlineKind::Text {
            lemma_merge_last(out, s);
        } else {
            lemma_push_last(out, s);
        }
    }
}

/// The segments of a line never put two text runs side by side, and every
/// text run holds some text and no target.
pub proof fn law_tokens_merge_text(text: Seq<char>)
    ensures
        no_adjacent_text(tokenize_spec(text)),
        plain_texts(tokenize_spec(text)),
{
    lemma_raw_texts(text);
    lemma_coalesce(tokenize_raw(text));
}


proof fn lemma_skip_indent(ws: Seq<char>, rest: Seq<char>, j: int)
    requires
        0 <= j <= ws.len(),
        forall|k: int| 0 <= k < ws.len() ==> is_ws(#[trigger] ws[k]),
        rest.len() > 0,
        !is_ws(rest[0]),
    ensures
        ws_skip(ws + rest, j) == ws.len(),
    decreases ws.len() - j,
{
    let line = ws + rest;
    if j < ws.len() {
        assert(line[j] == ws[j]);
        lemma_skip_indent(ws, rest, j + 1);
    } else {
        assert(line[j] == rest[0]);
    }
}

proof fn lemma_back_keeps_first(s: Seq<char>, j: int)
    requires
        1 <= j <= s.len(),
        !is_ws(s[0]),
    ensures
        1 <= ws_back(s, j) <= j,
    decreases j,
{
    if j > 1 && is_ws(s[j - 1]) {
        lemma_back_keeps_first(s, j - 1);
    }
}

/// A list item is a list item however far it is indented: a line whose
/// text after its leading white space begins with `-`, `*` or `+` and a
/// space is an unordered list item, unless it is a rule or a table row.
pub proof fn law_indented_bullet(ws: Seq<char>, m: char, x: Seq<char>)
    requires
        forall|k: int| 0 <= k < ws.len() ==> is_ws(#[trigger] ws[k]),
        m == '-' || m == '*' || m == '+',
    ensures
        ({
            let line = ws + seq![m, ' '] + x;
            !is_hr_spec(trim(line)) && !is_table_row_spec(line) && !is_table_separator_spec(line)
                ==> classify_outside_code(line).kind == LineKind::UnorderedList
        }),
{
    let rest = seq![m, ' '] + x;
    let line = ws + rest;
    assert(ws + seq![m, ' '] + x =~= line);
    assert(rest[0] == m);
    assert(rest[1] == ' ');
    lemma_skip_indent(ws, rest, 0);
    assert(trim_start(line) =~= rest);
    lemma_back_keeps_first(rest, rest.len() as int);
    let t = trim(line);
    let b = ws_back(rest, rest.len() as int);
    assert(t == trim_end(rest));
    assert(t == rest.take(b));
    assert(t.len() >= 1);
    assert(t[0] == m);
    if ws.len() > 0 {
        assert(line[0] == ws[0]);
        assert(is_ws(ws[0]));
    } else {
        assert(line[0] == m);
    }
    assert(hash_run(line, 0) == 0);
    assert(heading_spec(line) is None);
    assert(unordered_spec(line));
}


/// The delimiters that wrap emphasis and code, in the order they are tried.
pub open spec fn delims() -> Seq<Seq<char>> {
    seq![
        seq!['`'],
        seq!['*', '*', '*'],
        seq!['_', '_', '_'],
        seq!['*', '*'],
        seq!['_', '_'],
        seq!['*'],
        seq!['_'],
        seq!['~', '~'],
    ]
}

/// A text free of the characters delimiters are made of.
pub open spec fn undelimited(t: Seq<char>) -> bool {
    forall|k: int|
        0 <= k < t.len() ==> #[trigger] t[k] != '*' && t[k] != '_' && t[k] != '~' && t[k] != '`'
}

proof fn lemma_find_end(t: Seq<char>, d: Seq<char>)
    requires
        d.len() > 0,
        forall|k: int| 0 <= k < t.len() ==> #[trigger] t[k] != d[0],
    ensures
        find(t + d, d) == Some(t.len() as int),
{
    let s = t + d;
    let n = t.len() as int;
    assert(s.subrange(n, n + d.len()) =~= d);
    assert(occurs_at(s, d, n));
    lemma_find_from(s, d, 0);
    match find_from(s, d, 0) {
        Some(j) => {
            if j < n {
                assert(occurs_at(s, d, j));
                assert(s.subrange(j, j + d.len())[0] == s[j]);
                assert(s[j] == t[j]);
            }
            if j > n {
                assert(!occurs_at(s, d, n));
            }
        },
        None => {
            assert(!occurs_at(s, d, n));
        },
    }
}

proof fn lemma_wrapped_match(d: Seq<char>, t: Seq<char>, kind: InlineKind)
    requires
        d.len() > 0,
        t.len() > 0,
        undelimited(t),
        d[0] == '*' || d[0] == '_' || d[0] == '~' || d[0] == '`',
    ensures
        delimited_spec(d + t + d, d, kind) == Some(
            (seg(kind, t, None), (d.len() + t.len() + d.len()) as int),
        ),
{
    let rest = d + t + d;
    assert(rest.take(d.len() as int) =~= d);
    assert(rest.skip(d.len() as int) =~= t + d);
    lemma_find_end(t, d);
    assert((t + d).take(t.len() as int) =~= t);
}

proof fn lemma_no_start(rest: Seq<char>, d: Seq<char>, k: int, kind: InlineKind)
    requires
        0 <= k < d.len() <= rest.len(),
        rest[k] != d[k],
    ensures
        delimited_spec(rest, d, kind) is None,
{
    assert(rest.take(d.len() as int)[k] == rest[k]);
}

proof fn lemma_single_segment(rest: Seq<char>, sg: SegmentView)
    requires
        rest.len() > 0,
        match_inline_spec(rest) == Some((sg, rest.len() as int)),
    ensures
        tokenize_spec(rest) == seq![sg],
{
    assert(rest.skip(rest.len() as int) =~= Seq::<char>::empty());
    assert(tokenize_raw(Seq::<char>::empty()) == Seq::<SegmentView>::empty());
    assert(tokenize_raw(rest) == seq![sg].add(tokenize_raw(rest.skip(rest.len() as int))));
    assert(tokenize_raw(rest) =~= seq![sg]);
    assert(seq![sg].drop_last() =~= Seq::<SegmentView>::empty());
    assert(coalesce(Seq::<SegmentView>::empty()) == Seq::<SegmentView>::empty());
    assert(seq![sg].last() == sg);
    assert(coalesce(seq![sg]) =~= seq![sg]);
}

proof fn lemma_not_bracketed(rest: Seq<char>)
    requires
        rest.len() >= 2,
        rest[0] == '*' || rest[0] == '_' || rest[0] == '~' || rest[0] == '`',
    ensures
        image_spec(rest) is None,
        link_spec(rest) is None,
        autolink_spec(rest) is None,
{
    assert(rest.take(2)[0] == rest[0]);
    assert(rest.take(1)[0] == rest[0]);
}

/// Text wrapped in a pair of delimiters is one segment of the delimiters'
/// kind, whichever of the equivalent delimiters wraps it: `**` and `__`
/// make bold, `*` and `_` italic, `***` and `___` bold italic, `~~`
/// strikethrough and `` ` `` code, for any non-empty text that holds none
/// of the delimiter characters.
pub proof fn law_emphasis_kinds(t: Seq<char>)
    requires
        t.len() > 0,
        undelimited(t),
    ensures
        tokenize_spec(seq!['*', '*'] + t + seq!['*', '*']) == seq![seg(InlineKind::Bold, t, None)],
        tokenize_spec(seq!['_', '_'] + t + seq!['_', '_']) == seq![seg(InlineKind::Bold, t, None)],
        tokenize_spec(seq!['*'] + t + seq!['*']) == seq![seg(InlineKind::Italic, t, None)],
        tokenize_spec(seq!['_'] + t + seq!['_']) == seq![seg(InlineKind::Italic, t, None)],
        tokenize_spec(seq!['*', '*', '*'] + t + seq!['*', '*', '*']) == seq![
            seg(InlineKind::BoldItalic, t, None),
        ],
        tokenize_spec(seq!['_', '_', '_'] + t + seq!['_', '_', '_']) == seq![
            seg(InlineKind::BoldItalic, t, None),
        ],
        tokenize_spec(seq!['~', '~'] + t + seq!['~', '~']) == seq![
            seg(InlineKind::Strikethrough, t, None),
        ],
        tokenize_spec(seq!['`'] + t + seq!['`']) == seq![seg(InlineKind::Code, t, None)],
{
    let c1 = seq!['`'];
    let s3 = seq!['*', '*', '*'];
    let u3 = seq!['_', '_', '_'];
    let s2 = seq!['*', '*'];
    let u2 = seq!['_', '_'];
    let s1 = seq!['*'];
    let u1 = seq!['_'];
    let w2 = seq!['~', '~'];
    assert(t[0] != '*' && t[0] != '_' && t[0] != '~' && t[0] != '`');
    // `code`
    let r = c1 + t + c1;
    lemma_wrapped_match(c1, t, InlineKind::Code);
    lemma_not_bracketed(r);
    lemma_single_segment(r, seg(InlineKind::Code, t, None));
    // ***t***
    let r = s3 + t + s3;
    assert(r[0] == '*' && r[3] == t[0]);
    lemma_no_start(r, c1, 0, InlineKind::Code);
    lemma_wrapped_match(s3, t, InlineKind::BoldItalic);
    lemma_not_bracketed(r);
    lemma_single_segment(r, seg(InlineKind::BoldItalic, t, None));
    // ___t___
    let r = u3 + t + u3;
    assert(r[0] == '_' && r[3] == t[0]);
    lemma_no_start(r, c1, 0, InlineKind::Code);
    lemma_no_start(r, s3, 0, InlineKind::BoldItalic);
    lemma_wrapped_match(u3, t, InlineKind::BoldItalic);
    lemma_not_bracketed(r);
    lemma_single_segment(r, seg(InlineKind::BoldItalic, t, None));
    // **t**
    let r = s2 + t + s2;
    assert(r[0] == '*' && r[2] == t[0]);
    lemma_no_start(r, c1, 0, InlineKind::Code);
    lemma_no_start(r, s3, 2, InlineKind::BoldItalic);
    lemma_no_start(r, u3, 0, InlineKind::BoldItalic);
    lemma_wrapped_match(s2, t, InlineKind::Bold);
    lemma_not_bracketed(r);
    lemma_single_segment(r, seg(InlineKind::Bold, t, None));
    // __t__
    let r = u2 + t + u2;
    assert(r[0] == '_' && r[2] == t[0]);
    lemma_no_start(r, c1, 0, InlineKind::Code);
    lemma_no_start(r, s3, 0, InlineKind::BoldItalic);
    lemma_no_start(r, u3, 2, InlineKind::BoldItalic);
    lemma_no_start(r, s2, 0, InlineKind::Bold);
    lemma_wrapped_match(u2, t, InlineKind::Bold);
    lemma_not_bracketed(r);
    lemma_single_segment(r, seg(InlineKind::Bold, t, None));
    // *t*
    let r = s1 + t + s1;
    assert(r[0] == '*' && r[1] == t[0]);
    lemma_no_start(r, c1, 0, InlineKind::Code);
    lemma_no_start(r, s3, 1, InlineKind::BoldItalic);
    lemma_no_start(r, u3, 0, InlineKind::BoldItalic);
    lemma_no_start(r, s2, 1, InlineKind::Bold);
    lemma_no_start(r, u2, 0, InlineKind::Bold);
    lemma_wrapped_match(s1, t, InlineKind::Italic);
    lemma_not_bracketed(r);
    lemma_single_segment(r, seg(InlineKind::Italic, t, None));
    // _t_
    let r = u1 + t + u1;
    assert(r[0] == '_' && r[1] == t[0]);
    lemma_no_start(r, c1, 0, InlineKind::Code);
    lemma_no_start(r, s3, 0, InlineKind::BoldItalic);
    lemma_no_start(r, u3, 1, InlineKind::BoldItalic);
    lemma_no_start(r, s2, 0, InlineKind::Bold);
    lemma_no_start(r, u2, 1, InlineKind::Bold);
    lemma_no_start(r, s1, 0, InlineKind::Italic);
    lemma_wrapped_match(u1, t, InlineKind::Italic);
    lemma_not_bracketed(r);
    lemma_single_segment(r, seg(InlineKind::Italic, t, None));
    // ~~t~~
    let r = w2 + t + w2;
    assert(r[0] == '~' && r[2] == t[0]);
    lemma_no_start(r, c1, 0, InlineKind::Code);
    lemma_no_start(r, s3, 0, InlineKind::BoldItalic);
    lemma_no_start(r, u3, 0, InlineKind::BoldItalic);
    lemma_no_start(r, s2, 0, InlineKind::Bold);
    lemma_no_start(r, u2, 0, InlineKind::Bold);
    lemma_no_start(r, s1, 0, InlineKind::Italic);
    lemma_no_start(r, u1, 0, InlineKind::Italic);
    lemma_wrapped_match(w2, t, InlineKind::Strikethrough);
    lemma_not_bracketed(r);
    lemma_single_segment(r, seg(InlineKind::Strikethrough, t, None));
}

} // verus!
