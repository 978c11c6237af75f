//! The styled preview of a markdown document: lines of spans, each span
//! carrying a style role that the terminal front end turns into colours.
use vstd::prelude::*;
use crate::text::{
    chars_of, string_of, concat, copy_range, trim_start, trim_start_index, ws_skip,
    lemma_ws_skip_bounds, char_skip, lemma_char_skip_bounds, starts_with, has_prefix, is_ws,
    to_uppercase, unicode_upper, split, split_on, is_whitespace, find, find_in, all_digits,
    digits_between, trim, trimmed, trim_bounds,
};
use crate::markdown::{
    InlineKind, InlineSegment, SegmentView, tokenize_spec, tokenize_chars, heading_spec,
    heading_bounds, is_hr_spec, is_hr, list_info_spec, list_info, is_table_separator_spec,
    is_table_separator, table_cells_spec, table_cells, lemma_find_len, is_table_row_spec,
    is_table_row, starts_table_block_spec, fence_language, fence_language_of,
};
use crate::width::{str_width, unicode_str_width, char_width, unicode_char_width};

verus! {

/// What a span of the preview is drawn as.
#[derive(Clone, Copy, Debug, PartialEq, Eq, Structural)]
pub enum StyleRole {
    Plain,
    Text,
    Heading(u8),
    HeadingRule(u8),
    HeadingMarker,
    Quote,
    QuoteMarker,
    ListMarker,
    Rule,
    CodeFence,
    CodeLanguage,
    Code,
    ImageIcon,
    ImageCaption,
    LinkText,
    LinkUrl,
    Bold,
    Italic,
    BoldItalic,
    Strikethrough,
    TableBorder,
    TableHeader,
    TableText,
}

/// The icon drawn before an image's alt text.
pub const IMAGE_ICON: char = '\u{f0976}';

/// A piece of text drawn in one style.
#[derive(Clone, Debug, PartialEq, Eq)]
pub struct StyledSpan {
    pub text: String,
    pub role: StyleRole,
}

/// The value a [`StyledSpan`] stands for.
pub struct SpanView {
    pub text: Seq<char>,
    pub role: StyleRole,
}

impl DeepView for StyledSpan {
    type V = SpanView;

    open spec fn deep_view(&self) -> SpanView {
        SpanView { text: self.text@, role: self.role }
    }
}

/// One row of the preview.
#[derive(Clone, Debug, PartialEq, Eq)]
pub struct StyledLine {
    pub spans: Vec<StyledSpan>,
}

impl DeepView for StyledLine {
    type V = Seq<SpanView>;

    open spec fn deep_view(&self) -> Seq<SpanView> {
        self.spans.deep_view()
    }
}

/// A span of the given text and role.
pub open spec fn sp(text: Seq<char>, role: StyleRole) -> SpanView {
    SpanView { text, role }
}

/// `n` copies of `c`.
pub open spec fn rep(c: char, n: nat) -> Seq<char> {
    Seq::new(n, |_i: int| c)
}

/// `n` saturated to the range of `usize`.
pub open spec fn capped(n: int) -> usize {
    if n > usize::MAX {
        usize::MAX
    } else if n < 0 {
        0
    } else {
        n as usize
    }
}

/// Number of bytes of the UTF-8 encoding of a character.
pub open spec fn utf8_len(c: char) -> nat {
    if (c as u32) < 0x80 {
        1
    } else if (c as u32) < 0x800 {
        2
    } else if (c as u32) < 0x10000 {
        3
    } else {
        4
    }
}

/// Number of bytes of the UTF-8 encoding of a text.
pub open spec fn utf8_count(s: Seq<char>) -> nat
    decreases s.len(),
{
    if s.len() == 0 {
        0
    } else {
        utf8_count(s.drop_last()) + utf8_len(s.last())
    }
}

/// `n` copies of `c`.
fn repeat_char(c: char, n: usize) -> (r: Vec<char>)
    ensures
        r@ == rep(c, n as nat),
{
    let mut r: Vec<char> = Vec::new();
    let mut i: usize = 0;
    while i < n
        invariant
            i <= n,
            r@ == rep(c, i as nat),
        decreases n - i,
    {
        r.push(c);
        assert(r@ =~= rep(c, (i + 1) as nat));
        i += 1;
    }
    r
}

/// The UTF-8 length of a character (`char::len_utf8`).
fn utf8_len_of(c: char) -> (r: usize)
    ensures
        r == utf8_len(c),
{
    let v = c as u32;
    if v < 0x80 {
        1
    } else if v < 0x800 {
        2
    } else if v < 0x10000 {
        3
    } else {
        4
    }
}

/// The UTF-8 length of `s[..n]`, saturated to the range of `usize` (the
/// byte length of a string in memory never comes near it).
fn utf8_count_of(s: &[char], n: usize) -> (r: usize)
    requires
        n <= s.len(),
    ensures
        r == capped(utf8_count(s@.take(n as int)) as int),
{
    let mut total: usize = 0;
    let mut i: usize = 0;
    while i < n
        invariant
            i <= n <= s.len(),
            total == capped(utf8_count(s@.take(i as int)) as int),
        decreases n - i,
    {
        let w = utf8_len_of(s[i]);
        proof {
            let t = s@.take(i + 1);
            assert(t.drop_last() == s@.take(i as int));
            assert(t.last() == s@[i as int]);
        }
        total = total.saturating_add(w);
        i += 1;
    }
    total
}

/// Appends one span.
fn push_span(spans: &mut Vec<StyledSpan>, s: StyledSpan)
    ensures
        final(spans).deep_view() == old(spans).deep_view().push(s.deep_view()),
{
    let ghost before = spans.deep_view();
    let ghost sv = s.deep_view();
    spans.push(s);
    assert(spans.deep_view() =~= before.push(sv));
}

/// A span of the given characters and role.
fn span_of(text: &[char], role: StyleRole) -> (r: StyledSpan)
    ensures
        r.deep_view() == sp(text@, role),
{
    StyledSpan { text: string_of(text), role }
}

// ---------------------------------------------------------------------
// Inline spans

/// The span an inline segment is drawn as; plain text takes `default`.
pub open spec fn inline_span(s: SegmentView, default: StyleRole) -> SpanView {
    match s.kind {
        InlineKind::Text => sp(s.text, default),
        InlineKind::Image => sp(seq![IMAGE_ICON, ' '] + s.text, StyleRole::ImageIcon),
        InlineKind::Link => sp(s.text + seq![' ', '↗'], StyleRole::LinkText),
        InlineKind::Autolink => sp(s.text, StyleRole::LinkUrl),
        InlineKind::Code => sp(s.text, StyleRole::Code),
        InlineKind::Bold => sp(s.text, StyleRole::Bold),
        InlineKind::Italic => sp(s.text, StyleRole::Italic),
        InlineKind::BoldItalic => sp(s.text, StyleRole::BoldItalic),
        InlineKind::Strikethrough => sp(s.text, StyleRole::Strikethrough),
    }
}

/// The spans of a line's inline markdown.
pub open spec fn inline_spans_spec(raw: Seq<char>, default: StyleRole) -> Seq<SpanView> {
    let segs = tokenize_spec(raw);
    Seq::new(segs.len(), |i: int| inline_span(segs[i], default))
}

fn inline_span_of(s: &InlineSegment, default: StyleRole) -> (r: StyledSpan)
    ensures
        r.deep_view() == inline_span(s.deep_view(), default),
{
    let t = chars_of(s.text.as_str());
    match s.kind {
        InlineKind::Text => span_of(&t, default),
        InlineKind::Image => {
            let icon = vec![IMAGE_ICON, ' '];
            let v = concat(&icon, &t);
            span_of(&v, StyleRole::ImageIcon)
        },
        InlineKind::Link => {
            let arrow = vec![' ', '↗'];
            let v = concat(&t, &arrow);
            span_of(&v, StyleRole::LinkText)
        },
        InlineKind::Autolink => span_of(&t, StyleRole::LinkUrl),
        InlineKind::Code => span_of(&t, StyleRole::Code),
        InlineKind::Bold => span_of(&t, StyleRole::Bold),
        InlineKind::Italic => span_of(&t, StyleRole::Italic),
        InlineKind::BoldItalic => span_of(&t, StyleRole::BoldItalic),
        InlineKind::Strikethrough => span_of(&t, StyleRole::Strikethrough),
    }
}

/// The spans of a line's inline markdown: plain text in `default`, images
/// with their icon, links with an arrow, code, emphasis and strikethrough in
/// their own roles.
pub fn render_inline_spans(raw: &[char], default: StyleRole) -> (r: Vec<StyledSpan>)
    ensures
        r.deep_view() == inline_spans_spec(raw@, default),
{
    let segs = tokenize_chars(raw);
    let ghost ss = tokenize_spec(raw@);
    let mut out: Vec<StyledSpan> = Vec::new();
    let mut i: usize = 0;
    while i < segs.len()
        invariant
            i <= segs.len(),
            segs.deep_view() == ss,
            out.deep_view() == Seq::new(i as nat, |k: int| inline_span(ss[k], default)),
        decreases segs.len() - i,
    {
        let span = inline_span_of(&segs[i], default);
        assert(segs[i as int].deep_view() == ss[i as int]);
        let ghost before = out.deep_view();
        let ghost sv = span.deep_view();
        out.push(span);
        assert(out.deep_view() =~= before.push(sv));
        assert(out.deep_view() =~= Seq::new((i + 1) as nat, |k: int| inline_span(ss[k], default)));
        i += 1;
    }
    out
}

/// `old ++ more`.
fn append_spans(out: &mut Vec<StyledSpan>, more: Vec<StyledSpan>)
    ensures
        final(out).deep_view() == old(out).deep_view() + more.deep_view(),
{
    let mut i: usize = 0;
    let ghost start = out.deep_view();
    while i < more.len()
        invariant
            i <= more.len(),
            out.deep_view() == start + more.deep_view().take(i as int),
        decreases more.len() - i,
    {
        let ghost before = out.deep_view();
        let s = StyledSpan { text: more[i].text.clone(), role: more[i].role };
        assert(s.deep_view() == more.deep_view()[i as int]);
        out.push(s);
        assert(out.deep_view() =~= before.push(more.deep_view()[i as int]));
        assert(more.deep_view().take(i + 1) =~= more.deep_view().take(i as int).push(
            more.deep_view()[i as int],
        ));
        i += 1;
    }
    assert(more.deep_view().take(more.len() as int) =~= more.deep_view());
}

// ---------------------------------------------------------------------
// One line of the preview

/// The bullet drawn for an unordered list item at a nesting level.
pub open spec fn bullet_glyph(level: int) -> char {
    if level % 3 == 0 {
        '•'
    } else if level % 3 == 1 {
        '◦'
    } else {
        '▪'
    }
}

/// The spans a single markdown line is drawn as in the preview: headings
/// (the first level in upper case, levels from three on behind a marker),
/// block quotes with one bar per `>`, rules, list items with their marker,
/// code fences, and otherwise the line's inline markdown.
pub open spec fn preview_line_spec(raw: Seq<char>) -> Seq<SpanView> {
    match heading_spec(raw) {
        Some((level, title)) => {
            let text = if level == 1 {
                unicode_upper(title)
            } else {
                title
            };
            let prefix = if level <= 2 {
                Seq::<SpanView>::empty()
            } else {
                seq![sp(seq!['›', ' '], StyleRole::HeadingMarker)]
            };
            prefix + inline_spans_spec(text, StyleRole::Heading(level))
        },
        None => {
            let t = trim_start(raw);
            if t.len() > 0 && t[0] == '>' {
                let q = char_skip(t, '>', 0);
                let lead = capped(utf8_count(raw.take(ws_skip(raw, 0))) as int);
                seq![
                    sp(rep(' ', lead as nat), StyleRole::Plain),
                    sp(rep('▌', q as nat).push(' '), StyleRole::QuoteMarker),
                ] + inline_spans_spec(trim_start(t.skip(q)), StyleRole::Quote)
            } else if is_hr_spec(t) {
                seq![sp(rep('─', if t.len() > 12 { t.len() } else { 12 }), StyleRole::Rule)]
            } else {
                match list_info_spec(raw) {
                    Some(li) => {
                        let marker = if li.ordered {
                            rep(' ', li.indent as nat) + li.marker + seq![' ']
                        } else {
                            rep(' ', li.indent as nat) + seq![bullet_glyph(li.level), ' ']
                        };
                        seq![sp(marker, StyleRole::ListMarker)] + inline_spans_spec(
                            li.content,
                            StyleRole::Text,
                        )
                    },
                    None => if starts_with(raw, seq!['`', '`', '`']) {
                        seq![sp(raw, StyleRole::Code)]
                    } else {
                        inline_spans_spec(raw, StyleRole::Text)
                    },
                }
            }
        },
    }
}

/// Number of leading `c` in `s`.
fn leading_run(s: &[char], c: char) -> (k: usize)
    ensures
        k == char_skip(s@, c, 0),
        k <= s.len(),
{
    let mut i: usize = 0;
    while i < s.len() && s[i] == c
        invariant
            i <= s.len(),
            char_skip(s@, c, i as int) == char_skip(s@, c, 0),
        decreases s.len() - i,
    {
        i += 1;
    }
    i
}

/// The spans of a heading line.
fn heading_spans(raw: &[char], lv: u8, a: usize, b: usize) -> (r: Vec<StyledSpan>)
    requires
        a <= b <= raw.len(),
        heading_spec(raw@) == Some((lv, raw@.subrange(a as int, b as int))),
    ensures
        r.deep_view() == preview_line_spec(raw@),
{
    let title = copy_range(raw, a, b);
    let text = if lv == 1 {
        to_uppercase(&title)
    } else {
        title
    };
    let mut out: Vec<StyledSpan> = Vec::new();
    if lv > 2 {
        let marker = vec!['›', ' '];
        out.push(span_of(&marker, StyleRole::HeadingMarker));
    }
    let rest = render_inline_spans(&text, StyleRole::Heading(lv));
    let ghost pre = out.deep_view();
    append_spans(&mut out, rest);
    proof {
        if lv <= 2 {
            assert(pre =~= Seq::<SpanView>::empty());
        } else {
            assert(pre =~= seq![sp(seq!['›', ' '], StyleRole::HeadingMarker)]);
        }
    }
    out
}

/// The spans of a block quote line whose trimmed start `raw[k..]` begins
/// with `>`.
fn quote_spans(raw: &[char], k: usize) -> (r: Vec<StyledSpan>)
    requires
        k == ws_skip(raw@, 0),
        k < raw.len(),
        raw@[k as int] == '>',
        heading_spec(raw@) is None,
    ensures
        r.deep_view() == preview_line_spec(raw@),
{
    proof {
        lemma_ws_skip_bounds(raw@, 0);
    }
    let t = &raw[k..raw.len()];
    assert(t@ == trim_start(raw@));
    let q = leading_run(t, '>');
    let lead = utf8_count_of(raw, k);
    let after = &t[q..t.len()];
    let c = trim_start_index(after);
    let content = copy_range(after, c, after.len());
    assert(content@ == trim_start(t@.skip(q as int)));
    let pad = repeat_char(' ', lead);
    let mut bars = repeat_char('▌', q);
    bars.push(' ');
    let mut out: Vec<StyledSpan> = Vec::new();
    out.push(span_of(&pad, StyleRole::Plain));
    out.push(span_of(&bars, StyleRole::QuoteMarker));
    let rest = render_inline_spans(&content, StyleRole::Quote);
    let ghost pre = out.deep_view();
    append_spans(&mut out, rest);
    proof {
        assert(pre =~= seq![
            sp(rep(' ', lead as nat), StyleRole::Plain),
            sp(rep('▌', q as nat).push(' '), StyleRole::QuoteMarker),
        ]);
    }
    out
}

/// The spans of a list line.
fn list_spans(raw: &[char]) -> (r: Option<Vec<StyledSpan>>)
    ensures
        match r {
            Some(v) => list_info_spec(raw@) is Some && v.deep_view() == ({
                let li = list_info_spec(raw@)->0;
                let marker = if li.ordered {
                    rep(' ', li.indent as nat) + li.marker + seq![' ']
                } else {
                    rep(' ', li.indent as nat) + seq![bullet_glyph(li.level), ' ']
                };
                seq![sp(marker, StyleRole::ListMarker)] + inline_spans_spec(
                    li.content,
                    StyleRole::Text,
                )
            }),
            None => list_info_spec(raw@) is None,
        },
{
    match list_info(raw) {
        None => None,
        Some(li) => {
            let mut marker = repeat_char(' ', li.indent);
            if li.ordered {
                let mut i = li.start;
                let ghost m0 = marker@;
                while i < li.marker_end
                    invariant
                        li.start <= i <= li.marker_end <= raw.len(),
                        marker@ == m0 + raw@.subrange(li.start as int, i as int),
                    decreases li.marker_end - i,
                {
                    marker.push(raw[i]);
                    assert(raw@.subrange(li.start as int, i + 1) =~= raw@.subrange(
                        li.start as int,
                        i as int,
                    ).push(raw@[i as int]));
                    i += 1;
                }
                marker.push(' ');
            } else {
                let m = li.level % 3;
                let glyph = if m == 0 {
                    '•'
                } else if m == 1 {
                    '◦'
                } else {
                    '▪'
                };
                marker.push(glyph);
                marker.push(' ');
            }
            let content = copy_range(raw, li.content_start, raw.len());
            assert(content@ == raw@.skip(li.content_start as int));
            let mut out: Vec<StyledSpan> = Vec::new();
            out.push(span_of(&marker, StyleRole::ListMarker));
            let rest = render_inline_spans(&content, StyleRole::Text);
            let ghost pre = out.deep_view();
            append_spans(&mut out, rest);
            proof {
                let li2 = list_info_spec(raw@)->0;
                let mk = if li2.ordered {
                    rep(' ', li2.indent as nat) + li2.marker + seq![' ']
                } else {
                    rep(' ', li2.indent as nat) + seq![bullet_glyph(li2.level), ' ']
                };
                assert(marker@ =~= mk);
                assert(pre =~= seq![sp(mk, StyleRole::ListMarker)]);
            }
            Some(out)
        },
    }
}

/// The spans one markdown line is drawn as in the preview.
fn line_spans(raw: &[char]) -> (r: Vec<StyledSpan>)
    ensures
        r.deep_view() == preview_line_spec(raw@),
{
    if let Some((lv, a, b)) = heading_bounds(raw) {
        return heading_spans(raw, lv, a, b);
    }
    let k = trim_start_index(raw);
    proof {
        lemma_ws_skip_bounds(raw@, 0);
    }
    if k < raw.len() && raw[k] == '>' {
        return quote_spans(raw, k);
    }
    let t = &raw[k..raw.len()];
    assert(t@ == trim_start(raw@));
    if is_hr(t) {
        let n = if t.len() > 12 {
            t.len()
        } else {
            12
        };
        let rule = repeat_char('─', n);
        let mut out: Vec<StyledSpan> = Vec::new();
        out.push(span_of(&rule, StyleRole::Rule));
        assert(out.deep_view() =~= seq![sp(rule@, StyleRole::Rule)]);
        return out;
    }
    if let Some(v) = list_spans(raw) {
        return v;
    }
    let fence = ['`', '`', '`'];
    if has_prefix(raw, &fence) {
        let mut out: Vec<StyledSpan> = Vec::new();
        out.push(span_of(raw, StyleRole::Code));
        assert(fence@ == seq!['`', '`', '`']);
        assert(out.deep_view() =~= seq![sp(raw@, StyleRole::Code)]);
        return out;
    }
    assert(fence@ == seq!['`', '`', '`']);
    render_inline_spans(raw, StyleRole::Text)
}

/// One markdown line drawn for the preview.
pub fn render_preview_line(raw: &str) -> (r: StyledLine)
    ensures
        r.deep_view() == preview_line_spec(raw@),
{
    let chars = chars_of(raw);
    StyledLine { spans: line_spans(&chars) }
}

/// One markdown line drawn for the editor, as the preview draws it.
pub fn render_editor_line(raw: &str) -> (r: StyledLine)
    ensures
        r.deep_view() == preview_line_spec(raw@),
{
    render_preview_line(raw)
}

// ---------------------------------------------------------------------
// Tables

/// The cell rows of a table block: each line but the separators, split
/// into its trimmed cells.
pub open spec fn table_rows_spec(lines: Seq<Seq<char>>) -> Seq<Seq<Seq<char>>>
    decreases lines.len(),
{
    if lines.len() == 0 {
        seq![]
    } else if is_table_separator_spec(lines.last()) {
        table_rows_spec(lines.drop_last())
    } else {
        table_rows_spec(lines.drop_last()).push(table_cells_spec(lines.last()))
    }
}

/// The number of cells of the widest row.
pub open spec fn max_cols(rows: Seq<Seq<Seq<char>>>) -> nat
    decreases rows.len(),
{
    if rows.len() == 0 {
        0
    } else {
        let m = max_cols(rows.drop_last());
        if rows.last().len() > m {
            rows.last().len()
        } else {
            m
        }
    }
}

/// The widest a column may grow: the available width shared among the
/// columns, and never less than six.
pub open spec fn width_cap(width: usize, cols: nat) -> int {
    let d = width as int / (if cols > 1 { cols as int } else { 1int });
    if d > 6 {
        d
    } else {
        6
    }
}

/// The width of column `c`: three at least, the widest of its cells, at
/// most `cap`.
pub open spec fn col_width(rows: Seq<Seq<Seq<char>>>, c: int, cap: int) -> int
    decreases rows.len(),
{
    if rows.len() == 0 {
        3
    } else {
        let prev = col_width(rows.drop_last(), c, cap);
        let row = rows.last();
        if 0 <= c < row.len() {
            let cw = unicode_str_width(row[c]) as int;
            let m = if cw > prev {
                cw
            } else {
                prev
            };
            if m < cap {
                m
            } else {
                cap
            }
        } else {
            prev
        }
    }
}

/// The widths of the columns of a table.
pub open spec fn widths_spec(rows: Seq<Seq<Seq<char>>>, width: usize) -> Seq<usize> {
    let cols = max_cols(rows);
    Seq::new(cols, |c: int| col_width(rows, c, width_cap(width, cols)) as usize)
}

/// The inside of a horizontal table rule: a run of `─` two wider than each
/// column, the runs joined by `join`.
pub open spec fn rule_body(ws: Seq<usize>, join: char) -> Seq<char>
    decreases ws.len(),
{
    if ws.len() == 0 {
        seq![]
    } else {
        rule_body(ws.drop_last(), join) + (if ws.len() > 1 {
            seq![join]
        } else {
            seq![]
        }) + rep('─', (ws.last() + 2) as nat)
    }
}

/// A horizontal table rule.
pub open spec fn rule_line(l: char, j: char, r: char, ws: Seq<usize>) -> Seq<SpanView> {
    seq![sp(seq![l] + rule_body(ws, j) + seq![r], StyleRole::TableBorder)]
}

/// The cell of a row at a column, empty past its end.
pub open spec fn cell_at(row: Seq<Seq<char>>, i: int) -> Seq<char> {
    if 0 <= i < row.len() {
        row[i]
    } else {
        seq![]
    }
}

/// The cells of a table row, each padded to its column's width and closed
/// by a border.
pub open spec fn row_body(row: Seq<Seq<char>>, ws: Seq<usize>, role: StyleRole) -> Seq<SpanView>
    decreases ws.len(),
{
    if ws.len() == 0 {
        seq![]
    } else {
        let i = ws.len() - 1;
        let cell = cell_at(row, i);
        let cw = unicode_str_width(cell);
        let pad = if ws[i] > cw {
            ws[i] - cw
        } else {
            0
        };
        row_body(row, ws.drop_last(), role) + seq![
            sp(seq![' '], StyleRole::Plain),
            sp(cell, role),
            sp(rep(' ', (pad + 1) as nat), StyleRole::Plain),
            sp(seq!['│'], StyleRole::TableBorder),
        ]
    }
}

/// A table row.
pub open spec fn row_line(row: Seq<Seq<char>>, ws: Seq<usize>, role: StyleRole) -> Seq<SpanView> {
    seq![sp(seq!['│'], StyleRole::TableBorder)] + row_body(row, ws, role)
}

/// The first `k` rows of a table, the header row followed by a rule when
/// more rows come.
pub open spec fn table_body(rows: Seq<Seq<Seq<char>>>, ws: Seq<usize>, k: int) -> Seq<
    Seq<SpanView>,
>
    decreases k,
{
    if k <= 0 {
        seq![]
    } else {
        let i = k - 1;
        let role = if i == 0 {
            StyleRole::TableHeader
        } else {
            StyleRole::TableText
        };
        let out = table_body(rows, ws, k - 1).push(row_line(rows[i], ws, role));
        if i == 0 && rows.len() > 1 {
            out.push(rule_line('├', '┼', '┤', ws))
        } else {
            out
        }
    }
}

/// A pipe table drawn in a rounded box: top rule, header row, a rule under
/// it when body rows follow, the body rows, bottom rule. Nothing when the
/// block holds no row.
pub open spec fn table_block_spec(lines: Seq<Seq<char>>, width: usize) -> Seq<Seq<SpanView>> {
    let rows = table_rows_spec(lines);
    if rows.len() == 0 {
        seq![]
    } else {
        let ws = widths_spec(rows, width);
        seq![rule_line('╭', '┬', '╮', ws)] + table_body(rows, ws, rows.len() as int) + seq![
            rule_line('╰', '┴', '╯', ws),
        ]
    }
}

proof fn lemma_max_cols(rows: Seq<Seq<Seq<char>>>)
    ensures
        forall|r: int| 0 <= r < rows.len() ==> #[trigger] rows[r].len() <= max_cols(rows),
    decreases rows.len(),
{
    if rows.len() > 0 {
        lemma_max_cols(rows.drop_last());
        assert forall|r: int| 0 <= r < rows.len() implies #[trigger] rows[r].len() <= max_cols(
            rows,
        ) by {
            if r < rows.len() - 1 {
                assert(rows[r] == rows.drop_last()[r]);
            }
        }
    }
}

proof fn lemma_col_width_bounds(rows: Seq<Seq<Seq<char>>>, c: int, cap: int)
    requires
        cap >= 6,
    ensures
        3 <= col_width(rows, c, cap) <= cap,
    decreases rows.len(),
{
    if rows.len() > 0 {
        lemma_col_width_bounds(rows.drop_last(), c, cap);
    }
}

/// The display width of a cell.
pub open spec fn cell_w(x: Seq<char>) -> int {
    unicode_str_width(x) as int
}

/// The smaller of two numbers.
pub open spec fn min_of(a: int, b: int) -> int {
    if a < b {
        a
    } else {
        b
    }
}

proof fn lemma_col_width_fits(rows: Seq<Seq<Seq<char>>>, c: int, cap: int)
    requires
        cap >= 6,
    ensures
        3 <= col_width(rows, c, cap) <= cap,
        forall|r: int|
            0 <= r < rows.len() && 0 <= c < rows[r].len() ==> col_width(rows, c, cap) >= min_of(
                cap,
                cell_w(#[trigger] rows[r][c]),
            ),
        col_width(rows, c, cap) == 3 || col_width(rows, c, cap) == cap || exists|r: int|
            0 <= r < rows.len() && 0 <= c < rows[r].len() && cell_w(#[trigger] rows[r][c]) == col_width(
                rows,
                c,
                cap,
            ),
    decreases rows.len(),
{
    if rows.len() > 0 {
        let a = rows.drop_last();
        lemma_col_width_fits(a, c, cap);
        let n = rows.len() - 1;
        assert(rows.last() == rows[n]);
        assert forall|r: int| 0 <= r < n implies #[trigger] rows[r] == a[r] by {}
        let cw = col_width(rows, c, cap);
        let prev = col_width(a, c, cap);
        if cw != 3 && cw != cap && cw != prev {
            assert(0 <= c < rows[n].len() && cell_w(rows[n][c]) == cw);
        }
        if cw != 3 && cw != cap && cw == prev && prev != 3 && prev != cap {
            let r0 = choose|r: int| 0 <= r < a.len() && 0 <= c < a[r].len() && cell_w(#[trigger] a[r][c]) == prev;
            assert(rows[r0] == a[r0]);
        }
    }
}

proof fn lemma_max_cols_reached(rows: Seq<Seq<Seq<char>>>)
    ensures
        forall|r: int| 0 <= r < rows.len() ==> (#[trigger] rows[r]).len() <= max_cols(rows),
        max_cols(rows) == 0 || exists|r: int| 0 <= r < rows.len() && (#[trigger] rows[r]).len() == max_cols(rows),
    decreases rows.len(),
{
    if rows.len() > 0 {
        let a = rows.drop_last();
        lemma_max_cols_reached(a);
        let n = rows.len() - 1;
        assert(rows.last() == rows[n]);
        assert forall|r: int| 0 <= r < n implies #[trigger] rows[r] == a[r] by {}
        if max_cols(rows) != rows[n].len() && max_cols(rows) != 0 {
            let r0 = choose|r: int| 0 <= r < a.len() && (#[trigger] a[r]).len() == max_cols(a);
            assert(rows[r0] == a[r0]);
        }
    }
}

proof fn lemma_table_rows_cover(lines: Seq<Seq<char>>)
    ensures
        forall|i: int|
            0 <= i < lines.len() && !is_table_separator_spec(#[trigger] lines[i]) ==> exists|r: int|
                0 <= r < table_rows_spec(lines).len() && table_rows_spec(lines)[r] == table_cells_spec(
                    lines[i],
                ),
        forall|r: int|
            0 <= r < table_rows_spec(lines).len() ==> exists|i: int|
                0 <= i < lines.len() && !is_table_separator_spec(lines[i]) && #[trigger] table_rows_spec(
                    lines,
                )[r] == table_cells_spec(lines[i]),
    decreases lines.len(),
{
    if lines.len() > 0 {
        let a = lines.drop_last();
        lemma_table_rows_cover(a);
        let n = lines.len() - 1;
        assert(lines.last() == lines[n]);
        assert forall|i: int| 0 <= i < n implies #[trigger] lines[i] == a[i] by {}
        let ra = table_rows_spec(a);
        let rs = table_rows_spec(lines);
        assert forall|r: int| 0 <= r < ra.len() implies #[trigger] rs[r] == ra[r] by {}
        assert forall|i: int|
            0 <= i < lines.len() && !is_table_separator_spec(#[trigger] lines[i]) implies exists|r: int|
                0 <= r < rs.len() && rs[r] == table_cells_spec(lines[i]) by {
            if i == n {
                assert(rs[rs.len() - 1] == table_cells_spec(lines[n]));
            } else {
                assert(a[i] == lines[i]);
                let r0 = choose|r: int| 0 <= r < ra.len() && ra[r] == table_cells_spec(a[i]);
                assert(rs[r0] == ra[r0]);
            }
        }
        assert forall|r: int| 0 <= r < rs.len() implies exists|i: int|
            0 <= i < lines.len() && !is_table_separator_spec(lines[i]) && #[trigger] rs[r]
                == table_cells_spec(lines[i]) by {
            if r < ra.len() {
                let i0 = choose|i: int| 0 <= i < a.len() && !is_table_separator_spec(a[i]) && ra[r]
                    == table_cells_spec(a[i]);
                assert(lines[i0] == a[i0]);
            } else {
                assert(rs[r] == table_cells_spec(lines[n]));
            }
        }
    }
}

proof fn lemma_widths_cell(rows: Seq<Seq<Seq<char>>>, width: usize, r: int, c: int)
    requires
        0 <= r < rows.len(),
        0 <= c < rows[r].len(),
    ensures
        c < widths_spec(rows, width).len(),
        widths_spec(rows, width)[c] >= min_of(width_cap(width, max_cols(rows)), cell_w(rows[r][c])),
{
    lemma_max_cols_reached(rows);
    assert(rows[r].len() <= max_cols(rows));
    lemma_col_width_fits(rows, c, width_cap(width, max_cols(rows)));
}

proof fn lemma_widths_col(rows: Seq<Seq<Seq<char>>>, width: usize, c: int)
    requires
        0 <= c < widths_spec(rows, width).len(),
    ensures
        3 <= widths_spec(rows, width)[c] <= width_cap(width, max_cols(rows)),
        widths_spec(rows, width)[c] == 3 || widths_spec(rows, width)[c] == width_cap(
            width,
            max_cols(rows),
        ) || exists|r: int|
            0 <= r < rows.len() && 0 <= c < rows[r].len() && cell_w(#[trigger] rows[r][c])
                == widths_spec(rows, width)[c],
{
    lemma_col_width_fits(rows, c, width_cap(width, max_cols(rows)));
}

/// Each column of a rendered table is exactly as wide as the widest of its
/// cells over every row of the block (header and body alike, the
/// separator aside), but three columns at least and no wider than the
/// share of the width it is capped at; so a cell no wider than that cap
/// fits its column. There are as many columns as the row with the most
/// cells has.
#[verifier::spinoff_prover]
pub proof fn law_table_column_widths(lines: Seq<Seq<char>>, width: usize)
    ensures
        ({
            let rows = table_rows_spec(lines);
            let ws = widths_spec(rows, width);
            let cap = width_cap(width, ws.len());
            &&& forall|i: int, c: int|
                0 <= i < lines.len() && !is_table_separator_spec(lines[i]) && 0 <= c
                    < table_cells_spec(lines[i]).len() ==> c < ws.len() && ws[c] >= min_of(
                    cap,
                    cell_w(#[trigger] table_cells_spec(lines[i])[c]),
                )
            &&& forall|c: int| 0 <= c < ws.len() ==> 3 <= #[trigger] ws[c] <= cap
            &&& forall|c: int|
                0 <= c < ws.len() ==> #[trigger] ws[c] == 3 || ws[c] == cap || exists|i: int|
                    0 <= i < lines.len() && !is_table_separator_spec(lines[i]) && c < table_cells_spec(
                        lines[i],
                    ).len() && cell_w(table_cells_spec(lines[i])[c]) == ws[c]
            &&& ws.len() == 0 || exists|i: int|
                0 <= i < lines.len() && !is_table_separator_spec(lines[i]) && table_cells_spec(
                    lines[i],
                ).len() == ws.len()
        }),
{
    let rows = table_rows_spec(lines);
    let ws = widths_spec(rows, width);
    let cols = max_cols(rows);
    assert(ws.len() == cols);
    let cap = width_cap(width, cols);
    lemma_table_rows_cover(lines);
    assert forall|i: int, c: int|
        0 <= i < lines.len() && !is_table_separator_spec(lines[i]) && 0 <= c < table_cells_spec(
            lines[i],
        ).len() implies c < ws.len() && ws[c] >= min_of(
        cap,
        cell_w(#[trigger] table_cells_spec(lines[i])[c]),
    ) by {
        let r0 = choose|r: int| 0 <= r < rows.len() && rows[r] == table_cells_spec(lines[i]);
        lemma_widths_cell(rows, width, r0, c);
    }
    assert forall|c: int| 0 <= c < ws.len() implies 3 <= #[trigger] ws[c] <= cap && (ws[c] == 3 || ws[c]
        == cap || exists|i: int|
        0 <= i < lines.len() && !is_table_separator_spec(lines[i]) && c < table_cells_spec(
            lines[i],
        ).len() && cell_w(table_cells_spec(lines[i])[c]) == ws[c]) by {
        lemma_widths_col(rows, width, c);
        if ws[c] != 3 && ws[c] != cap {
            let r0 = choose|r: int| 0 <= r < rows.len() && 0 <= c < rows[r].len() && cell_w(
                #[trigger] rows[r][c],
            ) == ws[c];
            let i0 = choose|i: int| 0 <= i < lines.len() && !is_table_separator_spec(lines[i])
                && #[trigger] rows[r0] == table_cells_spec(lines[i]);
            assert(table_cells_spec(lines[i0])[c] == rows[r0][c]);
        }
    }
    if ws.len() > 0 {
        lemma_max_cols_reached(rows);
        let r0 = choose|r: int| 0 <= r < rows.len() && (#[trigger] rows[r]).len() == cols;
        let i0 = choose|i: int| 0 <= i < lines.len() && !is_table_separator_spec(lines[i])
            && #[trigger] rows[r0] == table_cells_spec(lines[i]);
        assert(table_cells_spec(lines[i0]).len() == ws.len());
    }
}

/// The cell rows of `lines[start..end]`.
fn table_rows(lines: &Vec<Vec<char>>, start: usize, end: usize) -> (r: Vec<Vec<Vec<char>>>)
    requires
        start <= end <= lines.len(),
    ensures
        r.deep_view() == table_rows_spec(lines.deep_view().subrange(start as int, end as int)),
{
    let ghost ls = lines.deep_view();
    let mut out: Vec<Vec<Vec<char>>> = Vec::new();
    let mut i = start;
    while i < end
        invariant
            start <= i <= end <= lines.len(),
            ls == lines.deep_view(),
            out.deep_view() == table_rows_spec(ls.subrange(start as int, i as int)),
        decreases end - i,
    {
        proof {
            let t = ls.subrange(start as int, i + 1);
            assert(t.drop_last() =~= ls.subrange(start as int, i as int));
            assert(t.last() == ls[i as int]);
            assert(ls[i as int] == lines[i as int]@);
        }
        if !is_table_separator(lines[i].as_slice()) {
            let cells = table_cells(lines[i].as_slice());
            let ghost before = out.deep_view();
            let ghost cv = cells.deep_view();
            out.push(cells);
            assert(out.deep_view() =~= before.push(cv));
        }
        i += 1;
    }
    out
}

/// The display width of a cell.
fn cell_width(cell: &[char]) -> (r: usize)
    ensures
        r == unicode_str_width(cell@),
{
    let s = string_of(cell);
    str_width(s.as_str())
}

/// The widths of the columns of a table.
fn table_widths(rows: &Vec<Vec<Vec<char>>>, width: usize) -> (r: Vec<usize>)
    ensures
        r@ == widths_spec(rows.deep_view(), width),
{
    let ghost rs = rows.deep_view();
    let mut cols: usize = 0;
    let mut k: usize = 0;
    while k < rows.len()
        invariant
            k <= rows.len(),
            rs == rows.deep_view(),
            cols == max_cols(rs.take(k as int)),
        decreases rows.len() - k,
    {
        proof {
            assert(rs.take(k + 1).drop_last() =~= rs.take(k as int));
            assert(rs.take(k + 1).last() == rs[k as int]);
            assert(rs[k as int].len() == rows[k as int].len());
        }
        if rows[k].len() > cols {
            cols = rows[k].len();
        }
        k += 1;
    }
    assert(rs.take(rows.len() as int) =~= rs);
    let d = width / (if cols > 1 {
        cols
    } else {
        1
    });
    let cap = if d > 6 {
        d
    } else {
        6
    };
    let ghost capi = width_cap(width, cols as nat);
    assert(cap == capi);
    let mut widths: Vec<usize> = Vec::new();
    while widths.len() < cols
        invariant
            widths.len() <= cols,
            forall|c: int| 0 <= c < widths.len() ==> #[trigger] widths@[c] == 3,
        decreases cols - widths.len(),
    {
        widths.push(3);
    }
    proof {
        lemma_max_cols(rs);
    }
    let mut r: usize = 0;
    while r < rows.len()
        invariant
            r <= rows.len(),
            rs == rows.deep_view(),
            cols == max_cols(rs),
            cap == capi,
            capi >= 6,
            widths.len() == cols,
            forall|c: int| 0 <= c < cols ==> #[trigger] widths@[c] == col_width(
                rs.take(r as int),
                c,
                capi,
            ),
            forall|q: int| 0 <= q < rs.len() ==> #[trigger] rs[q].len() <= max_cols(rs),
        decreases rows.len() - r,
    {
        let row = &rows[r];
        proof {
            assert(rs.take(r + 1).drop_last() =~= rs.take(r as int));
            assert(rs.take(r + 1).last() == rs[r as int]);
            assert(row.deep_view() == rs[r as int]);
            assert(rs[r as int].len() <= cols);
        }
        let mut j: usize = 0;
        while j < row.len()
            invariant
                j <= row.len() <= cols,
                widths.len() == cols,
                row.deep_view() == rs[r as int],
                r < rs.len(),
                cap == capi,
                capi >= 6,
                forall|c: int| 0 <= c < j ==> #[trigger] widths@[c] == col_width(
                    rs.take(r + 1),
                    c,
                    capi,
                ),
                forall|c: int| j <= c < cols ==> #[trigger] widths@[c] == col_width(
                    rs.take(r as int),
                    c,
                    capi,
                ),
                rs.take(r + 1).drop_last() == rs.take(r as int),
                rs.take(r + 1).last() == rs[r as int],
            decreases row.len() - j,
        {
            assert(row[j as int]@ == rs[r as int][j as int]);
            let cw = cell_width(row[j].as_slice());
            let w = widths[j];
            let m = if cw > w {
                cw
            } else {
                w
            };
            let nw = if m < cap {
                m
            } else {
                cap
            };
            widths.set(j, nw);
            proof {
                assert forall|c: int| 0 <= c < j + 1 implies #[trigger] widths@[c] == col_width(
                    rs.take(r + 1),
                    c,
                    capi,
                ) by {
                    if c == j {
                        assert(nw == col_width(rs.take(r + 1), c, capi));
                    }
                }
            }
            j += 1;
        }
        proof {
            assert forall|c: int| 0 <= c < cols implies #[trigger] widths@[c] == col_width(
                rs.take(r + 1),
                c,
                capi,
            ) by {
                if c >= row.len() {
                    assert(col_width(rs.take(r + 1), c, capi) == col_width(
                        rs.take(r as int),
                        c,
                        capi,
                    ));
                }
            }
        }
        r += 1;
    }
    assert(rs.take(rows.len() as int) =~= rs);
    proof {
        assert forall|c: int| 0 <= c < cols implies col_width(rs, c, capi) <= capi by {
            lemma_col_width_bounds(rs, c, capi);
        }
    }
    assert(widths@ =~= widths_spec(rs, width));
    widths
}

/// A horizontal table rule.
fn rule_exec(l: char, j: char, r: char, ws: &Vec<usize>) -> (out: StyledLine)
    ensures
        out.deep_view() == rule_line(l, j, r, ws@),
{
    let mut text: Vec<char> = Vec::new();
    text.push(l);
    let mut i: usize = 0;
    while i < ws.len()
        invariant
            i <= ws.len(),
            text@ == seq![l] + rule_body(ws@.take(i as int), j),
        decreases ws.len() - i,
    {
        proof {
            assert(ws@.take(i + 1).drop_last() =~= ws@.take(i as int));
            assert(ws@.take(i + 1).last() == ws@[i as int]);
        }
        let ghost before = text@;
        if i > 0 {
            text.push(j);
        }
        let ghost mid = text@;
        let mut k: usize = 0;
        while k < ws[i]
            invariant
                k <= ws[i as int],
                i < ws.len(),
                text@ == mid + rep('─', k as nat),
            decreases ws[i as int] - k,
        {
            text.push('─');
            assert(text@ =~= mid + rep('─', (k + 1) as nat));
            k += 1;
        }
        text.push('─');
        text.push('─');
        assert(text@ =~= mid + rep('─', (ws@[i as int] + 2) as nat));
        assert(text@ =~= seq![l] + rule_body(ws@.take(i + 1), j));
        i += 1;
    }
    assert(ws@.take(ws.len() as int) =~= ws@);
    let ghost body = text@;
    text.push(r);
    assert(text@ =~= body + seq![r]);
    let mut spans: Vec<StyledSpan> = Vec::new();
    push_span(&mut spans, span_of(&text, StyleRole::TableBorder));
    assert(spans.deep_view() =~= rule_line(l, j, r, ws@));
    StyledLine { spans }
}

/// One table row.
fn row_exec(row: &Vec<Vec<char>>, ws: &Vec<usize>, role: StyleRole) -> (out: StyledLine)
    ensures
        out.deep_view() == row_line(row.deep_view(), ws@, role),
{
    let ghost rv = row.deep_view();
    let mut spans: Vec<StyledSpan> = Vec::new();
    let bar = vec!['│'];
    push_span(&mut spans, span_of(&bar, StyleRole::TableBorder));
    assert(bar@ =~= seq!['│']);
    assert(row_body(rv, ws@.take(0), role) =~= Seq::<SpanView>::empty());
    assert(spans.deep_view() =~= seq![sp(seq!['│'], StyleRole::TableBorder)] + row_body(
        rv,
        ws@.take(0),
        role,
    ));
    let mut i: usize = 0;
    while i < ws.len()
        invariant
            i <= ws.len(),
            rv == row.deep_view(),
            bar@ == seq!['│'],
            spans.deep_view() == seq![sp(seq!['│'], StyleRole::TableBorder)] + row_body(
                rv,
                ws@.take(i as int),
                role,
            ),
        decreases ws.len() - i,
    {
        proof {
            assert(ws@.take(i + 1).drop_last() =~= ws@.take(i as int));
            assert(ws@.take(i + 1)[i as int] == ws@[i as int]);
        }
        let empty: Vec<char> = Vec::new();
        let cell: &[char] = if i < row.len() {
            row[i].as_slice()
        } else {
            empty.as_slice()
        };
        assert(cell@ == cell_at(rv, i as int));
        let cw = cell_width(cell);
        let pad = if ws[i] > cw {
            ws[i] - cw
        } else {
            0
        };
        let mut gap = repeat_char(' ', pad);
        gap.push(' ');
        assert(gap@ =~= rep(' ', (pad + 1) as nat));
        let ghost before = spans.deep_view();
        let one = vec![' '];
        assert(one@ =~= seq![' ']);
        push_span(&mut spans, span_of(&one, StyleRole::Plain));
        push_span(&mut spans, span_of(cell, role));
        push_span(&mut spans, span_of(&gap, StyleRole::Plain));
        push_span(&mut spans, span_of(&bar, StyleRole::TableBorder));
        assert(spans.deep_view() =~= before + seq![
            sp(seq![' '], StyleRole::Plain),
            sp(cell@, role),
            sp(rep(' ', (pad + 1) as nat), StyleRole::Plain),
            sp(seq!['│'], StyleRole::TableBorder),
        ]);
        assert(row_body(rv, ws@.take(i + 1), role) == row_body(rv, ws@.take(i as int), role)
            + seq![
            sp(seq![' '], StyleRole::Plain),
            sp(cell@, role),
            sp(rep(' ', (pad + 1) as nat), StyleRole::Plain),
            sp(seq!['│'], StyleRole::TableBorder),
        ]);
        i += 1;
    }
    assert(ws@.take(ws.len() as int) =~= ws@);
    StyledLine { spans }
}

/// The lines `lines[start..end]` of a pipe table drawn in a rounded box.
fn render_table_block(lines: &Vec<Vec<char>>, start: usize, end: usize, width: usize) -> (r: Vec<
    StyledLine,
>)
    requires
        start <= end <= lines.len(),
    ensures
        r.deep_view() == table_block_spec(
            lines.deep_view().subrange(start as int, end as int),
            width,
        ),
{
    let rows = table_rows(lines, start, end);
    let ghost rs = rows.deep_view();
    if rows.len() == 0 {
        return Vec::new();
    }
    let ws = table_widths(&rows, width);
    let mut out: Vec<StyledLine> = Vec::new();
    out.push(rule_exec('╭', '┬', '╮', &ws));
    let mut i: usize = 0;
    while i < rows.len()
        invariant
            i <= rows.len(),
            rs == rows.deep_view(),
            ws@ == widths_spec(rs, width),
            out.deep_view() == seq![rule_line('╭', '┬', '╮', ws@)] + table_body(
                rs,
                ws@,
                i as int,
            ),
        decreases rows.len() - i,
    {
        let role = if i == 0 {
            StyleRole::TableHeader
        } else {
            StyleRole::TableText
        };
        assert(rows[i as int].deep_view() == rs[i as int]);
        let ghost before = out.deep_view();
        let line = row_exec(&rows[i], &ws, role);
        let ghost lv = line.deep_view();
        out.push(line);
        assert(out.deep_view() =~= before.push(lv));
        if i == 0 && rows.len() > 1 {
            let ghost mid = out.deep_view();
            let rule = rule_exec('├', '┼', '┤', &ws);
            let ghost rv = rule.deep_view();
            out.push(rule);
            assert(out.deep_view() =~= mid.push(rv));
        }
        i += 1;
    }
    let ghost before = out.deep_view();
    let bottom = rule_exec('╰', '┴', '╯', &ws);
    let ghost bv = bottom.deep_view();
    out.push(bottom);
    assert(out.deep_view() =~= before.push(bv));
    out
}

// ---------------------------------------------------------------------
// Wrapping styled lines

/// The text of a line, its spans run together.
pub open spec fn plain_of(line: Seq<SpanView>) -> Seq<char>
    decreases line.len(),
{
    if line.len() == 0 {
        seq![]
    } else {
        plain_of(line.drop_last()) + line.last().text
    }
}

/// Each character of a line with the role of its span.
pub open spec fn cells_of(line: Seq<SpanView>) -> Seq<(char, StyleRole)>
    decreases line.len(),
{
    if line.len() == 0 {
        seq![]
    } else {
        let s = line.last();
        cells_of(line.drop_last()) + Seq::new(s.text.len(), |k: int| (s.text[k], s.role))
    }
}

/// The white space that continues a wrapped row so that it lines up under
/// the text of a quote, a list item or a numbered item: as many spaces as
/// the leading white space has bytes, plus the marker; nothing for other
/// lines.
pub open spec fn continuation_spec(plain: Seq<char>) -> Seq<char> {
    let t = trim_start(plain);
    let lead = utf8_count(plain.take(ws_skip(plain, 0))) as int;
    if t.len() > 0 && (t[0] == '▌' || t[0] == '▸' || t[0] == '›' || t[0] == '•' || t[0] == '◦'
        || t[0] == '▪') {
        rep(' ', capped(lead + 2) as nat)
    } else if t.len() >= 2 && (t[0] == '-' || t[0] == '*' || t[0] == '+') && t[1] == ' ' {
        rep(' ', capped(lead + 2) as nat)
    } else {
        match find(t, seq!['.', ' ']) {
            Some(k) => if k > 0 && all_digits(t.take(k)) {
                rep(' ', capped(lead + k + 2) as nat)
            } else {
                seq![]
            },
            None => seq![],
        }
    }
}

/// The columns a character takes when wrapping: its display width, at
/// least one.
pub open spec fn cell_width_of(c: char) -> usize {
    match unicode_char_width(c) {
        Some(w) => if w > 1 {
            w
        } else {
            1
        },
        None => 1,
    }
}

/// The state of wrapping a line: the finished rows, the row being filled,
/// its width, and whether it is the first row.
pub struct WrapState {
    pub rows: Seq<Seq<SpanView>>,
    pub current: Seq<SpanView>,
    pub cw: usize,
    pub first: bool,
}

/// One character added to a wrapped line: it starts a new row, led by the
/// continuation, when it does not fit the row it would join; rows after
/// the first are narrower by the continuation's width (one column at
/// least).
pub open spec fn wrap_step(
    st: WrapState,
    cell: (char, StyleRole),
    width: usize,
    cont: Seq<char>,
    cont_w: usize,
) -> WrapState {
    let w = cell_width_of(cell.0);
    let limit = if st.first {
        width as int
    } else {
        let d = if width > cont_w {
            width - cont_w
        } else {
            0
        };
        if d > 1 {
            d
        } else {
            1
        }
    };
    let brk = st.cw > 0 && st.cw + w > limit;
    let rows = if brk {
        st.rows.push(st.current)
    } else {
        st.rows
    };
    let cur = if brk {
        if cont.len() == 0 {
            Seq::<SpanView>::empty()
        } else {
            seq![sp(cont, StyleRole::Plain)]
        }
    } else {
        st.current
    };
    let cw0 = if brk {
        cont_w
    } else {
        st.cw
    };
    WrapState {
        rows,
        current: cur.push(sp(seq![cell.0], cell.1)),
        cw: capped(cw0 + w),
        first: if brk {
            false
        } else {
            st.first
        },
    }
}

/// The state after wrapping the given characters.
pub open spec fn wrap_fold(
    cells: Seq<(char, StyleRole)>,
    width: usize,
    cont: Seq<char>,
    cont_w: usize,
) -> WrapState
    decreases cells.len(),
{
    if cells.len() == 0 {
        WrapState { rows: seq![], current: seq![], cw: 0, first: true }
    } else {
        wrap_step(wrap_fold(cells.drop_last(), width, cont, cont_w), cells.last(), width, cont, cont_w)
    }
}

/// A styled line wrapped to a width: unchanged when it fits or is empty;
/// otherwise one span per character, broken into rows whose rows after the
/// first begin with the continuation.
pub open spec fn wrap_spec(line: Seq<SpanView>, width: usize) -> Seq<Seq<SpanView>> {
    let plain = plain_of(line);
    if unicode_str_width(plain) <= width || plain.len() == 0 {
        seq![line]
    } else {
        let cont = continuation_spec(plain);
        let st = wrap_fold(cells_of(line), width, cont, unicode_str_width(cont));
        st.rows.push(st.current)
    }
}

/// The text of wrapped rows, each row after the first without the first
/// `n` characters (its continuation).
pub open spec fn unwrap_rows(rows: Seq<Seq<SpanView>>, n: nat) -> Seq<char>
    decreases rows.len(),
{
    if rows.len() == 0 {
        seq![]
    } else if rows.len() == 1 {
        plain_of(rows[0])
    } else {
        unwrap_rows(rows.drop_last(), n) + plain_of(rows.last()).skip(n as int)
    }
}

/// The characters of a sequence of cells.
pub open spec fn cell_chars(cells: Seq<(char, StyleRole)>) -> Seq<char> {
    Seq::new(cells.len(), |i: int| cells[i].0)
}

proof fn lemma_cells_chars(line: Seq<SpanView>)
    ensures
        cell_chars(cells_of(line)) == plain_of(line),
    decreases line.len(),
{
    if line.len() > 0 {
        let a = line.drop_last();
        lemma_cells_chars(a);
        let s = line.last();
        let b = Seq::new(s.text.len(), |k: int| (s.text[k], s.role));
        let ca = cells_of(a);
        assert(cells_of(line) == ca + b);
        assert forall|i: int| 0 <= i < ca.len() + b.len() implies #[trigger] cell_chars(ca + b)[i]
            == (plain_of(a) + s.text)[i] by {
            if i < ca.len() {
                assert((ca + b)[i] == ca[i]);
                assert(cell_chars(ca)[i] == ca[i].0);
            } else {
                assert((ca + b)[i] == b[i - ca.len()]);
            }
        }
        assert(cell_chars(cells_of(line)) =~= plain_of(line));
    }
}

proof fn lemma_plain_push(s: Seq<SpanView>, x: SpanView)
    ensures
        plain_of(s.push(x)) == plain_of(s) + x.text,
{
    assert(s.push(x).drop_last() =~= s);
}

proof fn lemma_unwrap_push(rows: Seq<Seq<SpanView>>, r: Seq<SpanView>, n: nat)
    ensures
        unwrap_rows(rows.push(r), n) == if rows.len() == 0 {
            plain_of(r)
        } else {
            unwrap_rows(rows, n) + plain_of(r).skip(n as int)
        },
{
    assert(rows.push(r).drop_last() =~= rows);
    if rows.len() == 0 {
        assert(rows.push(r)[0] == r);
    }
}

proof fn lemma_wrap_fold_text(cells: Seq<(char, StyleRole)>, width: usize, cont: Seq<char>, cont_w: usize)
    ensures
        unwrap_rows(
            wrap_fold(cells, width, cont, cont_w).rows.push(wrap_fold(cells, width, cont, cont_w).current),
            cont.len(),
        ) == cell_chars(cells),
        wrap_fold(cells, width, cont, cont_w).rows.len() == 0 || plain_of(
            wrap_fold(cells, width, cont, cont_w).current,
        ).len() >= cont.len(),
    decreases cells.len(),
{
    let n = cont.len();
    if cells.len() == 0 {
        let e = Seq::<SpanView>::empty();
        lemma_unwrap_push(Seq::<Seq<SpanView>>::empty(), e, n);
        assert(cell_chars(cells) =~= Seq::<char>::empty());
    } else {
        let prev = cells.drop_last();
        lemma_wrap_fold_text(prev, width, cont, cont_w);
        let st0 = wrap_fold(prev, width, cont, cont_w);
        let c = cells.last();
        let st = wrap_fold(cells, width, cont, cont_w);
        assert(st == wrap_step(st0, c, width, cont, cont_w));
        let x = sp(seq![c.0], c.1);
        assert(cell_chars(cells) =~= cell_chars(prev).push(c.0));
        if st.rows.len() > st0.rows.len() {
            let cur = if cont.len() == 0 {
                Seq::<SpanView>::empty()
            } else {
                seq![sp(cont, StyleRole::Plain)]
            };
            assert(st.rows == st0.rows.push(st0.current));
            assert(st.current == cur.push(x));
            if cont.len() > 0 {
                lemma_plain_push(Seq::<SpanView>::empty(), sp(cont, StyleRole::Plain));
                assert(Seq::<SpanView>::empty().push(sp(cont, StyleRole::Plain)) =~= cur);
                assert(plain_of(cur) =~= cont);
            } else {
                assert(plain_of(cur) =~= cont);
            }
            lemma_plain_push(cur, x);
            assert(plain_of(st.current) =~= cont.push(c.0));
            assert(plain_of(st.current).skip(n as int) =~= seq![c.0]);
            lemma_unwrap_push(st.rows, st.current, n);
            lemma_unwrap_push(st0.rows, st0.current, n);
            assert(st.rows.len() > 0);
        } else {
            assert(st.rows == st0.rows);
            assert(st.current == st0.current.push(x));
            lemma_plain_push(st0.current, x);
            lemma_unwrap_push(st0.rows, st.current, n);
            lemma_unwrap_push(st0.rows, st0.current, n);
            if st0.rows.len() > 0 {
                assert(plain_of(st.current).skip(n as int) =~= plain_of(st0.current).skip(n as int).push(
                    c.0,
                ));
            }
        }
    }
}

/// Wrapping a styled line keeps its text: its rows, each row after the
/// first without the continuation that leads it, spell out the line's text.
pub proof fn law_wrap_keeps_text(line: StyledLine, width: usize)
    ensures
        unwrap_rows(
            wrap_spec(line.deep_view(), width),
            continuation_spec(plain_of(line.deep_view())).len(),
        ) == plain_of(line.deep_view()),
{
    let lv = line.deep_view();
    let plain = plain_of(lv);
    let cont = continuation_spec(plain);
    if unicode_str_width(plain) <= width || plain.len() == 0 {
        assert(wrap_spec(lv, width) == seq![lv]);
    } else {
        lemma_wrap_fold_text(cells_of(lv), width, cont, unicode_str_width(cont));
        lemma_cells_chars(lv);
    }
}

/// The text of a line.
fn plain_line(line: &StyledLine) -> (r: Vec<char>)
    ensures
        r@ == plain_of(line.deep_view()),
{
    let ghost lv = line.deep_view();
    let mut out: Vec<char> = Vec::new();
    let mut i: usize = 0;
    while i < line.spans.len()
        invariant
            i <= line.spans.len(),
            lv == line.deep_view(),
            out@ == plain_of(lv.take(i as int)),
        decreases line.spans.len() - i,
    {
        proof {
            assert(lv.take(i + 1).drop_last() =~= lv.take(i as int));
            assert(lv.take(i + 1).last() == lv[i as int]);
            assert(lv[i as int] == line.spans[i as int].deep_view());
        }
        let t = chars_of(line.spans[i].text.as_str());
        let v = concat(&out, &t);
        out = v;
        i += 1;
    }
    assert(lv.take(line.spans.len() as int) =~= lv);
    out
}

/// Each character of a line with the role of its span.
fn line_cells(line: &StyledLine) -> (r: Vec<(char, StyleRole)>)
    ensures
        r@ == cells_of(line.deep_view()),
{
    let ghost lv = line.deep_view();
    let mut out: Vec<(char, StyleRole)> = Vec::new();
    let mut i: usize = 0;
    while i < line.spans.len()
        invariant
            i <= line.spans.len(),
            lv == line.deep_view(),
            out@ == cells_of(lv.take(i as int)),
        decreases line.spans.len() - i,
    {
        proof {
            assert(lv.take(i + 1).drop_last() =~= lv.take(i as int));
            assert(lv.take(i + 1).last() == lv[i as int]);
            assert(lv[i as int] == line.spans[i as int].deep_view());
        }
        let t = chars_of(line.spans[i].text.as_str());
        let role = line.spans[i].role;
        let ghost base = out@;
        let mut k: usize = 0;
        while k < t.len()
            invariant
                k <= t.len(),
                out@ == base + Seq::new(k as nat, |j: int| (t@[j], role)),
            decreases t.len() - k,
        {
            out.push((t[k], role));
            assert(out@ =~= base + Seq::new((k + 1) as nat, |j: int| (t@[j], role)));
            k += 1;
        }
        i += 1;
    }
    assert(lv.take(line.spans.len() as int) =~= lv);
    out
}

/// The continuation that lines wrapped rows up under a line's text.
fn continuation_prefix(plain: &[char]) -> (r: Vec<char>)
    ensures
        r@ == continuation_spec(plain@),
{
    let k = trim_start_index(plain);
    proof {
        lemma_ws_skip_bounds(plain@, 0);
    }
    let t = &plain[k..plain.len()];
    assert(t@ == trim_start(plain@));
    let lead = utf8_count_of(plain, k);
    if t.len() > 0 && (t[0] == '▌' || t[0] == '▸' || t[0] == '›' || t[0] == '•' || t[0] == '◦'
        || t[0] == '▪') {
        return repeat_char(' ', lead.saturating_add(2));
    }
    if t.len() >= 2 && (t[0] == '-' || t[0] == '*' || t[0] == '+') && t[1] == ' ' {
        return repeat_char(' ', lead.saturating_add(2));
    }
    let pat = ['.', ' '];
    assert(pat@ == seq!['.', ' ']);
    match find_in(t, &pat, 0) {
        Some(d) => {
            proof {
                lemma_find_len(t@, pat@);
            }
            if d > 0 && digits_between(t, 0, d) {
                assert(t@.subrange(0, d as int) == t@.take(d as int));
                repeat_char(' ', lead.saturating_add(d).saturating_add(2))
            } else {
                assert(t@.subrange(0, d as int) == t@.take(d as int));
                Vec::new()
            }
        },
        None => Vec::new(),
    }
}

/// The columns a character takes when wrapping.
fn cell_width_exec(c: char) -> (r: usize)
    ensures
        r == cell_width_of(c),
        1 <= r <= 3,
{
    match char_width(c) {
        Some(w) => if w > 1 {
            w
        } else {
            1
        },
        None => 1,
    }
}

/// A styled line wrapped to a width, continuation rows indented under the
/// text of quotes and list items.
pub fn wrap_styled_line(line: StyledLine, width: usize) -> (r: Vec<StyledLine>)
    ensures
        r.deep_view() == wrap_spec(line.deep_view(), width),
{
    let ghost lv = line.deep_view();
    let plain = plain_line(&line);
    let pw = cell_width(&plain);
    if pw <= width || plain.len() == 0 {
        let mut out: Vec<StyledLine> = Vec::new();
        out.push(line);
        assert(out.deep_view() =~= seq![lv]);
        return out;
    }
    let cont = continuation_prefix(&plain);
    let cont_w = cell_width(&cont);
    let cells = line_cells(&line);
    let ghost cs = cells@;
    let ghost contv = cont@;
    let mut rows: Vec<StyledLine> = Vec::new();
    let mut current: Vec<StyledSpan> = Vec::new();
    let mut cw: usize = 0;
    let mut first = true;
    let mut i: usize = 0;
    while i < cells.len()
        invariant
            i <= cells.len(),
            cs == cells@,
            contv == cont@,
            cont_w == unicode_str_width(contv),
            ({
                let st = wrap_fold(cs.take(i as int), width, contv, cont_w);
                &&& rows.deep_view() == st.rows
                &&& current.deep_view() == st.current
                &&& cw == st.cw
                &&& first == st.first
            }),
        decreases cells.len() - i,
    {
        proof {
            assert(cs.take(i + 1).drop_last() =~= cs.take(i as int));
            assert(cs.take(i + 1).last() == cs[i as int]);
        }
        let (c, role) = cells[i];
        let w = cell_width_exec(c);
        let limit = if first {
            width
        } else {
            let d = width.saturating_sub(cont_w);
            if d > 1 {
                d
            } else {
                1
            }
        };
        if cw > 0 && (cw > limit || w > limit - cw) {
            let ghost before = rows.deep_view();
            let ghost cur = current.deep_view();
            let done = StyledLine { spans: current };
            rows.push(done);
            assert(rows.deep_view() =~= before.push(cur));
            current = Vec::new();
            if cont.len() > 0 {
                push_span(&mut current, span_of(&cont, StyleRole::Plain));
            }
            cw = cont_w;
            first = false;
        }
        let one = vec![c];
        assert(one@ =~= seq![c]);
        push_span(&mut current, span_of(&one, role));
        cw = cw.saturating_add(w);
        i += 1;
    }
    assert(cs.take(cells.len() as int) =~= cs);
    let ghost before = rows.deep_view();
    let ghost cur = current.deep_view();
    rows.push(StyledLine { spans: current });
    assert(rows.deep_view() =~= before.push(cur));
    rows
}

// ---------------------------------------------------------------------
// Standalone images

/// The alt text and target of the image a line consists of: walking its
/// segments, blank text is skipped, a first image is kept, and a second
/// image or anything else rules the line out.
pub open spec fn standalone_from(
    segs: Seq<SegmentView>,
    acc: Option<(Seq<char>, Seq<char>)>,
) -> Option<(Seq<char>, Seq<char>)>
    decreases segs.len(),
{
    if segs.len() == 0 {
        acc
    } else {
        let s = segs[0];
        match s.kind {
            InlineKind::Image => if acc is Some {
                None
            } else {
                standalone_from(
                    segs.drop_first(),
                    Some(
                        (
                            s.text,
                            match s.target {
                                Some(t) => t,
                                None => seq![],
                            },
                        ),
                    ),
                )
            },
            InlineKind::Text => if trim(s.text).len() == 0 {
                standalone_from(segs.drop_first(), acc)
            } else {
                None
            },
            _ => None,
        }
    }
}

/// The alt text and target when a line's only content is one image.
pub open spec fn standalone_image_spec(raw: Seq<char>) -> Option<(Seq<char>, Seq<char>)> {
    standalone_from(tokenize_spec(trim(raw)), None)
}

/// The alt text and target when a line's only content is one image.
pub fn standalone_image(raw: &[char]) -> (r: Option<(Vec<char>, Vec<char>)>)
    ensures
        match r {
            Some((alt, target)) => standalone_image_spec(raw@) == Some((alt@, target@)),
            None => standalone_image_spec(raw@) is None,
        },
{
    let t = trimmed(raw);
    let segs = tokenize_chars(&t);
    let ghost ss = segs.deep_view();
    let mut image: Option<(Vec<char>, Vec<char>)> = None;
    let mut i: usize = 0;
    assert(ss.skip(0) =~= ss);
    while i < segs.len()
        invariant
            i <= segs.len(),
            ss == segs.deep_view(),
            ss == tokenize_spec(trim(raw@)),
            standalone_from(
                ss.skip(i as int),
                match image {
                    Some((a, b)) => Some((a@, b@)),
                    None => None,
                },
            ) == standalone_image_spec(raw@),
        decreases segs.len() - i,
    {
        let sg = &segs[i];
        proof {
            assert(ss.skip(i as int)[0] == ss[i as int]);
            assert(ss.skip(i as int).drop_first() =~= ss.skip(i + 1));
            assert(sg.deep_view() == ss[i as int]);
        }
        match sg.kind {
            InlineKind::Image => {
                if image.is_some() {
                    return None;
                }
                let alt = chars_of(sg.text.as_str());
                let target = match &sg.target {
                    Some(tg) => chars_of(tg.as_str()),
                    None => Vec::new(),
                };
                image = Some((alt, target));
            },
            InlineKind::Text => {
                let tx = chars_of(sg.text.as_str());
                let (a, b) = trim_bounds(&tx);
                if a < b {
                    return None;
                }
            },
            _ => {
                return None;
            },
        }
        i += 1;
    }
    assert(ss.skip(segs.len() as int).len() == 0);
    image
}

// ---------------------------------------------------------------------
// The whole document

/// Rows an image takes when the caller gives no size for it.
pub const IMAGE_PREVIEW_ROWS: usize = 16;

/// Where a standalone image sits in the flattened preview rows.
#[derive(Clone, Debug, PartialEq, Eq)]
pub struct ImagePlacement {
    pub target: String,
    pub start: usize,
    pub rows: u16,
}

/// The value an [`ImagePlacement`] stands for.
pub struct PlacementView {
    pub target: Seq<char>,
    pub start: int,
    pub rows: u16,
}

impl DeepView for ImagePlacement {
    type V = PlacementView;

    open spec fn deep_view(&self) -> PlacementView {
        PlacementView { target: self.target@, start: self.start as int, rows: self.rows }
    }
}

/// A standalone image noted while rendering: the index of its first
/// rendered line, its target and its row count.
pub struct Mark {
    pub at: int,
    pub target: Seq<char>,
    pub rows: u16,
}

/// The state of rendering a document: the next line, whether a code fence
/// is open, the lines rendered so far, the images noted, and how many
/// images were met.
pub struct DocState {
    pub idx: int,
    pub in_code: bool,
    pub rendered: Seq<Seq<SpanView>>,
    pub marks: Seq<Mark>,
    pub images: int,
}

/// The first index at or after `j` that is neither a table row nor a
/// separator.
pub open spec fn table_end(lines: Seq<Seq<char>>, j: int) -> int
    decreases lines.len() - j,
{
    if 0 <= j < lines.len() && (is_table_row_spec(lines[j]) || is_table_separator_spec(lines[j])) {
        table_end(lines, j + 1)
    } else {
        j
    }
}

/// The rendered lines with an empty line added before a first- or
/// second-level heading that would follow a line with text.
pub open spec fn heading_gap(raw: Seq<char>, rendered: Seq<Seq<SpanView>>) -> Seq<Seq<SpanView>> {
    match heading_spec(raw) {
        Some((lv, _t)) => if lv <= 2 && rendered.len() > 0 && trim(plain_of(rendered.last())).len()
            > 0 {
            rendered.push(seq![])
        } else {
            rendered
        },
        None => rendered,
    }
}

/// The line that opens a code block, naming its language (`code` when the
/// fence names none).
pub open spec fn fence_open_line(raw: Seq<char>) -> Seq<SpanView> {
    let lang = fence_language(raw);
    seq![
        sp(seq!['╭', '─', ' '], StyleRole::CodeFence),
        sp(
            if lang.len() == 0 {
                seq!['c', 'o', 'd', 'e']
            } else {
                lang
            },
            StyleRole::CodeLanguage,
        ),
    ]
}

/// The line that closes a code block.
pub open spec fn fence_close_line(raw: Seq<char>) -> Seq<SpanView> {
    seq![sp(seq!['╰', '─', ' '], StyleRole::CodeFence), sp(raw, StyleRole::CodeFence)]
}

/// The character a heading of a level is underlined with.
pub open spec fn rule_char(level: u8) -> char {
    if level == 1 {
        '━'
    } else if level == 2 {
        '─'
    } else if level == 3 {
        '┄'
    } else {
        '·'
    }
}

/// A heading: its line, an underline as wide as its title (between four
/// and the width), and an empty line after the first two levels.
pub open spec fn heading_block(raw: Seq<char>, level: u8, title: Seq<char>, width: usize) -> Seq<
    Seq<SpanView>,
> {
    let tw = unicode_str_width(title) as int;
    let hi = if width > 4 {
        width as int
    } else {
        4
    };
    let n = if tw < 4 {
        4
    } else if tw > hi {
        hi
    } else {
        tw
    };
    let out = seq![
        preview_line_spec(raw),
        seq![sp(rep(rule_char(level), n as nat), StyleRole::HeadingRule(level))],
    ];
    if level <= 2 {
        out.push(seq![])
    } else {
        out
    }
}

/// The rows the `k`th image takes: the caller's count for it, or
/// [`IMAGE_PREVIEW_ROWS`] past the counts given; one at least.
pub open spec fn image_rows_for(rows: Seq<usize>, k: int) -> usize {
    let r = if 0 <= k < rows.len() {
        rows[k]
    } else {
        IMAGE_PREVIEW_ROWS
    };
    if r > 1 {
        r
    } else {
        1
    }
}

/// A standalone image: its icon line, empty lines up to its row count, and
/// its caption.
pub open spec fn image_block(alt: Seq<char>, rows: usize) -> Seq<Seq<SpanView>> {
    seq![seq![sp(seq![IMAGE_ICON, ' '] + alt, StyleRole::ImageIcon)]] + Seq::new(
        (rows - 1) as nat,
        |_i: int| Seq::<SpanView>::empty(),
    ) + seq![seq![sp(seq![' ', ' '] + alt, StyleRole::ImageCaption)]]
}

/// One step of rendering: a table block at once, or one line.
pub open spec fn doc_step(lines: Seq<Seq<char>>, st: DocState, width: usize, rows: Seq<usize>) -> DocState {
    let raw = lines[st.idx];
    if !st.in_code && starts_table_block_spec(lines, st.idx) {
        let end = table_end(lines, st.idx + 1);
        DocState {
            idx: end,
            rendered: st.rendered + table_block_spec(lines.subrange(st.idx, end), width),
            ..st
        }
    } else {
        let r0 = heading_gap(raw, st.rendered);
        if starts_with(raw, seq!['`', '`', '`']) {
            if st.in_code {
                DocState {
                    idx: st.idx + 1,
                    in_code: false,
                    rendered: r0.push(fence_close_line(raw)),
                    ..st
                }
            } else {
                DocState {
                    idx: st.idx + 1,
                    in_code: true,
                    rendered: r0.push(fence_open_line(raw)),
                    ..st
                }
            }
        } else if st.in_code {
            DocState {
                idx: st.idx + 1,
                rendered: r0.push(seq![sp(seq![' ', ' '] + raw, StyleRole::Code)]),
                ..st
            }
        } else {
            match heading_spec(raw) {
                Some((lv, title)) => DocState {
                    idx: st.idx + 1,
                    rendered: r0 + heading_block(raw, lv, title, width),
                    ..st
                },
                None => match standalone_image_spec(raw) {
                    Some((alt, target)) => {
                        let n = image_rows_for(rows, st.images);
                        DocState {
                            idx: st.idx + 1,
                            rendered: r0 + image_block(alt, n),
                            marks: st.marks.push(Mark { at: r0.len() as int, target, rows: n as u16 }),
                            images: st.images + 1,
                            ..st
                        }
                    },
                    None => DocState {
                        idx: st.idx + 1,
                        rendered: r0.push(preview_line_spec(raw)),
                        ..st
                    },
                },
            }
        }
    }
}

/// Rendering from a state to the end of the document.
pub open spec fn doc_run(lines: Seq<Seq<char>>, st: DocState, width: usize, rows: Seq<usize>) -> DocState
    decreases lines.len() - st.idx,
{
    if 0 <= st.idx < lines.len() {
        let nx = doc_step(lines, st, width, rows);
        if st.idx < nx.idx <= lines.len() {
            doc_run(lines, nx, width, rows)
        } else {
            nx
        }
    } else {
        st
    }
}

/// The rendered lines of a document before wrapping, with the images met.
pub open spec fn doc_spec(content: Seq<char>, width: usize, rows: Seq<usize>) -> DocState {
    doc_run(
        split(content, '\n'),
        DocState { idx: 0, in_code: false, rendered: seq![], marks: seq![], images: 0 },
        width,
        rows,
    )
}

/// Lines wrapped to a width, one after another.
pub open spec fn flatten(lines: Seq<Seq<SpanView>>, width: usize) -> Seq<Seq<SpanView>>
    decreases lines.len(),
{
    if lines.len() == 0 {
        seq![]
    } else {
        flatten(lines.drop_last(), width) + wrap_spec(lines.last(), width)
    }
}

/// The width rows are wrapped to: one at least.
pub open spec fn wrap_width(width: usize) -> usize {
    if width > 1 {
        width
    } else {
        1
    }
}

/// The preview rows of a document, wrapped to the width.
pub open spec fn preview_rows_spec(content: Seq<char>, width: usize, rows: Seq<usize>) -> Seq<
    Seq<SpanView>,
> {
    flatten(doc_spec(content, width, rows).rendered, wrap_width(width))
}

/// Where each standalone image of a document sits in its preview rows.
pub open spec fn placements_spec(content: Seq<char>, width: usize, rows: Seq<usize>) -> Seq<
    PlacementView,
> {
    let st = doc_spec(content, width, rows);
    Seq::new(
        st.marks.len(),
        |i: int|
            PlacementView {
                target: st.marks[i].target,
                start: flatten(st.rendered.take(st.marks[i].at), wrap_width(width)).len() as int,
                rows: st.marks[i].rows,
            },
    )
}

/// The images noted so far lie in order inside the rendered lines: each
/// block (icon, rows, caption) ends before the next one begins, and every
/// block takes a row at least.
pub open spec fn images_in_order(st: DocState) -> bool {
    &&& forall|i: int|
        #![trigger st.marks[i]]
        0 <= i < st.marks.len() ==> 0 <= st.marks[i].at && st.marks[i].rows >= 1 && st.marks[i].at
            + st.marks[i].rows + 1 <= st.rendered.len()
    &&& forall|i: int, j: int|
        0 <= i < j < st.marks.len() ==> #[trigger] st.marks[i].at + st.marks[i].rows + 1
            <= #[trigger] st.marks[j].at
}

/// Row counts that fit the `u16` a placement keeps them in.
pub open spec fn rows_fit(rows: Seq<usize>) -> bool {
    forall|k: int| 0 <= k < rows.len() ==> #[trigger] rows[k] < 65536
}

proof fn lemma_gap_grows(raw: Seq<char>, r: Seq<Seq<SpanView>>)
    ensures
        heading_gap(raw, r).len() >= r.len(),
        heading_gap(raw, r).take(r.len() as int) == r,
{
    assert(r.push(seq![]).take(r.len() as int) =~= r);
    assert(r.take(r.len() as int) =~= r);
}

#[verifier::rlimit(40)]
proof fn lemma_doc_step_marks(lines: Seq<Seq<char>>, st: DocState, width: usize, rows: Seq<usize>)
    requires
        0 <= st.idx < lines.len(),
        images_in_order(st),
        rows_fit(rows),
    ensures
        images_in_order(doc_step(lines, st, width, rows)),
{
    let raw = lines[st.idx];
    let nx = doc_step(lines, st, width, rows);
    if !st.in_code && starts_table_block_spec(lines, st.idx) {
        assert(nx.marks == st.marks);
        assert(nx.rendered.len() >= st.rendered.len());
    } else {
        let r0 = heading_gap(raw, st.rendered);
        lemma_gap_grows(raw, st.rendered);
        if starts_with(raw, seq!['`', '`', '`']) || st.in_code {
            assert(nx.marks == st.marks);
            assert(nx.rendered.len() >= st.rendered.len());
        } else {
            match heading_spec(raw) {
                Some((lv, title)) => {
                    assert(nx.marks == st.marks);
                    assert(nx.rendered == r0 + heading_block(raw, lv, title, width));
                    assert(nx.rendered.len() >= st.rendered.len());
                },
                None => match standalone_image_spec(raw) {
                    Some((alt, target)) => {
                        let n = image_rows_for(rows, st.images);
                        assert(1 <= n < 65536);
                        let m = Mark { at: r0.len() as int, target, rows: n as u16 };
                        assert(nx.marks == st.marks.push(m));
                        assert(nx.rendered == r0 + image_block(alt, n));
                        assert(image_block(alt, n).len() == n + 1);
                        assert(m.rows == n);
                        let k = st.marks.len() as int;
                        assert forall|i: int| 0 <= i < nx.marks.len() implies 0 <= #[trigger] nx.marks[i].at
                            && nx.marks[i].rows >= 1 && nx.marks[i].at + nx.marks[i].rows + 1
                            <= nx.rendered.len() by {
                            if i < k {
                                assert(nx.marks[i] == st.marks[i]);
                            }
                        }
                        assert forall|i: int, j: int| 0 <= i < j < nx.marks.len() implies #[trigger] nx.marks[i].at
                            + nx.marks[i].rows + 1 <= #[trigger] nx.marks[j].at by {
                            assert(nx.marks[i] == st.marks[i]);
                            if j < k {
                                assert(nx.marks[j] == st.marks[j]);
                            }
                        }
                    },
                    None => {
                        assert(nx.marks == st.marks);
                        assert(nx.rendered.len() >= st.rendered.len());
                    },
                },
            }
        }
    }
}

proof fn lemma_doc_run_marks(lines: Seq<Seq<char>>, st: DocState, width: usize, rows: Seq<usize>)
    requires
        images_in_order(st),
        rows_fit(rows),
    ensures
        images_in_order(doc_run(lines, st, width, rows)),
    decreases lines.len() - st.idx,
{
    if 0 <= st.idx < lines.len() {
        lemma_doc_step_marks(lines, st, width, rows);
        let nx = doc_step(lines, st, width, rows);
        if st.idx < nx.idx <= lines.len() {
            lemma_doc_run_marks(lines, nx, width, rows);
        }
    }
}

proof fn lemma_wrap_nonempty(line: Seq<SpanView>, width: usize)
    ensures
        wrap_spec(line, width).len() >= 1,
{
}

/// Wrapping lines gives each one row at least.
proof fn lemma_flatten_take(s: Seq<Seq<SpanView>>, width: usize, i: int, j: int)
    requires
        0 <= i <= j <= s.len(),
    ensures
        flatten(s.take(j), width).len() >= flatten(s.take(i), width).len() + (j - i),
    decreases j - i,
{
    if i < j {
        lemma_flatten_take(s, width, i, j - 1);
        assert(s.take(j).drop_last() =~= s.take(j - 1));
        assert(s.take(j).last() == s[j - 1]);
        lemma_wrap_nonempty(s[j - 1], width);
    }
}

/// The images of the preview sit in the order of the document, each block
/// (its first row, the rows it was given, and a caption row) wholly inside
/// the preview rows and before the next one, and each takes one row at
/// least, as long as no row count given for them needs more than sixteen
/// bits.
pub proof fn law_placements_in_order(content: Seq<char>, width: usize, rows: Seq<usize>)
    requires
        rows_fit(rows),
    ensures
        ({
            let ps = placements_spec(content, width, rows);
            let n = preview_rows_spec(content, width, rows).len();
            &&& forall|i: int|
                #![trigger ps[i]]
                0 <= i < ps.len() ==> 0 <= ps[i].start && ps[i].rows >= 1 && ps[i].start + ps[i].rows < n
            &&& forall|i: int, j: int|
                0 <= i < j < ps.len() ==> #[trigger] ps[i].start + ps[i].rows < #[trigger] ps[j].start
        }),
{
    let st0 = DocState { idx: 0, in_code: false, rendered: seq![], marks: seq![], images: 0 };
    let lines = split(content, '\n');
    lemma_doc_run_marks(lines, st0, width, rows);
    let st = doc_spec(content, width, rows);
    let w = wrap_width(width);
    let ps = placements_spec(content, width, rows);
    let r = st.rendered;
    assert(r.take(r.len() as int) =~= r);
    assert forall|i: int| 0 <= i < ps.len() implies 0 <= #[trigger] ps[i].start && ps[i].rows >= 1
        && ps[i].start + ps[i].rows < preview_rows_spec(content, width, rows).len() by {
        let m = st.marks[i];
        lemma_flatten_take(r, w, m.at, r.len() as int);
    }
    assert forall|i: int, j: int| 0 <= i < j < ps.len() implies #[trigger] ps[i].start + ps[i].rows
        < #[trigger] ps[j].start by {
        let mi = st.marks[i];
        let mj = st.marks[j];
        assert(mi.at + mi.rows + 1 <= mj.at);
        lemma_flatten_take(r, w, mi.at, mj.at);
    }
}

/// A noted image, as the renderer keeps it.
struct MarkExec {
    at: usize,
    target: Vec<char>,
    rows: u16,
}

impl DeepView for MarkExec {
    type V = Mark;

    closed spec fn deep_view(&self) -> Mark {
        Mark { at: self.at as int, target: self.target@, rows: self.rows }
    }
}

/// Noted images come in the order of their lines, all before line `n`.
pub open spec fn marks_ordered(marks: Seq<Mark>, n: int) -> bool {
    &&& forall|a: int, b: int| 0 <= a < b < marks.len() ==> marks[a].at < marks[b].at
    &&& forall|a: int| 0 <= a < marks.len() ==> 0 <= #[trigger] marks[a].at < n
}

proof fn lemma_table_end(lines: Seq<Seq<char>>, j: int)
    requires
        0 <= j <= lines.len(),
    ensures
        j <= table_end(lines, j) <= lines.len(),
    decreases lines.len() - j,
{
    if 0 <= j < lines.len() && (is_table_row_spec(lines[j]) || is_table_separator_spec(lines[j])) {
        lemma_table_end(lines, j + 1);
    }
}

/// A line with no span.
fn empty_spans() -> (r: Vec<StyledSpan>)
    ensures
        r.deep_view() == Seq::<SpanView>::empty(),
{
    let r: Vec<StyledSpan> = Vec::new();
    assert(r.deep_view() =~= Seq::<SpanView>::empty());
    r
}

/// Appends one line.
fn push_line(rendered: &mut Vec<StyledLine>, spans: Vec<StyledSpan>)
    ensures
        final(rendered).deep_view() == old(rendered).deep_view().push(spans.deep_view()),
{
    let ghost before = rendered.deep_view();
    let ghost sv = spans.deep_view();
    rendered.push(StyledLine { spans });
    assert(rendered.deep_view() =~= before.push(sv));
}

/// A copy of a line.
fn copy_line(l: &StyledLine) -> (r: StyledLine)
    ensures
        r.deep_view() == l.deep_view(),
{
    let mut spans: Vec<StyledSpan> = Vec::new();
    let mut i: usize = 0;
    while i < l.spans.len()
        invariant
            i <= l.spans.len(),
            spans.deep_view() == l.deep_view().take(i as int),
        decreases l.spans.len() - i,
    {
        let s = StyledSpan { text: l.spans[i].text.clone(), role: l.spans[i].role };
        assert(s.deep_view() == l.deep_view()[i as int]);
        push_span(&mut spans, s);
        assert(l.deep_view().take(i + 1) =~= l.deep_view().take(i as int).push(
            l.deep_view()[i as int],
        ));
        i += 1;
    }
    assert(l.deep_view().take(l.spans.len() as int) =~= l.deep_view());
    StyledLine { spans }
}

/// Appends lines.
fn push_lines(rendered: &mut Vec<StyledLine>, more: &Vec<StyledLine>)
    ensures
        final(rendered).deep_view() == old(rendered).deep_view() + more.deep_view(),
{
    let ghost start = rendered.deep_view();
    let mut i: usize = 0;
    while i < more.len()
        invariant
            i <= more.len(),
            rendered.deep_view() == start + more.deep_view().take(i as int),
        decreases more.len() - i,
    {
        let ghost before = rendered.deep_view();
        let x = copy_line(&more[i]);
        let ghost xv = x.deep_view();
        assert(xv == more.deep_view()[i as int]);
        rendered.push(x);
        assert(rendered.deep_view() =~= before.push(xv));
        assert(more.deep_view().take(i + 1) =~= more.deep_view().take(i as int).push(xv));
        i += 1;
    }
    assert(more.deep_view().take(more.len() as int) =~= more.deep_view());
}

/// Adds the empty line [`heading_gap`] asks for.
fn add_heading_gap(raw: &[char], rendered: &mut Vec<StyledLine>)
    ensures
        final(rendered).deep_view() == heading_gap(raw@, old(rendered).deep_view()),
{
    if let Some((lv, _a, _b)) = heading_bounds(raw) {
        if lv <= 2 && rendered.len() > 0 {
            let last = rendered.len() - 1;
            let plain = plain_line(&rendered[last]);
            assert(rendered.deep_view().last() == rendered[last as int].deep_view());
            let (a, b) = trim_bounds(&plain);
            if a < b {
                push_line(rendered, empty_spans());
            }
        }
    }
}

/// The first index at or after `j` that is neither a table row nor a
/// separator.
fn table_end_exec(lines: &Vec<Vec<char>>, j: usize) -> (r: usize)
    requires
        j <= lines.len(),
    ensures
        r == table_end(lines.deep_view(), j as int),
{
    let ghost ls = lines.deep_view();
    let mut k = j;
    while k < lines.len() && (is_table_row(lines[k].as_slice()) || is_table_separator(
        lines[k].as_slice(),
    ))
        invariant
            j <= k <= lines.len(),
            ls == lines.deep_view(),
            table_end(ls, k as int) == table_end(ls, j as int),
        decreases lines.len() - k,
    {
        assert(ls[k as int] == lines[k as int]@);
        k += 1;
    }
    if k < lines.len() {
        assert(ls[k as int] == lines[k as int]@);
    }
    k
}

/// Appends the lines of a heading.
fn push_heading(raw: &[char], lv: u8, a: usize, b: usize, width: usize, rendered: &mut Vec<
    StyledLine,
>)
    requires
        a <= b <= raw.len(),
        heading_spec(raw@) == Some((lv, raw@.subrange(a as int, b as int))),
    ensures
        final(rendered).deep_view() == old(rendered).deep_view() + heading_block(
            raw@,
            lv,
            raw@.subrange(a as int, b as int),
            width,
        ),
{
    let ghost start = rendered.deep_view();
    push_line(rendered, heading_spans(raw, lv, a, b));
    let ghost after_line = rendered.deep_view();
    assert(after_line == start.push(preview_line_spec(raw@)));
    let title = copy_range(raw, a, b);
    let tw = cell_width(&title);
    let hi = if width > 4 {
        width
    } else {
        4
    };
    let n = if tw < 4 {
        4
    } else if tw > hi {
        hi
    } else {
        tw
    };
    let ch = if lv == 1 {
        '━'
    } else if lv == 2 {
        '─'
    } else if lv == 3 {
        '┄'
    } else {
        '·'
    };
    let rule = repeat_char(ch, n);
    let mut spans: Vec<StyledSpan> = Vec::new();
    push_span(&mut spans, span_of(&rule, StyleRole::HeadingRule(lv)));
    assert(ch == rule_char(lv));
    let ghost rl = seq![sp(rep(rule_char(lv), n as nat), StyleRole::HeadingRule(lv))];
    assert(spans.deep_view() =~= rl);
    push_line(rendered, spans);
    assert(rendered.deep_view() =~= start + seq![preview_line_spec(raw@), rl]);
    if lv <= 2 {
        push_line(rendered, empty_spans());
    }
    assert(rendered.deep_view() =~= start + heading_block(
        raw@,
        lv,
        raw@.subrange(a as int, b as int),
        width,
    ));
}

/// Appends the lines of a standalone image.
fn push_image(alt: &Vec<char>, rows: usize, rendered: &mut Vec<StyledLine>)
    requires
        rows >= 1,
    ensures
        final(rendered).deep_view() == old(rendered).deep_view() + image_block(alt@, rows),
{
    let ghost start = rendered.deep_view();
    let icon = vec![IMAGE_ICON, ' '];
    let head = concat(&icon, alt);
    let mut first: Vec<StyledSpan> = Vec::new();
    push_span(&mut first, span_of(&head, StyleRole::ImageIcon));
    assert(first.deep_view() =~= seq![sp(seq![IMAGE_ICON, ' '] + alt@, StyleRole::ImageIcon)]);
    push_line(rendered, first);
    let ghost mid = rendered.deep_view();
    let mut k: usize = 1;
    while k < rows
        invariant
            1 <= k <= rows,
            rendered.deep_view() == mid + Seq::new(
                (k - 1) as nat,
                |_i: int| Seq::<SpanView>::empty(),
            ),
        decreases rows - k,
    {
        let ghost before = rendered.deep_view();
        push_line(rendered, empty_spans());
        assert(rendered.deep_view() =~= mid + Seq::new(
            k as nat,
            |_i: int| Seq::<SpanView>::empty(),
        ));
        k += 1;
    }
    let pad = vec![' ', ' '];
    let tail = concat(&pad, alt);
    let mut last: Vec<StyledSpan> = Vec::new();
    push_span(&mut last, span_of(&tail, StyleRole::ImageCaption));
    assert(last.deep_view() =~= seq![sp(seq![' ', ' '] + alt@, StyleRole::ImageCaption)]);
    push_line(rendered, last);
    assert(rendered.deep_view() =~= start + image_block(alt@, rows));
}

/// The rendering state the renderer's variables stand for.
spec fn state_of(
    idx: usize,
    in_code: bool,
    rendered: Seq<Seq<SpanView>>,
    marks: Seq<Mark>,
    images: usize,
) -> DocState {
    DocState { idx: idx as int, in_code, rendered, marks, images: images as int }
}

/// One step of rendering a document.
#[verifier::rlimit(40)]
fn doc_step_exec(
    lines: &Vec<Vec<char>>,
    idx: usize,
    in_code: &mut bool,
    rendered: &mut Vec<StyledLine>,
    marks: &mut Vec<MarkExec>,
    images: &mut usize,
    width: usize,
    image_rows: &[usize],
) -> (next: usize)
    requires
        idx < lines.len(),
        *old(images) <= idx,
        marks_ordered(old(marks).deep_view(), old(rendered).deep_view().len() as int),
    ensures
        idx < next <= lines.len(),
        *final(images) <= next,
        marks_ordered(final(marks).deep_view(), final(rendered).deep_view().len() as int),
        doc_step(
            lines.deep_view(),
            state_of(
                idx,
                *old(in_code),
                old(rendered).deep_view(),
                old(marks).deep_view(),
                *old(images),
            ),
            width,
            image_rows@,
        ) == state_of(
            next,
            *final(in_code),
            final(rendered).deep_view(),
            final(marks).deep_view(),
            *final(images),
        ),
{
    let ghost ls = lines.deep_view();
    let raw = lines[idx].as_slice();
    assert(raw@ == ls[idx as int]);
    if !*in_code && idx + 1 < lines.len() && is_table_row(raw) && is_table_separator(
        lines[idx + 1].as_slice(),
    ) {
        assert(ls[idx + 1] == lines[idx + 1]@);
        let end = table_end_exec(lines, idx + 1);
        proof {
            lemma_table_end(ls, idx + 1);
        }
        let block = render_table_block(lines, idx, end, width);
        push_lines(rendered, &block);
        return end;
    }
    proof {
        if !*old(in_code) {
            if idx + 1 < lines.len() {
                assert(ls[idx + 1] == lines[idx + 1]@);
            }
            assert(!starts_table_block_spec(ls, idx as int));
        }
    }
    let ghost r_before = rendered.deep_view();
    add_heading_gap(raw, rendered);
    let fence = ['`', '`', '`'];
    assert(fence@ == seq!['`', '`', '`']);
    if has_prefix(raw, &fence) {
        let mut spans: Vec<StyledSpan> = Vec::new();
        if *in_code {
            *in_code = false;
            let corner = vec!['╰', '─', ' '];
            push_span(&mut spans, span_of(&corner, StyleRole::CodeFence));
            push_span(&mut spans, span_of(raw, StyleRole::CodeFence));
            assert(spans.deep_view() =~= fence_close_line(raw@));
        } else {
            *in_code = true;
            let lang = fence_language_of(raw);
            let corner = vec!['╭', '─', ' '];
            push_span(&mut spans, span_of(&corner, StyleRole::CodeFence));
            if lang.len() == 0 {
                let word = vec!['c', 'o', 'd', 'e'];
                push_span(&mut spans, span_of(&word, StyleRole::CodeLanguage));
            } else {
                push_span(&mut spans, span_of(&lang, StyleRole::CodeLanguage));
            }
            assert(spans.deep_view() =~= fence_open_line(raw@));
        }
        push_line(rendered, spans);
        return idx + 1;
    }
    if *in_code {
        let pad = vec![' ', ' '];
        let text = concat(&pad, raw);
        let mut spans: Vec<StyledSpan> = Vec::new();
        push_span(&mut spans, span_of(&text, StyleRole::Code));
        assert(spans.deep_view() =~= seq![sp(seq![' ', ' '] + raw@, StyleRole::Code)]);
        push_line(rendered, spans);
        return idx + 1;
    }
    if let Some((lv, a, b)) = heading_bounds(raw) {
        push_heading(raw, lv, a, b, width, rendered);
        return idx + 1;
    }
    assert(rendered.deep_view() == r_before);
    match standalone_image(raw) {
        Some((alt, target)) => {
            let k = *images;
            let given = if k < image_rows.len() {
                image_rows[k]
            } else {
                IMAGE_PREVIEW_ROWS
            };
            let n = if given > 1 {
                given
            } else {
                1
            };
            let at = rendered.len();
            let ghost mb = marks.deep_view();
            let m = MarkExec { at, target, rows: #[verifier::truncate] (n as u16) };
            let ghost mv = m.deep_view();
            marks.push(m);
            assert(marks.deep_view() =~= mb.push(mv));
            push_image(&alt, n, rendered);
            *images = k + 1;
            idx + 1
        },
        None => {
            push_line(rendered, line_spans(raw));
            idx + 1
        },
    }
}

/// The preview of a document: its rows wrapped to the width (one column at
/// least), and where each standalone image sits among them. The `k`th
/// image takes `image_rows[k]` rows (one at least), or
/// [`IMAGE_PREVIEW_ROWS`] past the counts given.
pub fn render_preview_document_full(content: &str, width: usize, image_rows: &[usize]) -> (r: (
    Vec<StyledLine>,
    Vec<ImagePlacement>,
))
    ensures
        r.0.deep_view() == preview_rows_spec(content@, width, image_rows@),
        r.1.deep_view() == placements_spec(content@, width, image_rows@),
{
    let chars = chars_of(content);
    let lines = split_on(&chars, '\n');
    let ghost ls = lines.deep_view();
    let ghost init = DocState { idx: 0, in_code: false, rendered: seq![], marks: seq![], images: 0 };
    let mut in_code = false;
    let mut rendered: Vec<StyledLine> = Vec::new();
    let mut marks: Vec<MarkExec> = Vec::new();
    let mut images: usize = 0;
    let mut idx: usize = 0;
    assert(rendered.deep_view() =~= Seq::<Seq<SpanView>>::empty());
    assert(marks.deep_view() =~= Seq::<Mark>::empty());
    while idx < lines.len()
        invariant
            idx <= lines.len(),
            ls == lines.deep_view(),
            images <= idx,
            marks_ordered(marks.deep_view(), rendered.deep_view().len() as int),
            doc_run(
                ls,
                state_of(idx, in_code, rendered.deep_view(), marks.deep_view(), images),
                width,
                image_rows@,
            ) == doc_run(ls, init, width, image_rows@),
        decreases lines.len() - idx,
    {
        let next = doc_step_exec(
            &lines,
            idx,
            &mut in_code,
            &mut rendered,
            &mut marks,
            &mut images,
            width,
            image_rows,
        );
        idx = next;
    }
    let ghost st = doc_run(ls, init, width, image_rows@);
    assert(st.rendered == rendered.deep_view());
    assert(st.marks == marks.deep_view());
    let ghost rv = rendered.deep_view();
    let ghost mv = marks.deep_view();
    let w = if width > 1 {
        width
    } else {
        1
    };
    let mut flat: Vec<StyledLine> = Vec::new();
    let mut placements: Vec<ImagePlacement> = Vec::new();
    let mut mk: usize = 0;
    let mut j: usize = 0;
    assert(flat.deep_view() =~= flatten(rv.take(0), w));
    while j < rendered.len()
        invariant
            j <= rendered.len(),
            rv == rendered.deep_view(),
            mv == marks.deep_view(),
            w == wrap_width(width),
            marks_ordered(mv, rv.len() as int),
            mk <= mv.len(),
            forall|a: int| 0 <= a < mk ==> #[trigger] mv[a].at < j,
            forall|a: int| mk <= a < mv.len() ==> #[trigger] mv[a].at >= j,
            flat.deep_view() == flatten(rv.take(j as int), w),
            placements.deep_view() == Seq::new(
                mk as nat,
                |i: int|
                    PlacementView {
                        target: mv[i].target,
                        start: flatten(rv.take(mv[i].at), w).len() as int,
                        rows: mv[i].rows,
                    },
            ),
        decreases rendered.len() - j,
    {
        if mk < marks.len() && marks[mk].at == j {
            let ghost pb = placements.deep_view();
            assert(mv[mk as int] == marks[mk as int].deep_view());
            let p = ImagePlacement {
                target: string_of(&marks[mk].target),
                start: flat.len(),
                rows: marks[mk].rows,
            };
            let ghost pv = p.deep_view();
            placements.push(p);
            assert(placements.deep_view() =~= pb.push(pv));
            assert(placements.deep_view() =~= Seq::new(
                (mk + 1) as nat,
                |i: int|
                    PlacementView {
                        target: mv[i].target,
                        start: flatten(rv.take(mv[i].at), w).len() as int,
                        rows: mv[i].rows,
                    },
            ));
            mk += 1;
        }
        proof {
            assert forall|a: int| mk <= a < mv.len() implies #[trigger] mv[a].at >= j + 1 by {
                if mk > 0 && a > mk - 1 {
                    assert(mv[mk - 1].at < mv[a].at);
                }
                if mv[a].at == j {
                    if mk < mv.len() {
                        assert(mv[mk as int].at <= mv[a].at);
                    }
                }
            }
        }
        let line = copy_line(&rendered[j]);
        assert(line.deep_view() == rv[j as int]);
        let wrapped = wrap_styled_line(line, w);
        push_lines(&mut flat, &wrapped);
        assert(rv.take(j + 1).drop_last() =~= rv.take(j as int));
        assert(rv.take(j + 1).last() == rv[j as int]);
        j += 1;
    }
    assert(rv.take(rendered.len() as int) =~= rv);
    assert(mk == mv.len()) by {
        if mk < mv.len() {
            assert(mv[mk as int].at >= j);
        }
    }
    assert(placements.deep_view() =~= placements_spec(content@, width, image_rows@));
    (flat, placements)
}

/// The rows `scroll..scroll + take` of a sequence of rows, cut to its end.
pub open spec fn window<T>(rows: Seq<T>, scroll: int, take: int) -> Seq<T> {
    let a = if scroll < rows.len() {
        scroll
    } else {
        rows.len() as int
    };
    let b = if scroll + take < rows.len() {
        scroll + take
    } else {
        rows.len() as int
    };
    rows.subrange(a, b)
}

/// The preview rows `scroll..scroll + take` of a document, every image
/// given [`IMAGE_PREVIEW_ROWS`] rows.
pub fn render_preview_document(content: &str, scroll: usize, take: usize, width: usize) -> (r: Vec<
    StyledLine,
>)
    ensures
        r.deep_view() == window(
            preview_rows_spec(content@, width, seq![]),
            scroll as int,
            take as int,
        ),
{
    let none: Vec<usize> = Vec::new();
    assert(none@ =~= Seq::<usize>::empty());
    let (flat, _placements) = render_preview_document_full(content, width, none.as_slice());
    let ghost fv = flat.deep_view();
    let a = if scroll < flat.len() {
        scroll
    } else {
        flat.len()
    };
    let b = if take < flat.len() - a {
        a + take
    } else {
        flat.len()
    };
    let mut out: Vec<StyledLine> = Vec::new();
    let mut i = a;
    while i < b
        invariant
            a <= i <= b <= flat.len(),
            fv == flat.deep_view(),
            out.deep_view() == fv.subrange(a as int, i as int),
        decreases b - i,
    {
        let x = copy_line(&flat[i]);
        let ghost before = out.deep_view();
        let ghost xv = x.deep_view();
        out.push(x);
        assert(out.deep_view() =~= before.push(xv));
        assert(fv.subrange(a as int, i + 1) =~= fv.subrange(a as int, i as int).push(fv[i as int]));
        i += 1;
    }
    out
}

} // verus!
