//! Plain-text snapshots of the editor: its state, and the rows the preview,
//! the editor and the sidebar show in a viewport of a given size.
use vstd::prelude::*;
use crate::text::{
    chars_of, string_of, concat, copy_range, trim, trim_start, trim_start_char, trim_bounds,
    trim_start_index, lemma_ws_skip_bounds, char_skip, lemma_char_skip_bounds, dec_str,
    decimal_chars, spaces, space_chars, count_char,
};
use crate::width::{char_width, unicode_char_width, str_width, unicode_str_width};
use crate::markdown::{LineKind, classify_spec, classify_document, outline_spec, OutlineItemView};
use crate::render::{cell_width_of, rep};
use crate::app::{
    App, ViewMode, FocusPane, FileEntry, FileEntryView, lines_of, char_pos, word_count,
};

verus! {

// ---------------------------------------------------------------------
// Wrapping plain text

/// The state of wrapping a text: finished rows, the row being filled and
/// its width.
pub struct RowState {
    pub rows: Seq<Seq<char>>,
    pub cur: Seq<char>,
    pub cw: int,
}

/// One character added: it starts a new row when the row it would join is
/// not empty and would grow past the width.
pub open spec fn row_step(st: RowState, c: char, width: usize) -> RowState {
    let w = cell_width_of(c) as int;
    if st.cw > 0 && st.cw + w > width {
        RowState { rows: st.rows.push(st.cur), cur: seq![c], cw: w }
    } else {
        RowState { rows: st.rows, cur: st.cur.push(c), cw: st.cw + w }
    }
}

/// The state after wrapping the given characters.
pub open spec fn row_fold(s: Seq<char>, width: usize) -> RowState
    decreases s.len(),
{
    if s.len() == 0 {
        RowState { rows: seq![], cur: seq![], cw: 0 }
    } else {
        row_step(row_fold(s.drop_last(), width), s.last(), width)
    }
}

/// A text broken into rows no wider than `width` (a character wider than
/// the width gets a row of its own); one empty row for an empty text or a
/// zero width.
pub open spec fn wrap_line_spec(raw: Seq<char>, width: usize) -> Seq<Seq<char>> {
    if width == 0 || raw.len() == 0 {
        seq![seq![]]
    } else {
        let st = row_fold(raw, width);
        st.rows.push(st.cur)
    }
}

/// Rows run together.
pub open spec fn concat_rows(rows: Seq<Seq<char>>) -> Seq<char>
    decreases rows.len(),
{
    if rows.len() == 0 {
        seq![]
    } else {
        concat_rows(rows.drop_last()) + rows.last()
    }
}

proof fn lemma_row_fold(s: Seq<char>, width: usize)
    ensures
        concat_rows(row_fold(s, width).rows) + row_fold(s, width).cur == s,
        0 <= row_fold(s, width).cw,
        s.len() > 0 ==> row_fold(s, width).cur.len() > 0,
    decreases s.len(),
{
    if s.len() > 0 {
        lemma_row_fold(s.drop_last(), width);
        let st = row_fold(s.drop_last(), width);
        let nx = row_fold(s, width);
        if st.cw > 0 && st.cw + cell_width_of(s.last()) > width {
            assert(nx.rows.drop_last() =~= st.rows);
            assert(concat_rows(nx.rows) == concat_rows(st.rows) + st.cur);
        }
        assert(s =~= s.drop_last().push(s.last()));
        assert(concat_rows(nx.rows) + nx.cur =~= s);
    }
}

/// Wrapping loses and adds no character: the rows of a text, run
/// together, give the text back (for any width but zero).
pub proof fn law_wrap_line_keeps_text(raw: Seq<char>, width: usize)
    requires
        width > 0,
    ensures
        concat_rows(wrap_line_spec(raw, width)) == raw,
{
    if raw.len() == 0 {
        let r = seq![Seq::<char>::empty()];
        assert(r.drop_last() =~= Seq::<Seq<char>>::empty());
        assert(concat_rows(r.drop_last()) =~= Seq::<char>::empty());
        assert(concat_rows(r) =~= Seq::<char>::empty());
        assert(wrap_line_spec(raw, width) == r);
    } else {
        lemma_row_fold(raw, width);
        let st = row_fold(raw, width);
        assert(st.rows.push(st.cur).drop_last() =~= st.rows);
    }
}

/// The columns a character takes when wrapping.
fn char_cols(c: char) -> (r: usize)
    ensures
        r == cell_width_of(c),
        1 <= r <= 3,
{
    match char_width(c) {
        Some(w) => if w > 1 {
            w
        } else {
            1
        },
        None => 1,
    }
}

/// A text broken into rows no wider than `width`.
pub fn wrap_line(raw: &[char], width: usize) -> (r: Vec<Vec<char>>)
    ensures
        r.deep_view() == wrap_line_spec(raw@, width),
{
    let mut rows: Vec<Vec<char>> = Vec::new();
    if width == 0 || raw.len() == 0 {
        let e: Vec<char> = Vec::new();
        assert(e.deep_view() =~= Seq::<char>::empty());
        rows.push(e);
        assert(rows.deep_view() =~= seq![Seq::<char>::empty()]);
        return rows;
    }
    let mut cur: Vec<char> = Vec::new();
    let mut cw: usize = 0;
    let mut i: usize = 0;
    while i < raw.len()
        invariant
            i <= raw.len(),
            width > 0,
            rows.deep_view() == row_fold(raw@.take(i as int), width).rows,
            cur@ == row_fold(raw@.take(i as int), width).cur,
            cw == row_fold(raw@.take(i as int), width).cw,
            cw <= (if width > 3 { width } else { 3 }),
        decreases raw.len() - i,
    {
        proof {
            lemma_row_fold(raw@.take(i as int), width);
            assert(raw@.take(i + 1).drop_last() =~= raw@.take(i as int));
            assert(raw@.take(i + 1).last() == raw@[i as int]);
        }
        let c = raw[i];
        let w = char_cols(c);
        if cw > 0 && (cw > width || w > width - cw) {
            let ghost before = rows.deep_view();
            let ghost cv = cur.deep_view();
            assert(cv =~= cur@);
            rows.push(cur);
            assert(rows.deep_view() =~= before.push(cv));
            cur = Vec::new();
            cur.push(c);
            cw = w;
        } else {
            cur.push(c);
            cw = cw + w;
        }
        i += 1;
    }
    assert(raw@.take(raw.len() as int) =~= raw@);
    let ghost before = rows.deep_view();
    let ghost cv = cur.deep_view();
    assert(cv =~= cur@);
    rows.push(cur);
    assert(rows.deep_view() =~= before.push(cv));
    rows
}

// ---------------------------------------------------------------------
// Plain renderings of single lines

/// A line with the cursor drawn into it: the character under the cursor
/// (a space past the end) in square brackets.
pub open spec fn mark_cursor_spec(raw: Seq<char>, col: usize) -> Seq<char> {
    let p = char_pos(raw, col);
    if p < raw.len() {
        raw.take(p) + seq!['[', raw[p], ']'] + raw.skip(p + 1)
    } else {
        raw + seq!['[', ' ', ']']
    }
}

/// A line with the cursor drawn into it.
pub fn mark_cursor(raw: &[char], col: usize) -> (r: Vec<char>)
    ensures
        r@ == mark_cursor_spec(raw@, col),
{
    let p = if col < raw.len() {
        col
    } else {
        raw.len()
    };
    let mut out = copy_range(raw, 0, p);
    out.push('[');
    if p < raw.len() {
        out.push(raw[p]);
        out.push(']');
        let rest = copy_range(raw, p + 1, raw.len());
        let r = concat(&out, &rest);
        assert(rest@ == raw@.skip(p + 1));
        assert(r@ =~= mark_cursor_spec(raw@, col));
        r
    } else {
        out.push(' ');
        out.push(']');
        assert(raw@.take(p as int) =~= raw@);
        assert(out@ =~= mark_cursor_spec(raw@, col));
        out
    }
}

/// A text with every `**` taken out, left to right.
pub open spec fn without_double_stars(s: Seq<char>) -> Seq<char>
    decreases s.len(),
{
    if s.len() == 0 {
        s
    } else if s.len() >= 2 && s[0] == '*' && s[1] == '*' {
        without_double_stars(s.skip(2))
    } else {
        seq![s[0]] + without_double_stars(s.skip(1))
    }
}

/// A text with every `c` taken out.
pub open spec fn without_char(s: Seq<char>, c: char) -> Seq<char>
    decreases s.len(),
{
    if s.len() == 0 {
        s
    } else if s.last() == c {
        without_char(s.drop_last(), c)
    } else {
        without_char(s.drop_last(), c).push(s.last())
    }
}

/// A line with its bold markers and backticks taken out.
pub open spec fn strip_markers_spec(raw: Seq<char>) -> Seq<char> {
    without_char(without_double_stars(raw), '`')
}

/// A line with its bold markers and backticks taken out.
pub fn strip_inline_markers(raw: &[char]) -> (r: Vec<char>)
    ensures
        r@ == strip_markers_spec(raw@),
{
    let mut a: Vec<char> = Vec::new();
    let mut i: usize = 0;
    assert(raw@.skip(0) =~= raw@);
    while i < raw.len()
        invariant
            i <= raw.len(),
            a@ + without_double_stars(raw@.skip(i as int)) == without_double_stars(raw@),
        decreases raw.len() - i,
    {
        if i + 1 < raw.len() && raw[i] == '*' && raw[i + 1] == '*' {
            assert(raw@.skip(i as int).skip(2) =~= raw@.skip(i + 2));
            i += 2;
        } else {
            let ghost before = a@;
            a.push(raw[i]);
            assert(raw@.skip(i as int).skip(1) =~= raw@.skip(i + 1));
            assert(a@ + without_double_stars(raw@.skip(i + 1)) =~= before + without_double_stars(
                raw@.skip(i as int),
            ));
            i += 1;
        }
    }
    assert(raw@.skip(i as int).len() == 0);
    assert(a@ =~= without_double_stars(raw@));
    let mut b: Vec<char> = Vec::new();
    let mut k: usize = 0;
    while k < a.len()
        invariant
            k <= a.len(),
            b@ == without_char(a@.take(k as int), '`'),
        decreases a.len() - k,
    {
        assert(a@.take(k + 1).drop_last() =~= a@.take(k as int));
        if a[k] != '`' {
            b.push(a[k]);
        }
        k += 1;
    }
    assert(a@.take(a.len() as int) =~= a@);
    b
}

/// The plain preview of one line: headings with their `#` marks and a
/// space, block quotes behind a bar, rules as a line of twelve, and other
/// lines without bold markers and backticks.
pub open spec fn plain_preview_spec(raw: Seq<char>) -> Seq<char> {
    match classify_spec(raw)[0].kind {
        LineKind::Heading(level) => rep('#', level as nat) + seq![' '] + trim(
            trim_start_char(raw, '#'),
        ),
        LineKind::Blockquote => seq!['▌', ' '] + trim(trim_start_char(trim_start(raw), '>')),
        LineKind::HorizontalRule => rep('─', 12),
        _ => strip_markers_spec(raw),
    }
}

/// Text after the leading run of `c`, trimmed.
fn after_run_trimmed(s: &[char], c: char) -> (r: Vec<char>)
    ensures
        r@ == trim(trim_start_char(s@, c)),
{
    let mut i: usize = 0;
    while i < s.len() && s[i] == c
        invariant
            i <= s.len(),
            char_skip(s@, c, i as int) == char_skip(s@, c, 0),
        decreases s.len() - i,
    {
        i += 1;
    }
    let rest = &s[i..s.len()];
    assert(rest@ == trim_start_char(s@, c));
    let (a, b) = trim_bounds(rest);
    copy_range(rest, a, b)
}

/// The plain preview of one line.
pub fn preview_plain_line(raw: &[char]) -> (r: Vec<char>)
    ensures
        r@ == plain_preview_spec(raw@),
{
    let text = string_of(raw);
    let classes = classify_document(text.as_str());
    proof {
        crate::text::lemma_split_nonempty(raw@, '\n');
    }
    assert(classes.deep_view().len() > 0);
    assert(classes[0].deep_view() == classify_spec(raw@)[0]);
    match classes[0].kind {
        LineKind::Heading(level) => {
            let mut out: Vec<char> = Vec::new();
            let mut k: u8 = 0;
            while k < level
                invariant
                    k <= level,
                    out@ == rep('#', k as nat),
                decreases level - k,
            {
                out.push('#');
                assert(out@ =~= rep('#', (k + 1) as nat));
                k += 1;
            }
            out.push(' ');
            let title = after_run_trimmed(raw, '#');
            concat(&out, &title)
        },
        LineKind::Blockquote => {
            let k = trim_start_index(raw);
            let t = &raw[k..raw.len()];
            assert(t@ == trim_start(raw@));
            let body = after_run_trimmed(t, '>');
            let bar = vec!['▌', ' '];
            concat(&bar, &body)
        },
        LineKind::HorizontalRule => {
            let mut out: Vec<char> = Vec::new();
            let mut k: usize = 0;
            while k < 12
                invariant
                    k <= 12,
                    out@ == rep('─', k as nat),
                decreases 12 - k,
            {
                out.push('─');
                assert(out@ =~= rep('─', (k + 1) as nat));
                k += 1;
            }
            out
        },
        _ => strip_inline_markers(raw),
    }
}

// ---------------------------------------------------------------------
// Snapshots

/// The rows a viewport of `width` by `height` cells shows.
#[derive(Clone, Debug, PartialEq, Eq)]
pub struct ViewportDump {
    pub width: usize,
    pub height: usize,
    pub lines: Vec<String>,
}

/// The editor's state, field by field.
#[derive(Clone, Debug, PartialEq, Eq)]
pub struct StateDump {
    pub mode: ViewMode,
    pub focus: FocusPane,
    pub cursor_line: usize,
    pub cursor_col: usize,
    pub scroll: usize,
    pub preview_scroll: usize,
    pub sidebar_visible: bool,
    pub sidebar_collapsed: bool,
    pub sidebar_files: bool,
    pub show_help: bool,
    pub leader: bool,
    pub modified: bool,
    pub should_quit: bool,
    pub status: String,
    pub file_path: Option<String>,
    pub file_browser_cwd: String,
    pub selected_file: usize,
    pub selected_outline: usize,
    pub content: String,
}

/// A snapshot of the editor's state.
pub fn state(app: &App) -> (r: StateDump)
    ensures
        r.mode == app.mode,
        r.focus == app.focus,
        r.cursor_line == app.cursor_line,
        r.cursor_col == app.cursor_col,
        r.scroll == app.scroll,
        r.preview_scroll == app.preview_scroll,
        r.sidebar_visible == app.sidebar_visible,
        r.sidebar_collapsed == app.sidebar_collapsed,
        r.sidebar_files == app.sidebar_files,
        r.show_help == app.show_help,
        r.leader == app.leader,
        r.modified == app.modified,
        r.should_quit == app.should_quit,
        r.status@ == app.status@,
        r.file_path == app.file_path,
        r.file_browser_cwd@ == app.file_browser_cwd@,
        r.selected_file == app.selected_file,
        r.selected_outline == app.selected_outline,
        r.content@ == app.content@,
{
    StateDump {
        mode: app.mode,
        focus: app.focus,
        cursor_line: app.cursor_line,
        cursor_col: app.cursor_col,
        scroll: app.scroll,
        preview_scroll: app.preview_scroll,
        sidebar_visible: app.sidebar_visible,
        sidebar_collapsed: app.sidebar_collapsed,
        sidebar_files: app.sidebar_files,
        show_help: app.show_help,
        leader: app.leader,
        modified: app.modified,
        should_quit: app.should_quit,
        status: app.status.clone(),
        file_path: match &app.file_path {
            Some(p) => Some(p.clone()),
            None => None,
        },
        file_browser_cwd: app.file_browser_cwd.clone(),
        selected_file: app.selected_file,
        selected_outline: app.selected_outline,
        content: app.content.clone(),
    }
}

/// The inner extent of a bordered box `n` cells wide: two less, one at
/// least.
pub open spec fn inner(n: usize) -> usize {
    if n > 3 {
        (n - 2) as usize
    } else {
        1
    }
}

/// The first `n` items (all of them when there are fewer).
pub open spec fn prefix<T>(s: Seq<T>, n: int) -> Seq<T> {
    if n < s.len() {
        s.take(n)
    } else {
        s
    }
}

/// Lines wrapped, one after another.
pub open spec fn wrap_all(lines: Seq<Seq<char>>, width: usize) -> Seq<Seq<char>>
    decreases lines.len(),
{
    if lines.len() == 0 {
        seq![]
    } else {
        wrap_all(lines.drop_last(), width) + wrap_line_spec(lines.last(), width)
    }
}

proof fn lemma_wrap_all_append(a: Seq<Seq<char>>, b: Seq<Seq<char>>, width: usize)
    ensures
        wrap_all(a + b, width) == wrap_all(a, width) + wrap_all(b, width),
    decreases b.len(),
{
    if b.len() == 0 {
        assert(a + b =~= a);
    } else {
        lemma_wrap_all_append(a, b.drop_last(), width);
        assert((a + b).drop_last() =~= a + b.drop_last());
        assert((a + b).last() == b.last());
    }
}

/// Keeping the first `h` rows once at least `h` are there: what follows
/// does not matter.
proof fn lemma_prefix_append<T>(x: Seq<T>, y: Seq<T>, h: int)
    requires
        x.len() >= h,
        h >= 0,
    ensures
        prefix(x + y, h) == prefix(x, h),
{
    assert((x + y).take(h) =~= x.take(h));
    if h == x.len() {
        assert(x.take(h) =~= x);
    }
}

/// The document lines from `scroll` on.
pub open spec fn from_line<T>(s: Seq<T>, scroll: usize) -> Seq<T> {
    if (scroll as int) < s.len() {
        s.skip(scroll as int)
    } else {
        seq![]
    }
}

/// What the preview shows of a document in a `width` by `height` box,
/// starting at line `scroll`: each line's plain preview, wrapped to the
/// inner width, cut to the inner height.
pub open spec fn preview_lines_spec(content: Seq<char>, scroll: usize, width: usize, height: usize) -> Seq<
    Seq<char>,
> {
    let ls = from_line(lines_of(content), scroll);
    let plain = Seq::new(ls.len(), |i: int| plain_preview_spec(ls[i]));
    prefix(wrap_all(plain, inner(width)), inner(height) as int)
}

/// Rows as strings.
fn rows_to_strings(rows: &Vec<Vec<char>>) -> (r: Vec<String>)
    ensures
        r.deep_view() == rows.deep_view(),
{
    let mut out: Vec<String> = Vec::new();
    let mut i: usize = 0;
    while i < rows.len()
        invariant
            i <= rows.len(),
            out.deep_view() == rows.deep_view().take(i as int),
        decreases rows.len() - i,
    {
        let s = string_of(rows[i].as_slice());
        let ghost before = out.deep_view();
        let ghost sv = s@;
        assert(sv == rows.deep_view()[i as int]);
        out.push(s);
        assert(out.deep_view() =~= before.push(sv));
        assert(rows.deep_view().take(i + 1) =~= rows.deep_view().take(i as int).push(sv));
        i += 1;
    }
    assert(rows.deep_view().take(rows.len() as int) =~= rows.deep_view());
    out
}

/// The first `n` rows.
fn keep_rows(rows: Vec<Vec<char>>, n: usize) -> (r: Vec<Vec<char>>)
    ensures
        r.deep_view() == prefix(rows.deep_view(), n as int),
{
    let mut rows = rows;
    let ghost rv = rows.deep_view();
    let len = rows.len();
    rows.truncate(n);
    if n < len {
        assert(rows.deep_view() =~= rv.take(n as int));
    } else {
        assert(rows.deep_view() =~= rv);
    }
    rows
}

/// Appends rows.
fn extend_rows(rows: &mut Vec<Vec<char>>, more: Vec<Vec<char>>)
    ensures
        final(rows).deep_view() == old(rows).deep_view() + more.deep_view(),
{
    let ghost start = rows.deep_view();
    let mut i: usize = 0;
    while i < more.len()
        invariant
            i <= more.len(),
            rows.deep_view() == start + more.deep_view().take(i as int),
        decreases more.len() - i,
    {
        let row = copy_range(more[i].as_slice(), 0, more[i].len());
        let ghost before = rows.deep_view();
        let ghost rv = row.deep_view();
        assert(rv =~= more.deep_view()[i as int]);
        rows.push(row);
        assert(rows.deep_view() =~= before.push(rv));
        assert(more.deep_view().take(i + 1) =~= more.deep_view().take(i as int).push(rv));
        i += 1;
    }
    assert(more.deep_view().take(more.len() as int) =~= more.deep_view());
}

/// `max(n - 2, 1)`.
fn inner_exec(n: usize) -> (r: usize)
    ensures
        r == inner(n),
{
    if n > 3 {
        n - 2
    } else {
        1
    }
}

/// The rows the preview shows in a `width` by `height` box.
pub fn preview_lines(app: &App, width: usize, height: usize) -> (r: ViewportDump)
    ensures
        r.width == width,
        r.height == height,
        r.lines.deep_view() == preview_lines_spec(app.content@, app.preview_scroll, width, height),
{
    let iw = inner_exec(width);
    let ih = inner_exec(height);
    let chars = chars_of(app.content.as_str());
    let lines = crate::text::split_on(chars.as_slice(), '\n');
    let ghost ls = lines.deep_view();
    assert(ls == lines_of(app.content@));
    let start = app.preview_scroll;
    let mut rows: Vec<Vec<char>> = Vec::new();
    if start >= lines.len() {
        proof {
            let fl = from_line(ls, start);
            let plain = Seq::new(fl.len(), |i: int| plain_preview_spec(fl[i]));
            assert(plain =~= Seq::<Seq<char>>::empty());
            assert(rows.deep_view() =~= prefix(wrap_all(plain, iw), ih as int));
        }
        return ViewportDump { width, height, lines: rows_to_strings(&rows) };
    }
    let ghost fl = ls.skip(start as int);
    let ghost plain = Seq::new(fl.len(), |i: int| plain_preview_spec(fl[i]));
    let mut i = start;
    assert(rows.deep_view() =~= wrap_all(plain.take(0), iw));
    while i < lines.len()
        invariant
            start <= i <= lines.len(),
            start < lines.len(),
            start == app.preview_scroll,
            iw == inner(width),
            ih == inner(height),
            ls == lines.deep_view(),
            ls == lines_of(app.content@),
            fl == ls.skip(start as int),
            plain == Seq::new(fl.len(), |k: int| plain_preview_spec(fl[k])),
            rows.deep_view() == wrap_all(plain.take(i - start), iw),
        decreases lines.len() - i,
    {
        assert(lines[i as int]@ == fl[i - start]);
        let text = preview_plain_line(lines[i].as_slice());
        let wrapped = wrap_line(&text, iw);
        proof {
            assert(plain.take(i - start + 1).drop_last() =~= plain.take(i - start));
            assert(plain.take(i - start + 1).last() == plain[i - start]);
        }
        extend_rows(&mut rows, wrapped);
        assert(text@ == plain[i - start]);
        assert(rows.deep_view() == wrap_all(plain.take(i - start + 1), iw));
        if rows.len() >= ih {
            proof {
                assert(from_line(lines_of(app.content@), app.preview_scroll) == fl);
                assert(Seq::new(fl.len(), |k: int| plain_preview_spec(fl[k])) =~= plain);
                assert(preview_lines_spec(app.content@, app.preview_scroll, width, height) == prefix(
                    wrap_all(plain, iw),
                    ih as int,
                ));
                let taken = plain.take(i - start + 1);
                assert(plain =~= taken + plain.skip(i - start + 1));
                lemma_wrap_all_append(taken, plain.skip(i - start + 1), iw);
                lemma_prefix_append(
                    rows.deep_view(),
                    wrap_all(plain.skip(i - start + 1), iw),
                    ih as int,
                );
            }
            let kept = keep_rows(rows, ih);
            return ViewportDump { width, height, lines: rows_to_strings(&kept) };
        }
        i += 1;
    }
    assert(plain.take(plain.len() as int) =~= plain);
    let kept = keep_rows(rows, ih);
    ViewportDump { width, height, lines: rows_to_strings(&kept) }
}

/// How many columns the line numbers of a document of `n` lines take:
/// the digits of `n`, three at least.
pub open spec fn number_width(n: nat) -> nat {
    let d = dec_str(n).len();
    if d > 3 {
        d
    } else {
        3
    }
}

/// The number of line `idx` (counting from one), right-aligned to `nw`
/// columns, and a space.
pub open spec fn number_prefix(idx: nat, nw: nat) -> Seq<char> {
    let d = dec_str(idx + 1);
    (if d.len() < nw {
        spaces((nw - d.len()) as nat)
    } else {
        seq![]
    }) + d + seq![' ']
}

/// The rows of one editor line: wrapped to what the number leaves of the
/// width, the first row behind the number, the others behind as many
/// spaces as the number is wide.
pub open spec fn editor_line_rows(raw: Seq<char>, pre: Seq<char>, w: usize) -> Seq<Seq<char>> {
    let pw = unicode_str_width(pre);
    let wr = wrap_line_spec(
        raw,
        if w > pw {
            (w - pw) as usize
        } else {
            0
        },
    );
    Seq::new(
        wr.len(),
        |j: int|
            if j == 0 {
                pre + wr[0]
            } else {
                spaces(pw as nat) + wr[j]
            },
    )
}

/// A line as the editor shows it: with the cursor drawn in on the cursor's
/// line.
pub open spec fn editor_text(ls: Seq<Seq<char>>, idx: int, cl: usize, cc: usize) -> Seq<char> {
    if idx == cl {
        mark_cursor_spec(ls[idx], cc)
    } else {
        ls[idx]
    }
}

/// The rows of the `k` editor lines from `start` on.
pub open spec fn editor_rows(
    ls: Seq<Seq<char>>,
    start: int,
    k: int,
    cl: usize,
    cc: usize,
    w: usize,
) -> Seq<Seq<char>>
    decreases k,
{
    if k <= 0 {
        seq![]
    } else {
        let idx = start + k - 1;
        editor_rows(ls, start, k - 1, cl, cc, w) + editor_line_rows(
            editor_text(ls, idx, cl, cc),
            number_prefix(idx as nat, number_width(ls.len())),
            w,
        )
    }
}

/// What the editor shows of a document in a `width` by `height` box from
/// line `scroll` on, with the cursor at `cl`, `cc`: numbered lines,
/// wrapped, cut to the inner height.
pub open spec fn editor_lines_spec(
    content: Seq<char>,
    scroll: usize,
    cl: usize,
    cc: usize,
    width: usize,
    height: usize,
) -> Seq<Seq<char>> {
    let ls = lines_of(content);
    let h = inner(height) as int;
    let n = if (scroll as int) < ls.len() {
        if ls.len() - scroll < h {
            ls.len() - scroll
        } else {
            h
        }
    } else {
        0
    };
    prefix(editor_rows(ls, scroll as int, n, cl, cc, inner(width)), h)
}

/// The rows the editor shows in a `width` by `height` box.
pub fn editor_lines(app: &App, width: usize, height: usize) -> (r: ViewportDump)
    ensures
        r.width == width,
        r.height == height,
        r.lines.deep_view() == editor_lines_spec(
            app.content@,
            app.scroll,
            app.cursor_line,
            app.cursor_col,
            width,
            height,
        ),
{
    let iw = inner_exec(width);
    let ih = inner_exec(height);
    let chars = chars_of(app.content.as_str());
    let lines = crate::text::split_on(chars.as_slice(), '\n');
    let ghost ls = lines.deep_view();
    assert(ls == lines_of(app.content@));
    let digits = decimal_chars(lines.len());
    let nw = if digits.len() > 3 {
        digits.len()
    } else {
        3
    };
    let start = app.scroll;
    let n = if start < lines.len() {
        if lines.len() - start < ih {
            lines.len() - start
        } else {
            ih
        }
    } else {
        0
    };
    let mut rows: Vec<Vec<char>> = Vec::new();
    let mut k: usize = 0;
    assert(rows.deep_view() =~= editor_rows(ls, start as int, 0, app.cursor_line, app.cursor_col, iw));
    while k < n
        invariant
            k <= n,
            n == 0 || start + n <= lines.len(),
            ls == lines.deep_view(),
            nw == number_width(ls.len()),
            rows.deep_view() == editor_rows(ls, start as int, k as int, app.cursor_line, app.cursor_col, iw),
        decreases n - k,
    {
        let idx = start + k;
        let raw = lines[idx].as_slice();
        assert(raw@ == ls[idx as int]);
        let text = if idx == app.cursor_line {
            mark_cursor(raw, app.cursor_col)
        } else {
            copy_range(raw, 0, raw.len())
        };
        assert(text@ == editor_text(ls, idx as int, app.cursor_line, app.cursor_col));
        let num = decimal_chars(idx + 1);
        let mut pre: Vec<char> = if num.len() < nw {
            space_chars(nw - num.len())
        } else {
            Vec::new()
        };
        let ghost p0 = pre@;
        pre = concat(&pre, &num);
        pre.push(' ');
        assert(pre@ =~= number_prefix(idx as nat, nw as nat));
        let pw = str_width(string_of(&pre).as_str());
        let ww = if iw > pw {
            iw - pw
        } else {
            0
        };
        let wrapped = wrap_line(&text, ww);
        let ghost wr = wrapped.deep_view();
        let lead = space_chars(pw);
        let mut j: usize = 0;
        let ghost base = rows.deep_view();
        let ghost lr = editor_line_rows(text@, pre@, iw);
        while j < wrapped.len()
            invariant
                j <= wrapped.len(),
                wr == wrapped.deep_view(),
                wr == wrap_line_spec(text@, ww),
                lead@ == spaces(pw as nat),
                pw == unicode_str_width(pre@),
                lr == editor_line_rows(text@, pre@, iw),
                ww == (if iw > pw { (iw - pw) as usize } else { 0 }),
                rows.deep_view() == base + lr.take(j as int),
            decreases wrapped.len() - j,
        {
            let row = if j == 0 {
                concat(&pre, wrapped[j].as_slice())
            } else {
                concat(&lead, wrapped[j].as_slice())
            };
            assert(row@ == lr[j as int]);
            let ghost before = rows.deep_view();
            let ghost rv = row.deep_view();
            assert(rv =~= row@);
            rows.push(row);
            assert(rows.deep_view() =~= before.push(rv));
            assert(lr.take(j + 1) =~= lr.take(j as int).push(rv));
            j += 1;
        }
        assert(lr.take(wrapped.len() as int) =~= lr);
        k += 1;
    }
    let kept = keep_rows(rows, ih);
    ViewportDump { width, height, lines: rows_to_strings(&kept) }
}

/// The help the sidebar shows.
pub open spec fn help_spec() -> Seq<Seq<char>> {
    seq![
        "HELP"@,
        seq![],
        "Ctrl+X e/p  Edit / preview"@,
        "Ctrl+X f/o  Files / outline"@,
        "Ctrl+X b/r  Toggle sidebar collapse"@,
        "Ctrl+X u/y  Undo / redo"@,
        "Ctrl+X s    Save"@,
        "Ctrl+X q    Quit"@,
        "Ctrl+Q      Quit from anywhere"@,
        seq![],
        "Preview: ↑/↓ scroll"@,
        "Edit: arrows move, type, Enter, Backspace"@,
        "Files: ↑/↓ select, Enter open, Esc editor"@,
    ]
}

/// Appends a row.
fn push_row(rows: &mut Vec<Vec<char>>, row: Vec<char>)
    ensures
        final(rows).deep_view() == old(rows).deep_view().push(row@),
{
    let ghost before = rows.deep_view();
    let ghost rv = row.deep_view();
    assert(rv =~= row@);
    rows.push(row);
    assert(rows.deep_view() =~= before.push(rv));
}

/// An empty row.
fn no_chars() -> (r: Vec<char>)
    ensures
        r@ == Seq::<char>::empty(),
{
    let r: Vec<char> = Vec::new();
    assert(r@ =~= Seq::<char>::empty());
    r
}

/// The help the sidebar shows.
pub fn help_lines() -> (r: Vec<Vec<char>>)
    ensures
        r.deep_view() == help_spec(),
{
    let mut r: Vec<Vec<char>> = Vec::new();
    push_row(&mut r, chars_of("HELP"));
    push_row(&mut r, no_chars());
    push_row(&mut r, chars_of("Ctrl+X e/p  Edit / preview"));
    push_row(&mut r, chars_of("Ctrl+X f/o  Files / outline"));
    push_row(&mut r, chars_of("Ctrl+X b/r  Toggle sidebar collapse"));
    push_row(&mut r, chars_of("Ctrl+X u/y  Undo / redo"));
    push_row(&mut r, chars_of("Ctrl+X s    Save"));
    push_row(&mut r, chars_of("Ctrl+X q    Quit"));
    push_row(&mut r, chars_of("Ctrl+Q      Quit from anywhere"));
    push_row(&mut r, no_chars());
    push_row(&mut r, chars_of("Preview: ↑/↓ scroll"));
    push_row(&mut r, chars_of("Edit: arrows move, type, Enter, Backspace"));
    push_row(&mut r, chars_of("Files: ↑/↓ select, Enter open, Esc editor"));
    assert(r.deep_view() =~= help_spec());
    r
}

/// The file information and outline the sidebar shows: path (or
/// `[No Name]`), whether modified, line and word counts, then each heading
/// indented by its level, the selected one marked while the outline has
/// the focus.
pub open spec fn outline_sidebar_spec(app: App) -> Seq<Seq<char>> {
    let path = match app.file_path {
        Some(p) => p@,
        None => "[No Name]"@,
    };
    let items = outline_spec(app.content@);
    let head = seq![
        "FILE INFO"@,
        seq![],
        "Path: "@ + path,
        "Modified: "@ + (if app.modified {
            "Yes"@
        } else {
            "No"@
        }),
        "Lines: "@ + dec_str(count_char(app.content@, '\n') + 1) + "  Words: "@ + dec_str(
            word_count(app.content@),
        ),
        seq![],
        "OUTLINE"@,
        seq![],
    ];
    head + if items.len() == 0 {
        seq!["No headings found"@]
    } else {
        Seq::new(
            items.len(),
            |i: int|
                (if app.focus == FocusPane::Outline && i == app.selected_outline {
                    "> "@
                } else {
                    "  "@
                }) + spaces(
                    2 * (if items[i].level > 0 {
                        items[i].level - 1
                    } else {
                        0
                    }) as nat,
                ) + items[i].text,
        )
    }
}

/// A string's characters.
fn chars_of_string(s: &String) -> (r: Vec<char>)
    ensures
        r@ == s@,
{
    chars_of(s.as_str())
}

/// The file information and outline the sidebar shows.
pub fn outline_sidebar_lines(app: &App) -> (r: Vec<Vec<char>>)
    requires
        app.content@.len() < usize::MAX,
    ensures
        r.deep_view() == outline_sidebar_spec(*app),
{
    let stats = app.stats();
    let mut r: Vec<Vec<char>> = Vec::new();
    push_row(&mut r, chars_of("FILE INFO"));
    push_row(&mut r, no_chars());
    let mut path = String::from_str("Path: ");
    match &app.file_path {
        Some(p) => path.append(p.as_str()),
        None => path.append("[No Name]"),
    }
    push_row(&mut r, chars_of_string(&path));
    let mut modified = String::from_str("Modified: ");
    if app.modified {
        modified.append("Yes");
    } else {
        modified.append("No");
    }
    push_row(&mut r, chars_of_string(&modified));
    let mut counts = chars_of("Lines: ");
    counts = concat(&counts, &decimal_chars(stats.lines));
    counts = concat(&counts, &chars_of("  Words: "));
    counts = concat(&counts, &decimal_chars(stats.words));
    push_row(&mut r, counts);
    push_row(&mut r, no_chars());
    push_row(&mut r, chars_of("OUTLINE"));
    push_row(&mut r, no_chars());
    let ghost head = r.deep_view();
    let items = app.outline();
    let ghost iv = items.deep_view();
    if items.len() == 0 {
        push_row(&mut r, chars_of("No headings found"));
        assert(r.deep_view() =~= outline_sidebar_spec(*app));
        return r;
    }
    let mut i: usize = 0;
    while i < items.len()
        invariant
            i <= items.len(),
            iv == items.deep_view(),
            iv == outline_spec(app.content@),
            r.deep_view() == head + Seq::new(
                i as nat,
                |k: int|
                    (if app.focus == FocusPane::Outline && k == app.selected_outline {
                        "> "@
                    } else {
                        "  "@
                    }) + spaces(
                        2 * (if iv[k].level > 0 {
                            iv[k].level - 1
                        } else {
                            0
                        }) as nat,
                    ) + iv[k].text,
            ),
        decreases items.len() - i,
    {
        let it = &items[i];
        assert(it.deep_view() == iv[i as int]);
        let mut line = if app.focus == FocusPane::Outline && i == app.selected_outline {
            chars_of("> ")
        } else {
            chars_of("  ")
        };
        let depth: usize = if it.level > 0 {
            (it.level - 1) as usize
        } else {
            0
        };
        line = concat(&line, &space_chars(2 * depth));
        line = concat(&line, &chars_of(it.text.as_str()));
        let ghost before = r.deep_view();
        let ghost lv = line.deep_view();
        assert(lv =~= line@);
        push_row(&mut r, line);
        assert(r.deep_view() =~= before.push(lv));
        assert(r.deep_view() =~= head + Seq::new(
            (i + 1) as nat,
            |k: int|
                (if app.focus == FocusPane::Outline && k == app.selected_outline {
                    "> "@
                } else {
                    "  "@
                }) + spaces(
                    2 * (if iv[k].level > 0 {
                        iv[k].level - 1
                    } else {
                        0
                    }) as nat,
                ) + iv[k].text,
        ));
        i += 1;
    }
    assert(r.deep_view() =~= outline_sidebar_spec(*app));
    r
}

/// What the sidebar lists before wrapping: a collapsed marker, the help,
/// the file browser's entries (the selected one marked), or the file
/// information and outline.
pub open spec fn sidebar_source(app: App, es: Seq<FileEntryView>) -> Seq<Seq<char>> {
    if app.sidebar_collapsed {
        seq!["[ ]"@, seq![], "^X r"@]
    } else if app.show_help {
        help_spec()
    } else if app.sidebar_files {
        Seq::new(
            es.len(),
            |i: int|
                (if i == app.selected_file {
                    "> "@
                } else {
                    "  "@
                }) + es[i].name,
        )
    } else {
        outline_sidebar_spec(app)
    }
}

/// What the sidebar shows in a `width` by `height` box; `entries` is what
/// the file browser lists.
pub open spec fn sidebar_lines_spec(app: App, es: Seq<FileEntryView>, width: usize, height: usize) -> Seq<
    Seq<char>,
> {
    prefix(wrap_all(sidebar_source(app, es), inner(width)), inner(height) as int)
}

/// The rows the sidebar shows in a `width` by `height` box; `entries` is
/// what the file browser lists.
pub fn sidebar_lines(app: &App, entries: &Vec<FileEntry>, width: usize, height: usize) -> (r:
    ViewportDump)
    requires
        app.content@.len() < usize::MAX,
    ensures
        r.width == width,
        r.height == height,
        r.lines.deep_view() == sidebar_lines_spec(*app, entries.deep_view(), width, height),
{
    let iw = inner_exec(width);
    let ih = inner_exec(height);
    let src: Vec<Vec<char>> = if app.sidebar_collapsed {
        let mut v: Vec<Vec<char>> = Vec::new();
        push_row(&mut v, chars_of("[ ]"));
        push_row(&mut v, no_chars());
        push_row(&mut v, chars_of("^X r"));
        assert(v.deep_view() =~= seq!["[ ]"@, seq![], "^X r"@]);
        v
    } else if app.show_help {
        help_lines()
    } else if app.sidebar_files {
        let ghost es = entries.deep_view();
        let mut v: Vec<Vec<char>> = Vec::new();
        let mut i: usize = 0;
        while i < entries.len()
            invariant
                i <= entries.len(),
                es == entries.deep_view(),
                v.deep_view() == Seq::new(
                    i as nat,
                    |k: int|
                        (if k == app.selected_file {
                            "> "@
                        } else {
                            "  "@
                        }) + es[k].name,
                ),
            decreases entries.len() - i,
        {
            assert(entries[i as int].deep_view() == es[i as int]);
            let marker = if i == app.selected_file {
                chars_of("> ")
            } else {
                chars_of("  ")
            };
            let line = concat(&marker, &chars_of(entries[i].name.as_str()));
            let ghost before = v.deep_view();
            let ghost lv = line.deep_view();
            assert(lv =~= line@);
            v.push(line);
            assert(v.deep_view() =~= before.push(lv));
            assert(v.deep_view() =~= Seq::new(
                (i + 1) as nat,
                |k: int|
                    (if k == app.selected_file {
                        "> "@
                    } else {
                        "  "@
                    }) + es[k].name,
            ));
            i += 1;
        }
        v
    } else {
        outline_sidebar_lines(app)
    };
    let ghost sv = src.deep_view();
    assert(sv == sidebar_source(*app, entries.deep_view()));
    let mut rows: Vec<Vec<char>> = Vec::new();
    let mut i: usize = 0;
    assert(rows.deep_view() =~= wrap_all(sv.take(0), iw));
    while i < src.len()
        invariant
            i <= src.len(),
            sv == src.deep_view(),
            rows.deep_view() == wrap_all(sv.take(i as int), iw),
        decreases src.len() - i,
    {
        assert(src[i as int]@ == sv[i as int]);
        let wrapped = wrap_line(src[i].as_slice(), iw);
        assert(sv.take(i + 1).drop_last() =~= sv.take(i as int));
        assert(sv.take(i + 1).last() == sv[i as int]);
        extend_rows(&mut rows, wrapped);
        i += 1;
    }
    assert(sv.take(src.len() as int) =~= sv);
    let kept = keep_rows(rows, ih);
    ViewportDump { width, height, lines: rows_to_strings(&kept) }
}

} // verus!
