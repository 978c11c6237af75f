//! Editor state: the document, cursor, undo history, panes and modes.
use vstd::prelude::*;
use crate::width::{str_width, unicode_str_width};
use crate::markdown::{outline, outline_spec, OutlineItem, OutlineItemView};
use crate::config::AppConfig;
use crate::text::{
    concat, chars_are, chars_of, push_char, copy_range, is_whitespace, is_ws, join, join_pieces, lemma_join_split,
    lemma_split_join, all_free_of, free_of, split, split_on, string_of, count_char, lex_lt,
    lex_less, lemma_lex_irreflexive, lemma_lex_transitive,
};

verus! {

/// How the editor draws its cursor.
#[derive(Clone, Copy, Debug, PartialEq, Eq, Structural)]
pub enum CursorStyle {
    Brackets,
    Block,
    Bar,
    Underline,
    Box,
}

/// The configuration word of a cursor style.
pub open spec fn cursor_style_word(c: CursorStyle) -> Seq<char> {
    match c {
        CursorStyle::Brackets => "brackets"@,
        CursorStyle::Block => "block"@,
        CursorStyle::Bar => "bar"@,
        CursorStyle::Underline => "underline"@,
        CursorStyle::Box => "box"@,
    }
}

/// The cursor style a configuration word names.
pub open spec fn cursor_style_from_word(v: Seq<char>) -> Option<CursorStyle> {
    if v == "brackets"@ {
        Some(CursorStyle::Brackets)
    } else if v == "block"@ {
        Some(CursorStyle::Block)
    } else if v == "bar"@ {
        Some(CursorStyle::Bar)
    } else if v == "underline"@ {
        Some(CursorStyle::Underline)
    } else if v == "box"@ {
        Some(CursorStyle::Box)
    } else {
        None
    }
}

impl CursorStyle {
    /// The cursor style a configuration word names.
    pub fn from_config_str(value: &str) -> (r: Option<CursorStyle>)
        ensures
            r == cursor_style_from_word(value@),
    {
        let v = chars_of(value);
        if chars_are(&v, "brackets") {
            Some(CursorStyle::Brackets)
        } else if chars_are(&v, "block") {
            Some(CursorStyle::Block)
        } else if chars_are(&v, "bar") {
            Some(CursorStyle::Bar)
        } else if chars_are(&v, "underline") {
            Some(CursorStyle::Underline)
        } else if chars_are(&v, "box") {
            Some(CursorStyle::Box)
        } else {
            None
        }
    }

    /// The configuration word of this style.
    pub fn as_config_str(&self) -> (r: &'static str)
        ensures
            r@ == cursor_style_word(*self),
    {
        match self {
            CursorStyle::Brackets => "brackets",
            CursorStyle::Block => "block",
            CursorStyle::Bar => "bar",
            CursorStyle::Underline => "underline",
            CursorStyle::Box => "box",
        }
    }
}

/// How the theme picker shows colour swatches.
#[derive(Clone, Copy, Debug, PartialEq, Eq, Structural)]
pub enum ThemeSwatchStyle {
    Off,
    Circle,
    Square,
}

/// The configuration word of a swatch style.
pub open spec fn swatch_style_word(s: ThemeSwatchStyle) -> Seq<char> {
    match s {
        ThemeSwatchStyle::Off => "off"@,
        ThemeSwatchStyle::Circle => "circle"@,
        ThemeSwatchStyle::Square => "square"@,
    }
}

/// The swatch style a configuration word names.
pub open spec fn swatch_style_from_word(v: Seq<char>) -> Option<ThemeSwatchStyle> {
    if v == "off"@ {
        Some(ThemeSwatchStyle::Off)
    } else if v == "circle"@ {
        Some(ThemeSwatchStyle::Circle)
    } else if v == "square"@ {
        Some(ThemeSwatchStyle::Square)
    } else {
        None
    }
}

impl ThemeSwatchStyle {
    /// The swatch style a configuration word names.
    pub fn from_config_str(value: &str) -> (r: Option<ThemeSwatchStyle>)
        ensures
            r == swatch_style_from_word(value@),
    {
        let v = chars_of(value);
        if chars_are(&v, "off") {
            Some(ThemeSwatchStyle::Off)
        } else if chars_are(&v, "circle") {
            Some(ThemeSwatchStyle::Circle)
        } else if chars_are(&v, "square") {
            Some(ThemeSwatchStyle::Square)
        } else {
            None
        }
    }

    /// The configuration word of this style.
    pub fn as_config_str(&self) -> (r: &'static str)
        ensures
            r@ == swatch_style_word(*self),
    {
        match self {
            ThemeSwatchStyle::Off => "off",
            ThemeSwatchStyle::Circle => "circle",
            ThemeSwatchStyle::Square => "square",
        }
    }
}


/// Whether the document is shown rendered or as editable source.
#[derive(Clone, Copy, Debug, PartialEq, Eq, Structural)]
pub enum ViewMode {
    Preview,
    Edit,
}

/// The pane that takes keys.
#[derive(Clone, Copy, Debug, PartialEq, Eq, Structural)]
pub enum FocusPane {
    Editor,
    Files,
    Outline,
}

/// A key-driven mode entered with Ctrl+E, Ctrl+V or Ctrl+F.
#[derive(Clone, Copy, Debug, PartialEq, Eq, Structural)]
pub enum LeaderMode {
    Edit,
    View,
    Files,
}

/// One entry of the file browser.
#[derive(Clone, Debug, PartialEq, Eq)]
pub struct FileEntry {
    pub name: String,
    pub path: String,
    pub is_dir: bool,
}

/// Line, character and word counts of a document.
#[derive(Clone, Copy, Debug, PartialEq, Eq)]
pub struct DocumentStats {
    pub lines: usize,
    pub chars: usize,
    pub words: usize,
}

/// The document and cursor at one point of the edit history.
#[derive(Clone, Debug)]
pub struct EditSnapshot {
    pub content: String,
    pub cursor_line: usize,
    pub cursor_col: usize,
    pub scroll: usize,
    pub preview_scroll: usize,
}

/// The value an [`EditSnapshot`] stands for.
pub struct SnapshotView {
    pub content: Seq<char>,
    pub cursor_line: usize,
    pub cursor_col: usize,
    pub scroll: usize,
    pub preview_scroll: usize,
}

impl DeepView for EditSnapshot {
    type V = SnapshotView;

    open spec fn deep_view(&self) -> SnapshotView {
        SnapshotView {
            content: self.content@,
            cursor_line: self.cursor_line,
            cursor_col: self.cursor_col,
            scroll: self.scroll,
            preview_scroll: self.preview_scroll,
        }
    }
}

/// The whole editor state.
pub struct App {
    pub content: String,
    pub file_path: Option<String>,
    pub modified: bool,
    pub mode: ViewMode,
    pub focus: FocusPane,
    pub cursor_line: usize,
    pub cursor_col: usize,
    pub scroll: usize,
    pub preview_scroll: usize,
    pub sidebar_visible: bool,
    pub sidebar_collapsed: bool,
    pub sidebar_files: bool,
    pub show_help: bool,
    pub leader: bool,
    pub status: String,
    pub should_quit: bool,
    pub file_browser_cwd: String,
    pub selected_file: usize,
    pub selected_outline: usize,
    pub undo_stack: Vec<EditSnapshot>,
    pub redo_stack: Vec<EditSnapshot>,
    pub theme_name: String,
    pub cursor_style: CursorStyle,
    pub boxed_chrome: bool,
    pub theme_swatch_style: ThemeSwatchStyle,
    pub theme_swatch_spacing: usize,
    pub allow_remote_images: bool,
    pub active_leader_mode: Option<LeaderMode>,
    pub theme_picker_mode: bool,
    pub theme_picker_index: usize,
}

/// Most snapshots the undo history keeps.
pub const UNDO_LIMIT: usize = 200;

/// The text of a fresh, untitled document.
pub open spec fn default_content_spec() -> Seq<char> {
    "# Welcome to md-editor-rust\n\nA Rust/Ratatui parity port of md-editor.\n\n## Getting Started\n\n- Starts in preview mode\n- Ctrl+X then e to edit\n- Ctrl+X then p for preview\n- Ctrl+X then f for files\n- Ctrl+X then h for help"@
}

/// The text of a fresh, untitled document.
pub fn default_content() -> (r: String)
    ensures
        r@ == default_content_spec(),
{
    String::from_str(
        "# Welcome to md-editor-rust\n\nA Rust/Ratatui parity port of md-editor.\n\n## Getting Started\n\n- Starts in preview mode\n- Ctrl+X then e to edit\n- Ctrl+X then p for preview\n- Ctrl+X then f for files\n- Ctrl+X then h for help",
    )
}

/// The snapshot of the document and cursor of `a`.
pub open spec fn snap_of(a: App) -> SnapshotView {
    SnapshotView {
        content: a.content@,
        cursor_line: a.cursor_line,
        cursor_col: a.cursor_col,
        scroll: a.scroll,
        preview_scroll: a.preview_scroll,
    }
}

/// Everything but the document, cursor, scroll positions, modified flag,
/// history and status is the same in `a` and `b`.
pub open spec fn same_settings(a: App, b: App) -> bool {
    &&& a.file_path == b.file_path
    &&& a.mode == b.mode
    &&& a.focus == b.focus
    &&& a.sidebar_visible == b.sidebar_visible
    &&& a.sidebar_collapsed == b.sidebar_collapsed
    &&& a.sidebar_files == b.sidebar_files
    &&& a.show_help == b.show_help
    &&& a.leader == b.leader
    &&& a.should_quit == b.should_quit
    &&& a.file_browser_cwd == b.file_browser_cwd
    &&& a.selected_file == b.selected_file
    &&& a.selected_outline == b.selected_outline
    &&& a.theme_name == b.theme_name
    &&& a.cursor_style == b.cursor_style
    &&& a.boxed_chrome == b.boxed_chrome
    &&& a.theme_swatch_style == b.theme_swatch_style
    &&& a.theme_swatch_spacing == b.theme_swatch_spacing
    &&& a.allow_remote_images == b.allow_remote_images
    &&& a.active_leader_mode == b.active_leader_mode
    &&& a.theme_picker_mode == b.theme_picker_mode
    &&& a.theme_picker_index == b.theme_picker_index
}

/// The undo and redo histories hold at most [`UNDO_LIMIT`] snapshots
/// together.
pub open spec fn history_bounded(a: App) -> bool {
    a.undo_stack@.len() + a.redo_stack@.len() <= UNDO_LIMIT
}

/// The undo history after recording `s`: oldest snapshot dropped past the
/// limit.
pub open spec fn pushed_history(h: Seq<SnapshotView>, s: SnapshotView) -> Seq<SnapshotView> {
    let p = h.push(s);
    if p.len() > UNDO_LIMIT {
        p.drop_first()
    } else {
        p
    }
}

/// What `undo` does: with history, the last snapshot comes back and the
/// state before it goes to the redo history; without, only the status says
/// so.
pub open spec fn undo_post(a: App, b: App) -> bool {
    &&& a.undo_stack@.len() > 0 ==> {
        &&& snap_of(b) == a.undo_stack.deep_view().last()
        &&& b.undo_stack.deep_view() == a.undo_stack.deep_view().drop_last()
        &&& b.redo_stack.deep_view() == a.redo_stack.deep_view().push(snap_of(a))
        &&& b.modified
        &&& b.status@ == "Undo"@
    }
    &&& a.undo_stack@.len() == 0 ==> {
        &&& snap_of(b) == snap_of(a)
        &&& b.undo_stack@ == a.undo_stack@
        &&& b.redo_stack@ == a.redo_stack@
        &&& b.modified == a.modified
        &&& b.status@ == "Nothing to undo"@
    }
    &&& same_settings(a, b)
}

/// What `redo` does: with undone snapshots, the last one comes back and the
/// state before it goes to the undo history; without, only the status says
/// so.
pub open spec fn redo_post(a: App, b: App) -> bool {
    &&& a.redo_stack@.len() > 0 ==> {
        &&& snap_of(b) == a.redo_stack.deep_view().last()
        &&& b.redo_stack.deep_view() == a.redo_stack.deep_view().drop_last()
        &&& b.undo_stack.deep_view() == a.undo_stack.deep_view().push(snap_of(a))
        &&& b.modified
        &&& b.status@ == "Redo"@
    }
    &&& a.redo_stack@.len() == 0 ==> {
        &&& snap_of(b) == snap_of(a)
        &&& b.undo_stack@ == a.undo_stack@
        &&& b.redo_stack@ == a.redo_stack@
        &&& b.modified == a.modified
        &&& b.status@ == "Nothing to redo"@
    }
    &&& same_settings(a, b)
}

/// An edit recorded the state `a` it started from in the history of `b`
/// and emptied the redo history.
pub open spec fn recorded_edit(a: App, b: App) -> bool {
    &&& b.undo_stack.deep_view() == pushed_history(a.undo_stack.deep_view(), snap_of(a))
    &&& b.redo_stack@.len() == 0
}

/// What every edit does besides changing the document and cursor: the
/// views stay, the document is modified, the state before the edit is
/// recorded for undo and the redo history is emptied.
pub open spec fn edit_common(a: App, b: App) -> bool {
    &&& b.scroll == a.scroll
    &&& b.preview_scroll == a.preview_scroll
    &&& b.modified
    &&& b.undo_stack.deep_view() == pushed_history(a.undo_stack.deep_view(), snap_of(a))
    &&& b.redo_stack@.len() == 0
    &&& b.status == a.status
    &&& same_settings(a, b)
}

/// What `insert_char` does.
pub open spec fn insert_char_post(a: App, b: App, ch: char) -> bool {
    &&& b.content@ == insert_char_spec(a.content@, a.cursor_line, a.cursor_col, ch)
    &&& b.cursor_line == a.cursor_line
    &&& b.cursor_col == a.cursor_col + 1
    &&& edit_common(a, b)
}

/// What `newline` does.
pub open spec fn newline_post(a: App, b: App) -> bool {
    &&& b.content@ == newline_spec(a.content@, a.cursor_line, a.cursor_col)
    &&& b.cursor_line == line_index(a.content@, a.cursor_line) + 1
    &&& b.cursor_col == 0
    &&& edit_common(a, b)
}

/// What `backspace` does.
pub open spec fn backspace_post(a: App, b: App) -> bool {
    let i = line_index(a.content@, a.cursor_line);
    &&& b.content@ == backspace_spec(a.content@, a.cursor_line, a.cursor_col)
    &&& a.cursor_col > 0 ==> b.cursor_line == a.cursor_line && b.cursor_col == a.cursor_col - 1
    &&& a.cursor_col == 0 && i > 0 ==> b.cursor_line == i - 1 && b.cursor_col == lines_of(
        a.content@,
    )[i - 1].len()
    &&& a.cursor_col == 0 && i == 0 ==> b.cursor_line == a.cursor_line && b.cursor_col == 0
    &&& edit_common(a, b)
}

/// What `delete_forward` does.
pub open spec fn delete_forward_post(a: App, b: App) -> bool {
    &&& b.content@ == delete_forward_spec(a.content@, a.cursor_line, a.cursor_col)
    &&& b.cursor_line == a.cursor_line
    &&& b.cursor_col == a.cursor_col
    &&& edit_common(a, b)
}

/// `line` with `ch` inserted at index `p`.
fn with_char(line: &[char], p: usize, ch: char) -> (r: Vec<char>)
    requires
        p <= line.len(),
    ensures
        r@ == line@.take(p as int).push(ch) + line@.skip(p as int),
{
    let mut nl = copy_range(line, 0, p);
    nl.push(ch);
    let rest = copy_range(line, p, line.len());
    let mut k: usize = 0;
    let ghost head = nl@;
    while k < rest.len()
        invariant
            k <= rest.len(),
            nl@ == head + rest@.take(k as int),
        decreases rest.len() - k,
    {
        nl.push(rest[k]);
        assert(rest@.take(k + 1) =~= rest@.take(k as int).push(rest@[k as int]));
        assert(nl@ =~= head + rest@.take(k + 1));
        k += 1;
    }
    assert(rest@.take(rest.len() as int) == rest@);
    assert(nl@ =~= line@.take(p as int).push(ch) + line@.skip(p as int));
    nl
}

/// The lines of a text.
pub open spec fn lines_of(content: Seq<char>) -> Seq<Seq<char>> {
    split(content, '\n')
}

/// The line the cursor is on, clamped to the last line.
pub open spec fn line_index(content: Seq<char>, cursor_line: usize) -> int {
    let n = lines_of(content).len() as int;
    if (cursor_line as int) < n - 1 {
        cursor_line as int
    } else {
        n - 1
    }
}

/// The character index a column stands for in a line, clamped to its end.
pub open spec fn char_pos(line: Seq<char>, col: usize) -> int {
    if (col as int) < line.len() {
        col as int
    } else {
        line.len() as int
    }
}

/// The text with `ch` inserted at the cursor.
pub open spec fn insert_char_spec(content: Seq<char>, cl: usize, cc: usize, ch: char) -> Seq<char> {
    let ls = lines_of(content);
    let i = line_index(content, cl);
    let l = ls[i];
    let p = char_pos(l, cc);
    join(ls.update(i, l.take(p).push(ch) + l.skip(p)), '\n')
}

/// The text with the cursor line broken in two at the cursor.
pub open spec fn newline_spec(content: Seq<char>, cl: usize, cc: usize) -> Seq<char> {
    let ls = lines_of(content);
    let i = line_index(content, cl);
    let l = ls[i];
    let p = char_pos(l, cc);
    join(ls.update(i, l.take(p)).insert(i + 1, l.skip(p)), '\n')
}

/// The text after deleting backward at the cursor: the character before the
/// cursor, or at column zero the break before the cursor line.
pub open spec fn backspace_spec(content: Seq<char>, cl: usize, cc: usize) -> Seq<char> {
    let ls = lines_of(content);
    let i = line_index(content, cl);
    let l = ls[i];
    let p = char_pos(l, cc);
    if cc > 0 {
        if p > 0 {
            join(ls.update(i, l.take(p - 1) + l.skip(p)), '\n')
        } else {
            content
        }
    } else if i > 0 {
        join(ls.update(i - 1, ls[i - 1] + l).remove(i), '\n')
    } else {
        content
    }
}

/// The text after deleting forward at the cursor: the character under the
/// cursor, or at the end of a line the break after it.
pub open spec fn delete_forward_spec(content: Seq<char>, cl: usize, cc: usize) -> Seq<char> {
    let ls = lines_of(content);
    let i = line_index(content, cl);
    let l = ls[i];
    let p = char_pos(l, cc);
    if p < l.len() {
        join(ls.update(i, l.take(p) + l.skip(p + 1)), '\n')
    } else if i + 1 < ls.len() {
        join(ls.update(i, l + ls[i + 1]).remove(i + 1), '\n')
    } else {
        content
    }
}

/// The lines after deleting backward at line `idx`, column `col`, and the
/// cursor after it.
fn backspace_lines(lines: &mut Vec<Vec<char>>, idx: usize, line: usize, col: usize) -> (r: (
    usize,
    usize,
))
    requires
        idx < old(lines).len(),
    ensures
        ({
            let ls = old(lines).deep_view();
            let l = ls[idx as int];
            let p = char_pos(l, col);
            &&& col > 0 ==> r == (line, (col - 1) as usize)
            &&& col > 0 && p > 0 ==> final(lines).deep_view() == ls.update(
                idx as int,
                l.take(p - 1) + l.skip(p),
            )
            &&& col > 0 && p == 0 ==> final(lines).deep_view() == ls
            &&& col == 0 && idx > 0 ==> final(lines).deep_view() == ls.update(
                idx - 1,
                ls[idx - 1] + l,
            ).remove(idx as int) && r.0 == idx - 1 && r.1 == ls[idx - 1].len()
            &&& col == 0 && idx == 0 ==> final(lines).deep_view() == ls && r == (line, 0usize)
        }),
{
    let ghost ls = lines.deep_view();
    let line_chars = lines[idx].as_slice();
    let ghost l = line_chars@;
    assert(l == ls[idx as int]);
    let p = if col < line_chars.len() {
        col
    } else {
        line_chars.len()
    };
    if col > 0 {
        if p > 0 {
            let a = copy_range(line_chars, 0, p - 1);
            let b = copy_range(line_chars, p, line_chars.len());
            let nl = concat(a.as_slice(), b.as_slice());
            assert(nl@ == l.take(p - 1) + l.skip(p as int));
            let ghost nlv = nl@;
            assert(nl.deep_view() =~= nlv);
            lines.set(idx, nl);
            assert(lines.deep_view() =~= ls.update(idx as int, nlv));
        }
        (line, col - 1)
    } else if idx > 0 {
        let prev = lines[idx - 1].as_slice();
        assert(prev@ == ls[idx - 1]);
        let prev_len = prev.len();
        let merged = concat(prev, line_chars);
        let ghost mv = merged@;
        assert(merged.deep_view() =~= mv);
        lines.set(idx - 1, merged);
        assert(lines.deep_view() =~= ls.update(idx - 1, mv));
        let ghost mid = lines.deep_view();
        lines.remove(idx);
        assert(lines.deep_view() =~= mid.remove(idx as int));
        (idx - 1, prev_len)
    } else {
        (line, 0)
    }
}

/// Number of words: maximal runs of non-white-space characters.
pub open spec fn word_count(s: Seq<char>) -> nat
    decreases s.len(),
{
    if s.len() == 0 {
        0
    } else {
        word_count(s.drop_last()) + if !is_ws(s.last()) && (s.len() == 1 || is_ws(
            s[s.len() - 2],
        )) {
            1nat
        } else {
            0nat
        }
    }
}

fn words_in(s: &[char]) -> (n: usize)
    ensures
        n == word_count(s@),
{
    let mut n: usize = 0;
    let mut i: usize = 0;
    while i < s.len()
        invariant
            i <= s.len(),
            n <= i,
            n == word_count(s@.take(i as int)),
        decreases s.len() - i,
    {
        assert(s@.take(i + 1).drop_last() == s@.take(i as int));
        if !is_whitespace(s[i]) && (i == 0 || is_whitespace(s[i - 1])) {
            n += 1;
        }
        i += 1;
    }
    assert(s@.take(s.len() as int) == s@);
    n
}

impl App {
    /// A fresh editor on the welcome text, browsing `cwd`.
    pub fn new(cwd: String) -> (r: App)
        ensures
            r.content@ == default_content_spec(),
            r.file_path is None,
            !r.modified,
            r.mode == ViewMode::Preview,
            r.focus == FocusPane::Editor,
            r.cursor_line == 0 && r.cursor_col == 0 && r.scroll == 0 && r.preview_scroll == 0,
            r.sidebar_visible && !r.sidebar_collapsed && !r.sidebar_files,
            !r.show_help && !r.leader && !r.should_quit,
            r.status@ == "Markdown viewer: Ctrl+X for commands"@,
            r.file_browser_cwd == cwd,
            r.selected_file == 0 && r.selected_outline == 0,
            r.undo_stack@.len() == 0 && r.redo_stack@.len() == 0,
            r.theme_name@ == "slate"@,
            r.cursor_style == CursorStyle::Block,
            r.boxed_chrome,
            r.theme_swatch_style == ThemeSwatchStyle::Square,
            r.theme_swatch_spacing == 0,
            !r.allow_remote_images,
            r.active_leader_mode is None,
            !r.theme_picker_mode,
            r.theme_picker_index == 0,
    {
        App {
            content: default_content(),
            file_path: None,
            modified: false,
            mode: ViewMode::Preview,
            focus: FocusPane::Editor,
            cursor_line: 0,
            cursor_col: 0,
            scroll: 0,
            preview_scroll: 0,
            sidebar_visible: true,
            sidebar_collapsed: false,
            sidebar_files: false,
            show_help: false,
            leader: false,
            status: String::from_str("Markdown viewer: Ctrl+X for commands"),
            should_quit: false,
            file_browser_cwd: cwd,
            selected_file: 0,
            selected_outline: 0,
            undo_stack: Vec::new(),
            redo_stack: Vec::new(),
            theme_name: String::from_str("slate"),
            cursor_style: CursorStyle::Block,
            boxed_chrome: true,
            theme_swatch_style: ThemeSwatchStyle::Square,
            theme_swatch_spacing: 0,
            allow_remote_images: false,
            active_leader_mode: None,
            theme_picker_mode: false,
            theme_picker_index: 0,
        }
    }

    /// The lines of the document.
    pub fn lines(&self) -> (r: Vec<String>)
        ensures
            r.deep_view() == lines_of(self.content@),
    {
        let chars = chars_of(self.content.as_str());
        let ls = split_on(chars.as_slice(), '\n');
        let mut out: Vec<String> = Vec::new();
        let mut i: usize = 0;
        while i < ls.len()
            invariant
                i <= ls.len(),
                ls.deep_view() == lines_of(self.content@),
                out.deep_view() == lines_of(self.content@).take(i as int),
            decreases ls.len() - i,
        {
            let s = string_of(ls[i].as_slice());
            assert(s@ == ls.deep_view()[i as int]);
            let ghost before = out.deep_view();
            let ghost sv = s@;
            out.push(s);
            assert(out.deep_view() =~= before.push(sv));
            assert(lines_of(self.content@).take(i + 1) =~= lines_of(self.content@).take(i as int).push(sv));
            assert(out.deep_view() =~= lines_of(self.content@).take(i + 1));
            i += 1;
        }
        assert(lines_of(self.content@).take(i as int) =~= lines_of(self.content@));
        out
    }

    /// Line, character and word counts of the document.
    pub fn stats(&self) -> (r: DocumentStats)
        requires
            self.content@.len() < usize::MAX,
        ensures
            r.lines == count_char(self.content@, '\n') + 1,
            r.chars == self.content@.len(),
            r.words == word_count(self.content@),
    {
        let chars = chars_of(self.content.as_str());
        let nl = crate::text::count_of(chars.as_slice(), '\n');
        proof {
            crate::text::lemma_count_le(chars@, '\n');
        }
        DocumentStats { lines: nl + 1, chars: chars.len(), words: words_in(chars.as_slice()) }
    }

    fn snapshot(&self) -> (r: EditSnapshot)
        ensures
            r.deep_view() == snap_of(*self),
    {
        EditSnapshot {
            content: self.content.clone(),
            cursor_line: self.cursor_line,
            cursor_col: self.cursor_col,
            scroll: self.scroll,
            preview_scroll: self.preview_scroll,
        }
    }

    fn restore_snapshot(&mut self, snapshot: EditSnapshot)
        ensures
            snap_of(*final(self)) == snapshot.deep_view(),
            final(self).modified,
            same_settings(*old(self), *final(self)),
            final(self).status == old(self).status,
            final(self).undo_stack == old(self).undo_stack,
            final(self).redo_stack == old(self).redo_stack,
    {
        self.content = snapshot.content;
        self.cursor_line = snapshot.cursor_line;
        self.cursor_col = snapshot.cursor_col;
        self.scroll = snapshot.scroll;
        self.preview_scroll = snapshot.preview_scroll;
        self.modified = true;
    }

    fn record_undo(&mut self)
        ensures
            final(self).undo_stack.deep_view() == pushed_history(
                old(self).undo_stack.deep_view(),
                snap_of(*old(self)),
            ),
            final(self).redo_stack@.len() == 0,
            old(self).undo_stack@.len() <= UNDO_LIMIT ==> final(self).undo_stack@.len()
                <= UNDO_LIMIT,
            final(self).content == old(self).content,
            snap_of(*final(self)) == snap_of(*old(self)),
            final(self).modified == old(self).modified,
            final(self).status == old(self).status,
            same_settings(*old(self), *final(self)),
    {
        let s = self.snapshot();
        let ghost h = self.undo_stack.deep_view();
        self.undo_stack.push(s);
        assert(self.undo_stack.deep_view() =~= h.push(snap_of(*old(self))));
        self.redo_stack.clear();
        if self.undo_stack.len() > UNDO_LIMIT {
            let ghost p = self.undo_stack.deep_view();
            self.undo_stack.remove(0);
            assert(self.undo_stack.deep_view() =~= p.drop_first());
        }
    }

    /// Steps back to the last recorded snapshot, keeping the current state
    /// for redo.
    pub fn undo(&mut self)
        ensures
            undo_post(*old(self), *final(self)),
            history_bounded(*old(self)) ==> history_bounded(*final(self)),
    {
        let ghost u = self.undo_stack.deep_view();
        let ghost r = self.redo_stack.deep_view();
        match self.undo_stack.pop() {
            Some(prev) => {
                assert(self.undo_stack.deep_view() =~= u.drop_last());
                assert(prev.deep_view() == u.last());
                let current = self.snapshot();
                self.redo_stack.push(current);
                assert(self.redo_stack.deep_view() =~= r.push(snap_of(*old(self))));
                self.restore_snapshot(prev);
                self.status = String::from_str("Undo");
            },
            None => {
                self.status = String::from_str("Nothing to undo");
            },
        }
    }

    /// Steps forward to the last undone snapshot, keeping the current state
    /// for undo.
    pub fn redo(&mut self)
        ensures
            redo_post(*old(self), *final(self)),
            history_bounded(*old(self)) ==> history_bounded(*final(self)),
    {
        let ghost u = self.undo_stack.deep_view();
        let ghost r = self.redo_stack.deep_view();
        match self.redo_stack.pop() {
            Some(next) => {
                assert(self.redo_stack.deep_view() =~= r.drop_last());
                assert(next.deep_view() == r.last());
                let current = self.snapshot();
                self.undo_stack.push(current);
                assert(self.undo_stack.deep_view() =~= u.push(snap_of(*old(self))));
                self.restore_snapshot(next);
                self.status = String::from_str("Redo");
            },
            None => {
                self.status = String::from_str("Nothing to redo");
            },
        }
    }

    /// The lines of the document, as characters.
    fn current_lines(&self) -> (r: Vec<Vec<char>>)
        ensures
            r.deep_view() == lines_of(self.content@),
            r.len() >= 1,
            all_free_of(lines_of(self.content@), '\n'),
            join(lines_of(self.content@), '\n') == self.content@,
    {
        let chars = chars_of(self.content.as_str());
        proof {
            lemma_join_split(self.content@, '\n');
        }
        split_on(chars.as_slice(), '\n')
    }

    /// Index of the line the cursor is on, clamped to the last line.
    fn clamped_line(&self, n: usize) -> (r: usize)
        requires
            n >= 1,
        ensures
            r < n,
            r == (if (self.cursor_line as int) < n - 1 { self.cursor_line as int } else { n - 1 }),
    {
        if self.cursor_line < n - 1 {
            self.cursor_line
        } else {
            n - 1
        }
    }

    /// Inserts a character at the cursor and moves the cursor past it.
    #[verifier::rlimit(30)]
    pub fn insert_char(&mut self, ch: char)
        requires
            old(self).cursor_col < usize::MAX,
        ensures
            insert_char_post(*old(self), *final(self), ch),
            history_bounded(*old(self)) ==> history_bounded(*final(self)),
    {
        self.record_undo();
        let mut lines = self.current_lines();
        let idx = self.clamped_line(lines.len());
        let line = lines[idx].as_slice();
        let p = if self.cursor_col < line.len() {
            self.cursor_col
        } else {
            line.len()
        };
        let nl = with_char(line, p, ch);
        let ghost l = line@;
        assert(l == lines.deep_view()[idx as int]);
        assert(l == lines_of(old(self).content@)[idx as int]);
        let ghost before = lines.deep_view();
        let ghost nlv = nl@;
        assert(nl.deep_view() =~= nlv);
        assert(idx == line_index(old(self).content@, old(self).cursor_line));
        assert(p == char_pos(l, old(self).cursor_col));
        lines.set(idx, nl);
        assert(lines.deep_view() =~= before.update(idx as int, nlv));
        self.cursor_col = self.cursor_col + 1;
        self.set_lines(&lines);
    }

    /// Replaces the document by the lines joined with line breaks.
    fn set_lines(&mut self, lines: &Vec<Vec<char>>)
        ensures
            final(self).content@ == join(lines.deep_view(), '\n'),
            final(self).modified,
            snap_of(*final(self)).cursor_line == old(self).cursor_line,
            final(self).cursor_col == old(self).cursor_col,
            final(self).scroll == old(self).scroll,
            final(self).preview_scroll == old(self).preview_scroll,
            final(self).undo_stack == old(self).undo_stack,
            final(self).redo_stack == old(self).redo_stack,
            final(self).status == old(self).status,
            same_settings(*old(self), *final(self)),
    {
        let joined = join_pieces(lines, '\n');
        self.content = string_of(joined.as_slice());
        self.modified = true;
    }

    /// Breaks the cursor line at the cursor; the cursor moves to the start
    /// of the new line.
    pub fn newline(&mut self)
        ensures
            newline_post(*old(self), *final(self)),
            history_bounded(*old(self)) ==> history_bounded(*final(self)),
    {
        self.record_undo();
        let mut lines = self.current_lines();
        let idx = self.clamped_line(lines.len());
        let line = lines[idx].as_slice();
        let ghost l = line@;
        assert(l == lines.deep_view()[idx as int]);
        let p = if self.cursor_col < line.len() {
            self.cursor_col
        } else {
            line.len()
        };
        let head = copy_range(line, 0, p);
        let tail = copy_range(line, p, line.len());
        assert(head@ == l.take(p as int));
        assert(tail@ == l.skip(p as int));
        let ghost before = lines.deep_view();
        let ghost hv = head@;
        let ghost tv = tail@;
        assert(head.deep_view() =~= hv);
        assert(tail.deep_view() =~= tv);
        lines.set(idx, head);
        assert(lines.deep_view() =~= before.update(idx as int, hv));
        lines.insert(idx + 1, tail);
        assert(lines.deep_view() =~= before.update(idx as int, hv).insert(idx + 1, tv));
        self.cursor_line = idx + 1;
        self.cursor_col = 0;
        self.set_lines(&lines);
    }

    /// Deletes backward: the character before the cursor, or at column zero
    /// the line break before the cursor line.
    pub fn backspace(&mut self)
        ensures
            backspace_post(*old(self), *final(self)),
            history_bounded(*old(self)) ==> history_bounded(*final(self)),
    {
        self.record_undo();
        let mut lines = self.current_lines();
        let ghost ls = lines.deep_view();
        let idx = self.clamped_line(lines.len());
        assert(idx == line_index(old(self).content@, old(self).cursor_line));
        let (cl, cc) = backspace_lines(&mut lines, idx, self.cursor_line, self.cursor_col);
        self.cursor_line = cl;
        self.cursor_col = cc;
        assert(join(ls, '\n') == old(self).content@);
        self.set_lines(&lines);
    }

    /// Deletes forward: the character under the cursor, or at the end of a
    /// line the line break after it.
    pub fn delete_forward(&mut self)
        ensures
            delete_forward_post(*old(self), *final(self)),
            history_bounded(*old(self)) ==> history_bounded(*final(self)),
    {
        self.record_undo();
        let mut lines = self.current_lines();
        let ghost ls = lines.deep_view();
        let idx = self.clamped_line(lines.len());
        let line = lines[idx].as_slice();
        let ghost l = line@;
        assert(l == ls[idx as int]);
        let p = if self.cursor_col < line.len() {
            self.cursor_col
        } else {
            line.len()
        };
        if p < line.len() {
            let a = copy_range(line, 0, p);
            let b = copy_range(line, p + 1, line.len());
            let nl = concat(a.as_slice(), b.as_slice());
            assert(nl@ == l.take(p as int) + l.skip(p + 1));
            let ghost nlv = nl@;
            assert(nl.deep_view() =~= nlv);
            lines.set(idx, nl);
            assert(lines.deep_view() =~= ls.update(idx as int, nlv));
        } else if idx + 1 < lines.len() {
            let next = lines[idx + 1].as_slice();
            assert(next@ == ls[idx + 1]);
            let merged = concat(line, next);
            let ghost mv = merged@;
            assert(merged.deep_view() =~= mv);
            lines.set(idx, merged);
            assert(lines.deep_view() =~= ls.update(idx as int, mv));
            let ghost mid = lines.deep_view();
            lines.remove(idx + 1);
            assert(lines.deep_view() =~= mid.remove(idx + 1));
        }
        assert(join(ls, '\n') == old(self).content@);
        self.set_lines(&lines);
    }
}


// ---------------------------------------------------------------------
// Cursor, viewport and preview scrolling

/// `x + d`, saturated to the range of `usize`.
pub open spec fn sat_add(x: usize, d: int) -> usize {
    if x + d < 0 {
        0
    } else if x + d > usize::MAX {
        usize::MAX
    } else {
        (x + d) as usize
    }
}

/// `usize::saturating_add_signed`.
pub fn saturating_add_signed(x: usize, d: isize) -> (r: usize)
    ensures
        r == sat_add(x, d as int),
{
    if d >= 0 {
        x.saturating_add(d as usize)
    } else {
        let m: usize = ((-(d + 1)) as usize) + 1;
        x.saturating_sub(m)
    }
}

/// The editor's top line after the cursor moved to `line`: the view follows
/// so that the cursor stays within twelve lines of it.
pub open spec fn follow_cursor(line: usize, scroll: usize) -> usize {
    if line < scroll {
        line
    } else if line >= scroll + 12 {
        (line - 11) as usize
    } else {
        scroll
    }
}

/// The cursor line after moving by `dl` lines: clamped to the document.
pub open spec fn moved_line(content: Seq<char>, cl: usize, dl: int) -> usize {
    let n = lines_of(content).len() as int;
    let t = sat_add(cl, dl);
    if (t as int) < n - 1 {
        t
    } else {
        (n - 1) as usize
    }
}

/// The cursor column after moving by `dc`: clamped to the display width of
/// the target line.
pub open spec fn moved_col(content: Seq<char>, line: usize, cc: usize, dc: int) -> usize {
    let w = unicode_str_width(lines_of(content)[line as int]);
    let t = sat_add(cc, dc);
    if t < w {
        t
    } else {
        w
    }
}

/// What `move_cursor` does.
pub open spec fn move_cursor_post(a: App, b: App, dl: int, dc: int) -> bool {
    let line = moved_line(a.content@, a.cursor_line, dl);
    b == App {
        cursor_line: line,
        cursor_col: moved_col(a.content@, line, a.cursor_col, dc),
        scroll: follow_cursor(line, a.scroll),
        ..a
    }
}

/// The last line the preview may start at.
pub open spec fn max_preview_scroll_spec(content: Seq<char>) -> usize {
    (lines_of(content).len() - 1) as usize
}

/// What `move_page` does: ten lines per page, the view put two lines
/// above the cursor going down and at the cursor going up.
pub open spec fn move_page_post(a: App, b: App, delta: int) -> bool {
    let line = moved_line(a.content@, a.cursor_line, delta * 10);
    b == App {
        cursor_line: line,
        cursor_col: moved_col(a.content@, line, a.cursor_col, 0),
        scroll: if delta > 0 {
            if line >= 2 {
                (line - 2) as usize
            } else {
                0
            }
        } else {
            line
        },
        ..a
    }
}

/// What `line_end` does.
pub open spec fn line_end_post(a: App, b: App) -> bool {
    b == App {
        cursor_col: if (a.cursor_line as int) < lines_of(a.content@).len() {
            unicode_str_width(lines_of(a.content@)[a.cursor_line as int])
        } else {
            0
        },
        ..a
    }
}

/// What `scroll_preview` does: it moves within the document.
pub open spec fn scroll_preview_post(a: App, b: App, delta: int) -> bool {
    let t = sat_add(a.preview_scroll, delta);
    let m = max_preview_scroll_spec(a.content@);
    b == App {
        preview_scroll: if t < m {
            t
        } else {
            m
        },
        ..a
    }
}

/// What `preview_end` does.
pub open spec fn preview_end_post(a: App, b: App) -> bool {
    b == App { preview_scroll: max_preview_scroll_spec(a.content@), ..a }
}

impl App {
    /// The number of lines of the document.
    fn line_count(&self) -> (r: usize)
        ensures
            r == lines_of(self.content@).len(),
            r >= 1,
    {
        let lines = self.current_lines();
        lines.len()
    }

    /// The display width of a line, zero past the last line.
    fn line_width(&self, i: usize) -> (r: usize)
        ensures
            r == (if (i as int) < lines_of(self.content@).len() {
                unicode_str_width(lines_of(self.content@)[i as int])
            } else {
                0
            }),
    {
        let lines = self.current_lines();
        if i < lines.len() {
            let text = string_of(lines[i].as_slice());
            assert(text@ == lines_of(self.content@)[i as int]);
            str_width(text.as_str())
        } else {
            0
        }
    }

    /// Keeps the cursor within twelve lines below the editor's top line.
    fn keep_cursor_near_viewport(&mut self)
        ensures
            (*final(self) == App { scroll: follow_cursor(old(self).cursor_line, old(self).scroll), ..*old(self) }),
    {
        if self.cursor_line < self.scroll {
            self.scroll = self.cursor_line;
        } else if self.cursor_line - self.scroll >= 12 {
            self.scroll = self.cursor_line - 11;
        }
    }

    /// Moves the cursor by lines and columns, clamped to the document and to
    /// the display width of the line, and lets the view follow.
    pub fn move_cursor(&mut self, line_delta: isize, col_delta: isize)
        ensures
            move_cursor_post(*old(self), *final(self), line_delta as int, col_delta as int),
    {
        let n = self.line_count();
        let t = saturating_add_signed(self.cursor_line, line_delta);
        let next_line = if t < n - 1 {
            t
        } else {
            n - 1
        };
        let max_col = self.line_width(next_line);
        let c = saturating_add_signed(self.cursor_col, col_delta);
        let next_col = if c < max_col {
            c
        } else {
            max_col
        };
        self.cursor_line = next_line;
        self.cursor_col = next_col;
        self.keep_cursor_near_viewport();
    }

    /// Moves the cursor ten lines per page and puts the view near it.
    pub fn move_page(&mut self, delta: isize)
        requires
            -(isize::MAX / 10) <= delta <= isize::MAX / 10,
        ensures
            move_page_post(*old(self), *final(self), delta as int),
    {
        self.move_cursor(delta * 10, 0);
        if delta > 0 {
            self.scroll = self.cursor_line.saturating_sub(2);
        } else {
            self.scroll = self.cursor_line;
        }
    }

    /// Moves the cursor to the start of its line.
    pub fn line_home(&mut self)
        ensures
            (*final(self) == App { cursor_col: 0, ..*old(self) }),
    {
        self.cursor_col = 0;
    }

    /// Moves the cursor to the end of its line (its display width; zero past
    /// the last line).
    pub fn line_end(&mut self)
        ensures
            line_end_post(*old(self), *final(self)),
    {
        let max_col = self.line_width(self.cursor_line);
        self.cursor_col = max_col;
    }

    /// The last line the preview may start at.
    pub fn max_preview_scroll(&self) -> (r: usize)
        ensures
            r == max_preview_scroll_spec(self.content@),
    {
        self.line_count() - 1
    }

    /// Scrolls the preview by lines, within the document.
    pub fn scroll_preview(&mut self, delta: isize)
        ensures
            scroll_preview_post(*old(self), *final(self), delta as int),
    {
        let t = saturating_add_signed(self.preview_scroll, delta);
        let m = self.max_preview_scroll();
        self.preview_scroll = if t < m {
            t
        } else {
            m
        };
    }

    /// Scrolls the preview to its top.
    pub fn preview_home(&mut self)
        ensures
            (*final(self) == App { preview_scroll: 0, ..*old(self) }),
    {
        self.preview_scroll = 0;
    }

    /// Scrolls the preview to its last line.
    pub fn preview_end(&mut self)
        ensures
            preview_end_post(*old(self), *final(self)),
    {
        self.preview_scroll = self.max_preview_scroll();
    }

    /// The headings of the document.
    pub fn outline(&self) -> (r: Vec<OutlineItem>)
        ensures
            r.deep_view() == outline_spec(self.content@),
    {
        outline(self.content.as_str())
    }
}

// ---------------------------------------------------------------------
// Modes, panes, themes and settings

/// The themes the picker offers, in order.
pub open spec fn theme_names() -> Seq<Seq<char>> {
    seq!["slate"@, "tokyo-night"@]
}

/// Number of themes the picker offers.
pub const THEME_COUNT: usize = 2;

/// The themes the picker offers, in order.
pub fn theme_options() -> (r: Vec<String>)
    ensures
        r.deep_view() == theme_names(),
{
    let mut r: Vec<String> = Vec::new();
    r.push(String::from_str("slate"));
    r.push(String::from_str("tokyo-night"));
    assert(r.deep_view() =~= theme_names());
    r
}

/// The picker position of a theme: its index among the options, or the
/// first when it is none of them.
pub open spec fn theme_index_of(name: Seq<char>) -> usize {
    if name == "tokyo-night"@ {
        1
    } else {
        0
    }
}

/// The cursor style that follows a style in the cycle
/// brackets, block, bar, underline, box.
pub open spec fn next_cursor_style(c: CursorStyle) -> CursorStyle {
    match c {
        CursorStyle::Brackets => CursorStyle::Block,
        CursorStyle::Block => CursorStyle::Bar,
        CursorStyle::Bar => CursorStyle::Underline,
        CursorStyle::Underline => CursorStyle::Box,
        CursorStyle::Box => CursorStyle::Brackets,
    }
}

/// The selected outline entry kept within an outline of `n` headings.
pub open spec fn clamp_selection(sel: usize, n: nat) -> usize {
    let last = if n > 0 {
        (n - 1) as int
    } else {
        0
    };
    if sel < last {
        sel
    } else {
        last as usize
    }
}

/// What `enter_leader_mode` does.
pub open spec fn enter_leader_post(a: App, b: App, m: LeaderMode) -> bool {
    match m {
        LeaderMode::Edit => {
            &&& b.status@ == "EDIT mode: type to insert, Esc or q to leave"@
            &&& b == App {
                active_leader_mode: Some(m),
                leader: false,
                mode: ViewMode::Edit,
                focus: FocusPane::Editor,
                status: b.status,
                ..a
            }
        },
        LeaderMode::View => {
            &&& b.status@ == "VIEW mode: o outline, r collapse, t themes, b borders, c cursor"@
            &&& b == App {
                active_leader_mode: Some(m),
                leader: false,
                mode: ViewMode::Preview,
                focus: FocusPane::Editor,
                status: b.status,
                ..a
            }
        },
        LeaderMode::Files => {
            &&& b.status@ == "FILES mode: arrows select, Enter open, Left parent"@
            &&& b == App {
                active_leader_mode: Some(m),
                leader: false,
                sidebar_visible: true,
                sidebar_files: true,
                focus: FocusPane::Files,
                status: b.status,
                ..a
            }
        },
    }
}

/// What `exit_active_leader_mode` does: leaving edit mode returns to the
/// preview, leaving files mode returns to the editor.
pub open spec fn exit_leader_post(a: App, b: App) -> bool {
    &&& b.status@ == "Mode closed"@
    &&& b == App {
        active_leader_mode: None,
        mode: if a.active_leader_mode == Some(LeaderMode::Edit) {
            ViewMode::Preview
        } else {
            a.mode
        },
        focus: if a.active_leader_mode == Some(LeaderMode::Files) {
            FocusPane::Editor
        } else {
            a.focus
        },
        status: b.status,
        ..a
    }
}

/// What `show_outline` does.
pub open spec fn show_outline_post(a: App, b: App) -> bool {
    &&& b.status@ == "Outline focused"@
    &&& b == App {
        sidebar_visible: true,
        sidebar_files: false,
        focus: FocusPane::Outline,
        selected_outline: clamp_selection(a.selected_outline, outline_spec(a.content@).len()),
        status: b.status,
        ..a
    }
}

/// What toggling the sidebar's collapse does.
pub open spec fn toggle_collapse_post(a: App, b: App) -> bool {
    &&& b.status@ == (if !a.sidebar_collapsed {
        "Sidebar: collapsed"@
    } else {
        "Sidebar: expanded"@
    })
    &&& b == App {
        sidebar_collapsed: !a.sidebar_collapsed,
        sidebar_visible: true,
        status: b.status,
        ..a
    }
}

/// What `start_theme_picker` does.
pub open spec fn start_picker_post(a: App, b: App) -> bool {
    &&& b.status@ == "Theme picker: Up/Down choose, Enter apply, Esc close"@
    &&& b == App {
        theme_picker_mode: true,
        theme_picker_index: theme_index_of(a.theme_name@),
        sidebar_visible: true,
        status: b.status,
        ..a
    }
}

/// What `cancel_theme_picker` does.
pub open spec fn cancel_picker_post(a: App, b: App) -> bool {
    &&& b.status@ == "Theme picker closed"@
    &&& b == App { theme_picker_mode: false, status: b.status, ..a }
}

/// What `move_theme_selection` does: the selection moves round the options.
pub open spec fn move_picker_post(a: App, b: App, delta: int) -> bool {
    b == App {
        theme_picker_index: ((a.theme_picker_index + delta) % (THEME_COUNT as int)) as usize,
        ..a
    }
}

/// What `apply_selected_theme_preview` does: the selected theme becomes the
/// current one, the picker stays open.
pub open spec fn apply_picker_post(a: App, b: App) -> bool {
    if a.theme_picker_index < THEME_COUNT {
        let name = theme_names()[a.theme_picker_index as int];
        &&& b.theme_name@ == name
        &&& b.status@ == "Theme preview -> "@ + name
        &&& b == App { theme_name: b.theme_name, status: b.status, ..a }
    } else {
        b == a
    }
}

/// What `toggle_boxed_chrome` does.
pub open spec fn toggle_chrome_post(a: App, b: App) -> bool {
    &&& b.status@ == (if !a.boxed_chrome {
        "Chrome: boxed"@
    } else {
        "Chrome: smooth"@
    })
    &&& b == App { boxed_chrome: !a.boxed_chrome, status: b.status, ..a }
}

/// What `cycle_cursor_style` does.
pub open spec fn cycle_cursor_post(a: App, b: App) -> bool {
    &&& b.status@ == "Cursor: "@ + cursor_style_word(next_cursor_style(a.cursor_style))
    &&& b == App { cursor_style: next_cursor_style(a.cursor_style), status: b.status, ..a }
}

/// What `jump_to_selected_outline` does: the cursor and both views go to
/// the selected heading, two lines of context above it.
pub open spec fn jump_post(a: App, b: App) -> bool {
    let items = outline_spec(a.content@);
    if a.selected_outline < items.len() {
        let item = items[a.selected_outline as int];
        let top = if item.line >= 2 {
            (item.line - 2) as usize
        } else {
            0
        };
        &&& b.status@ == "Jumped to "@ + item.text
        &&& b == App {
            cursor_line: item.line as usize,
            cursor_col: 0,
            scroll: top,
            preview_scroll: top,
            focus: FocusPane::Editor,
            status: b.status,
            ..a
        }
    } else {
        &&& b.status@ == "No heading selected"@
        &&& b == App { status: b.status, ..a }
    }
}

impl App {
    /// Enters a key-driven mode: edit mode switches to editing, view mode
    /// to the preview, files mode focuses the file browser.
    #[verifier::rlimit(40)]
    pub fn enter_leader_mode(&mut self, m: LeaderMode)
        ensures
            enter_leader_post(*old(self), *final(self), m),
    {
        self.active_leader_mode = Some(m);
        self.leader = false;
        match m {
            LeaderMode::Edit => {
                self.mode = ViewMode::Edit;
                self.focus = FocusPane::Editor;
                self.status = String::from_str("EDIT mode: type to insert, Esc or q to leave");
            },
            LeaderMode::View => {
                self.mode = ViewMode::Preview;
                self.focus = FocusPane::Editor;
                self.status = String::from_str(
                    "VIEW mode: o outline, r collapse, t themes, b borders, c cursor",
                );
            },
            LeaderMode::Files => {
                self.sidebar_visible = true;
                self.sidebar_files = true;
                self.focus = FocusPane::Files;
                self.status = String::from_str("FILES mode: arrows select, Enter open, Left parent");
            },
        }
    }

    /// Leaves the key-driven mode.
    #[verifier::rlimit(40)]
    pub fn exit_active_leader_mode(&mut self)
        ensures
            exit_leader_post(*old(self), *final(self)),
    {
        match self.active_leader_mode {
            Some(LeaderMode::Edit) => {
                self.mode = ViewMode::Preview;
            },
            Some(LeaderMode::Files) => {
                self.focus = FocusPane::Editor;
            },
            _ => {},
        }
        self.active_leader_mode = None;
        self.status = String::from_str("Mode closed");
    }

    /// Shows and focuses the outline.
    pub fn show_outline(&mut self)
        ensures
            show_outline_post(*old(self), *final(self)),
    {
        let n = self.outline().len();
        self.sidebar_visible = true;
        self.sidebar_files = false;
        self.focus = FocusPane::Outline;
        let last = if n > 0 {
            n - 1
        } else {
            0
        };
        if self.selected_outline >= last {
            self.selected_outline = last;
        }
        self.status = String::from_str("Outline focused");
    }

    /// Collapses or expands the sidebar, showing it.
    pub fn toggle_sidebar_collapse(&mut self)
        ensures
            toggle_collapse_post(*old(self), *final(self)),
    {
        self.sidebar_collapsed = !self.sidebar_collapsed;
        self.sidebar_visible = true;
        self.status = if self.sidebar_collapsed {
            String::from_str("Sidebar: collapsed")
        } else {
            String::from_str("Sidebar: expanded")
        };
    }

    /// Opens the theme picker on the current theme.
    pub fn start_theme_picker(&mut self)
        ensures
            start_picker_post(*old(self), *final(self)),
    {
        let v = chars_of(self.theme_name.as_str());
        self.theme_picker_index = if chars_are(&v, "tokyo-night") {
            1
        } else {
            0
        };
        self.theme_picker_mode = true;
        self.sidebar_visible = true;
        self.status = String::from_str("Theme picker: Up/Down choose, Enter apply, Esc close");
    }

    /// Closes the theme picker.
    pub fn cancel_theme_picker(&mut self)
        ensures
            cancel_picker_post(*old(self), *final(self)),
    {
        self.theme_picker_mode = false;
        self.status = String::from_str("Theme picker closed");
    }

    /// Moves the picker's selection by `delta`, wrapping round the options.
    pub fn move_theme_selection(&mut self, delta: isize)
        ensures
            move_picker_post(*old(self), *final(self), delta as int),
    {
        let n = THEME_COUNT;
        let i = self.theme_picker_index % n;
        let m: usize = if delta >= 0 {
            (delta as usize) % n
        } else {
            let k = (-(delta + 1)) as usize;
            n - 1 - k % n
        };
        self.theme_picker_index = (i + m) % n;
    }

    /// Makes the selected theme the current one; the picker stays open.
    pub fn apply_selected_theme_preview(&mut self)
        ensures
            apply_picker_post(*old(self), *final(self)),
    {
        let options = theme_options();
        assert(options.deep_view().len() == THEME_COUNT);
        if self.theme_picker_index < options.len() {
            assert(options[self.theme_picker_index as int]@ == theme_names()[
                self.theme_picker_index as int
            ]);
            let name = options[self.theme_picker_index].clone();
            let mut status = String::from_str("Theme preview -> ");
            status.append(name.as_str());
            assert(name@ == theme_names()[old(self).theme_picker_index as int]);
            assert(status@ == "Theme preview -> "@ + name@);
            self.theme_name = name;
            self.status = status;
        }
    }

    /// Switches between boxed and smooth chrome.
    pub fn toggle_boxed_chrome(&mut self)
        ensures
            toggle_chrome_post(*old(self), *final(self)),
    {
        self.boxed_chrome = !self.boxed_chrome;
        self.status = if self.boxed_chrome {
            String::from_str("Chrome: boxed")
        } else {
            String::from_str("Chrome: smooth")
        };
    }

    /// Moves to the next cursor style.
    pub fn cycle_cursor_style(&mut self)
        ensures
            cycle_cursor_post(*old(self), *final(self)),
    {
        let next = match self.cursor_style {
            CursorStyle::Brackets => CursorStyle::Block,
            CursorStyle::Block => CursorStyle::Bar,
            CursorStyle::Bar => CursorStyle::Underline,
            CursorStyle::Underline => CursorStyle::Box,
            CursorStyle::Box => CursorStyle::Brackets,
        };
        self.cursor_style = next;
        let mut status = String::from_str("Cursor: ");
        status.append(next.as_config_str());
        self.status = status;
    }

    /// Moves the cursor and both views to the selected heading.
    pub fn jump_to_selected_outline(&mut self)
        ensures
            jump_post(*old(self), *final(self)),
    {
        let items = self.outline();
        if self.selected_outline >= items.len() {
            self.status = String::from_str("No heading selected");
            return;
        }
        let item = &items[self.selected_outline];
        assert(item.deep_view() == outline_spec(self.content@)[self.selected_outline as int]);
        let line = item.line;
        let top = line.saturating_sub(2);
        self.cursor_line = line;
        self.cursor_col = 0;
        self.scroll = top;
        self.preview_scroll = top;
        self.focus = FocusPane::Editor;
        let mut status = String::from_str("Jumped to ");
        status.append(item.text.as_str());
        self.status = status;
    }
}

// ---------------------------------------------------------------------
// The file browser

/// The value a [`FileEntry`] stands for.
pub struct FileEntryView {
    pub name: Seq<char>,
    pub path: Seq<char>,
    pub is_dir: bool,
}

impl DeepView for FileEntry {
    type V = FileEntryView;

    open spec fn deep_view(&self) -> FileEntryView {
        FileEntryView { name: self.name@, path: self.path@, is_dir: self.is_dir }
    }
}

/// Index of the last `c` in `s[..j]`.
pub open spec fn last_index(s: Seq<char>, c: char, j: int) -> Option<int>
    decreases j,
{
    if j <= 0 {
        None
    } else if s[j - 1] == c {
        Some(j - 1)
    } else {
        last_index(s, c, j - 1)
    }
}

/// A file name with a markdown extension (`md`, `markdown` or `mdx`): the
/// part after its last dot, when something comes before that dot.
pub open spec fn markdown_name(name: Seq<char>) -> bool {
    match last_index(name, '.', name.len() as int) {
        Some(k) => {
            let e = name.skip(k + 1);
            k > 0 && (e == "md"@ || e == "markdown"@ || e == "mdx"@)
        },
        None => false,
    }
}

/// The directories of a listing, named with a trailing slash.
pub open spec fn dir_items(listing: Seq<FileEntryView>) -> Seq<FileEntryView>
    decreases listing.len(),
{
    if listing.len() == 0 {
        seq![]
    } else {
        let e = listing.last();
        let rest = dir_items(listing.drop_last());
        if e.is_dir {
            rest.push(FileEntryView { name: e.name.push('/'), path: e.path, is_dir: true })
        } else {
            rest
        }
    }
}

/// The markdown files of a listing.
pub open spec fn markdown_items(listing: Seq<FileEntryView>) -> Seq<FileEntryView>
    decreases listing.len(),
{
    if listing.len() == 0 {
        seq![]
    } else {
        let e = listing.last();
        let rest = markdown_items(listing.drop_last());
        if !e.is_dir && markdown_name(e.name) {
            rest.push(e)
        } else {
            rest
        }
    }
}

/// Entries in the order of their names.
pub open spec fn sorted_by_name(s: Seq<FileEntryView>) -> bool {
    forall|i: int, j: int| 0 <= i < j < s.len() ==> !lex_lt(s[j].name, s[i].name)
}

/// Index of the first entry at or after `i` named `../`.
pub open spec fn first_up(es: Seq<FileEntryView>, i: int) -> Option<int>
    decreases es.len() - i,
{
    if i < 0 || i >= es.len() {
        None
    } else if es[i].name == "../"@ {
        Some(i)
    } else {
        first_up(es, i + 1)
    }
}

/// The entry that leads to the parent directory.
pub open spec fn up_entry(parent: Seq<char>) -> FileEntryView {
    FileEntryView { name: "../"@, path: parent, is_dir: true }
}

/// What the file browser lists: the parent entry and the directories,
/// sorted by name, then the markdown files, sorted by name.
pub open spec fn entries_spec(
    r: Seq<FileEntryView>,
    parent: Seq<char>,
    listing: Seq<FileEntryView>,
) -> bool {
    let dirs = seq![up_entry(parent)] + dir_items(listing);
    let files = markdown_items(listing);
    &&& r.len() == dirs.len() + files.len()
    &&& sorted_by_name(r.take(dirs.len() as int))
    &&& r.take(dirs.len() as int).to_multiset() == dirs.to_multiset()
    &&& sorted_by_name(r.skip(dirs.len() as int))
    &&& r.skip(dirs.len() as int).to_multiset() == files.to_multiset()
}

/// What `open_selected_file` does; `r` is the file to read, if any.
pub open spec fn open_selected_post(a: App, b: App, es: Seq<FileEntryView>, r: Option<String>) -> bool {
    if a.selected_file < es.len() {
        let e = es[a.selected_file as int];
        if e.is_dir {
            &&& r is None
            &&& b.file_browser_cwd@ == e.path
            &&& b == App { file_browser_cwd: b.file_browser_cwd, selected_file: 0, ..a }
        } else {
            &&& r matches Some(p) && p@ == e.path
            &&& b == a
        }
    } else {
        r is None && b == a
    }
}

/// What `file_browser_parent` does.
pub open spec fn parent_post(a: App, b: App, es: Seq<FileEntryView>) -> bool {
    match first_up(es, 0) {
        Some(k) => {
            &&& b.file_browser_cwd@ == es[k].path
            &&& b == App { file_browser_cwd: b.file_browser_cwd, selected_file: 0, ..a }
        },
        None => b == a,
    }
}

/// What `save` does; `r` is the file to write, if any.
pub open spec fn save_request_post(a: App, b: App, r: Option<String>) -> bool {
    match a.file_path {
        Some(p) => r == Some(p) && b == a,
        None => {
            &&& r is None
            &&& b.status@ == "No file path; save skipped"@
            &&& b == App { status: b.status, ..a }
        },
    }
}

fn copy_entry(e: &FileEntry) -> (r: FileEntry)
    ensures
        r.deep_view() == e.deep_view(),
{
    FileEntry { name: e.name.clone(), path: e.path.clone(), is_dir: e.is_dir }
}

/// Whether a file name has a markdown extension.
pub fn is_markdown_name(name: &str) -> (b: bool)
    ensures
        b == markdown_name(name@),
{
    let v = chars_of(name);
    let mut j = v.len();
    while j > 0 && v[j - 1] != '.'
        invariant
            j <= v.len(),
            last_index(v@, '.', j as int) == last_index(v@, '.', v@.len() as int),
        decreases j,
    {
        j -= 1;
    }
    if j <= 1 {
        return false;
    }
    let e = copy_range(&v, j, v.len());
    assert(e@ == v@.skip(j as int));
    chars_are(&e, "md") || chars_are(&e, "markdown") || chars_are(&e, "mdx")
}

/// Entries sorted by name, keeping the order of equal names.
fn sort_by_name(v: Vec<FileEntry>) -> (r: Vec<FileEntry>)
    ensures
        sorted_by_name(r.deep_view()),
        r.deep_view().to_multiset() == v.deep_view().to_multiset(),
{
    broadcast use vstd::seq_lib::group_to_multiset_ensures;

    let ghost vv = v.deep_view();
    let mut out: Vec<FileEntry> = Vec::new();
    let mut i: usize = 0;
    while i < v.len()
        invariant
            i <= v.len(),
            vv == v.deep_view(),
            sorted_by_name(out.deep_view()),
            out.deep_view().to_multiset() == vv.take(i as int).to_multiset(),
        decreases v.len() - i,
    {
        let x = copy_entry(&v[i]);
        let ghost xv = x.deep_view();
        assert(xv == vv[i as int]);
        let xn = chars_of(x.name.as_str());
        let mut p: usize = 0;
        while p < out.len() && !lex_less(&xn, &chars_of(out[p].name.as_str()))
            invariant
                p <= out.len(),
                xn@ == xv.name,
                forall|k: int| 0 <= k < p ==> !lex_lt(xv.name, #[trigger] out.deep_view()[k].name),
            decreases out.len() - p,
        {
            assert(out.deep_view()[p as int] == out[p as int].deep_view());
            p += 1;
        }
        if p < out.len() {
            assert(out.deep_view()[p as int] == out[p as int].deep_view());
        }
        let ghost ob = out.deep_view();
        out.insert(p, x);
        proof {
            let ov = out.deep_view();
            assert(ov =~= ob.insert(p as int, xv));
            assert forall|a: int, b: int| 0 <= a < b < ov.len() implies !lex_lt(
                ov[b].name,
                ov[a].name,
            ) by {
                if a < p && b == p {
                } else if a == p && b > p {
                    assert(ov[b] == ob[b - 1]);
                    if lex_lt(ov[b].name, xv.name) {
                        lemma_lex_transitive(ob[b - 1].name, xv.name, ob[p as int].name);
                        if b - 1 == p {
                            lemma_lex_irreflexive(ob[p as int].name);
                        }
                    }
                } else if b < p {
                } else if a < p && b > p {
                    assert(ov[b] == ob[b - 1]);
                } else {
                    assert(ov[a] == ob[a - 1]);
                    assert(ov[b] == ob[b - 1]);
                }
            }
            assert(ov.remove(p as int) =~= ob);
            assert(ov[p as int] == xv);
            ov.to_multiset_ensures();
            ob.to_multiset_ensures();
            vv.take(i as int).to_multiset_ensures();
            assert(ob.to_multiset() =~= ov.to_multiset().remove(xv));
            assert(ov.contains(xv));
            assert(vv.take(i + 1) =~= vv.take(i as int).push(xv));
            assert(ov.to_multiset().count(xv) > 0);
            assert(ov.to_multiset() =~= ob.to_multiset().insert(xv));
        }
        i += 1;
    }
    assert(vv.take(v.len() as int) =~= vv);
    out
}

impl App {
    /// What the file browser lists for a directory: the entry `../` for
    /// `parent` and the subdirectories (named with a trailing slash),
    /// sorted by name, then the markdown files, sorted by name. `listing`
    /// holds the directory's entries as the file system gives them.
    pub fn file_entries(&self, parent: String, listing: &Vec<FileEntry>) -> (r: Vec<FileEntry>)
        ensures
            entries_spec(r.deep_view(), parent@, listing.deep_view()),
    {
        broadcast use vstd::seq_lib::group_to_multiset_ensures;

        let ghost lv = listing.deep_view();
        let mut dirs: Vec<FileEntry> = Vec::new();
        let mut files: Vec<FileEntry> = Vec::new();
        let up = FileEntry { name: String::from_str("../"), path: parent, is_dir: true };
        let ghost upv = up.deep_view();
        dirs.push(up);
        let ghost d0 = dirs.deep_view();
        assert(d0 =~= seq![upv]);
        let mut i: usize = 0;
        while i < listing.len()
            invariant
                i <= listing.len(),
                lv == listing.deep_view(),
                dirs.deep_view() == seq![upv] + dir_items(lv.take(i as int)),
                files.deep_view() == markdown_items(lv.take(i as int)),
            decreases listing.len() - i,
        {
            let e = &listing[i];
            proof {
                assert(lv.take(i + 1).drop_last() =~= lv.take(i as int));
                assert(lv.take(i + 1).last() == lv[i as int]);
                assert(lv[i as int] == e.deep_view());
            }
            if e.is_dir {
                let mut name = e.name.clone();
                push_char(&mut name, '/');
                let d = FileEntry { name, path: e.path.clone(), is_dir: true };
                let ghost before = dirs.deep_view();
                let ghost dv = d.deep_view();
                assert(dv.name =~= e.name@.push('/'));
                dirs.push(d);
                assert(dirs.deep_view() =~= before.push(dv));
            } else if is_markdown_name(e.name.as_str()) {
                let f = copy_entry(e);
                let ghost before = files.deep_view();
                let ghost fv = f.deep_view();
                files.push(f);
                assert(files.deep_view() =~= before.push(fv));
            }
            i += 1;
        }
        assert(lv.take(listing.len() as int) =~= lv);
        let sd = sort_by_name(dirs);
        let sf = sort_by_name(files);
        let ghost sdv = sd.deep_view();
        let ghost sfv = sf.deep_view();
        let mut out = sd;
        let mut k: usize = 0;
        while k < sf.len()
            invariant
                k <= sf.len(),
                sfv == sf.deep_view(),
                out.deep_view() == sdv + sfv.take(k as int),
            decreases sf.len() - k,
        {
            let f = copy_entry(&sf[k]);
            let ghost before = out.deep_view();
            let ghost fv = f.deep_view();
            assert(fv == sfv[k as int]);
            out.push(f);
            assert(out.deep_view() =~= before.push(fv));
            assert(sfv.take(k + 1) =~= sfv.take(k as int).push(fv));
            k += 1;
        }
        proof {
            let ov = out.deep_view();
            sdv.to_multiset_ensures();
            sfv.to_multiset_ensures();
            (seq![upv] + dir_items(lv)).to_multiset_ensures();
            markdown_items(lv).to_multiset_ensures();
            assert(sfv.take(sf.len() as int) =~= sfv);
            assert(ov.take(sdv.len() as int) =~= sdv);
            assert(ov.skip(sdv.len() as int) =~= sfv);
        }
        out
    }

    /// The first `height` entries (one at least).
    pub fn visible_file_entries(&self, entries: &Vec<FileEntry>, height: usize) -> (r: Vec<
        FileEntry,
    >)
        ensures
            r.deep_view() == entries.deep_view().take(
                if height as int > entries.len() {
                    entries.len() as int
                } else if height == 0 {
                    if entries.len() > 0 {
                        1int
                    } else {
                        0int
                    }
                } else {
                    height as int
                },
            ),
    {
        let h = if height > 1 {
            height
        } else {
            1
        };
        let n = if h < entries.len() {
            h
        } else {
            entries.len()
        };
        let mut out: Vec<FileEntry> = Vec::new();
        let mut k: usize = 0;
        while k < n
            invariant
                k <= n <= entries.len(),
                out.deep_view() == entries.deep_view().take(k as int),
            decreases n - k,
        {
            let f = copy_entry(&entries[k]);
            let ghost before = out.deep_view();
            let ghost fv = f.deep_view();
            assert(fv == entries.deep_view()[k as int]);
            out.push(f);
            assert(out.deep_view() =~= before.push(fv));
            assert(entries.deep_view().take(k + 1) =~= entries.deep_view().take(k as int).push(fv));
            k += 1;
        }
        out
    }

    /// Opens the selected entry: a directory becomes the browsed one;
    /// for a file, its path comes back for the caller to read and hand to
    /// [`App::open_file`]. Nothing happens past the end of `entries`.
    pub fn open_selected_file(&mut self, entries: &Vec<FileEntry>) -> (r: Option<String>)
        ensures
            open_selected_post(*old(self), *final(self), entries.deep_view(), r),
    {
        if self.selected_file >= entries.len() {
            return None;
        }
        let e = &entries[self.selected_file];
        assert(e.deep_view() == entries.deep_view()[self.selected_file as int]);
        if e.is_dir {
            self.file_browser_cwd = e.path.clone();
            self.selected_file = 0;
            None
        } else {
            Some(e.path.clone())
        }
    }

    /// Browses the parent directory: the path of the first `../` entry
    /// of `entries`, selection back at the top. Nothing happens when there
    /// is no such entry.
    pub fn file_browser_parent(&mut self, entries: &Vec<FileEntry>)
        ensures
            parent_post(*old(self), *final(self), entries.deep_view()),
    {
        let ghost es = entries.deep_view();
        let mut k: usize = 0;
        while k < entries.len()
            invariant
                k <= entries.len(),
                es == entries.deep_view(),
                first_up(es, k as int) == first_up(es, 0),
                *self == *old(self),
            decreases entries.len() - k,
        {
            assert(es[k as int] == entries[k as int].deep_view());
            let v = chars_of(entries[k].name.as_str());
            if chars_are(&v, "../") {
                assert(first_up(es, k as int) == Some(k as int));
                let p = entries[k].path.clone();
                assert(p@ == es[k as int].path);
                self.file_browser_cwd = p;
                self.selected_file = 0;
                return;
            }
            assert(first_up(es, k as int) == first_up(es, k + 1));
            k += 1;
        }
        assert(first_up(es, k as int) is None);
    }

    /// The document read from `path` is now the one being edited; `parent`
    /// is the directory that holds it, which the file browser shows next.
    pub fn open_file(&mut self, path: String, parent: String, content: String)
        ensures
            ({
                let a = *old(self);
                let b = *final(self);
                &&& b.content@ == content@
                &&& b.file_path == Some(path)
                &&& b.file_browser_cwd@ == parent@
                &&& b.status@ == "Opened "@ + path@
                &&& b.undo_stack@.len() == 0
                &&& b.redo_stack@.len() == 0
                &&& b == App {
                    content: b.content,
                    file_path: b.file_path,
                    file_browser_cwd: b.file_browser_cwd,
                    modified: false,
                    mode: ViewMode::Preview,
                    focus: FocusPane::Editor,
                    cursor_line: 0,
                    cursor_col: 0,
                    scroll: 0,
                    preview_scroll: 0,
                    selected_outline: 0,
                    undo_stack: b.undo_stack,
                    redo_stack: b.redo_stack,
                    status: b.status,
                    ..a
                }
            }),
    {
        let mut status = String::from_str("Opened ");
        status.append(path.as_str());
        self.content = content;
        self.file_path = Some(path);
        self.file_browser_cwd = parent;
        self.modified = false;
        self.mode = ViewMode::Preview;
        self.focus = FocusPane::Editor;
        self.cursor_line = 0;
        self.cursor_col = 0;
        self.scroll = 0;
        self.preview_scroll = 0;
        self.selected_outline = 0;
        self.undo_stack.clear();
        self.redo_stack.clear();
        self.status = status;
    }

    /// Where to save: the document's path, for the caller to write the
    /// content to and then call [`App::saved`]. Without a path nothing is
    /// to be written and the status says so.
    pub fn save(&mut self) -> (r: Option<String>)
        ensures
            save_request_post(*old(self), *final(self), r),
    {
        match &self.file_path {
            Some(p) => Some(p.clone()),
            None => {
                self.status = String::from_str("No file path; save skipped");
                None
            },
        }
    }

    /// The document was written to `path`; with `close_mode` the key-driven
    /// mode the save was asked from ends too.
    pub fn saved(&mut self, path: &str, close_mode: bool)
        ensures
            final(self).status@ == "Saved "@ + path@,
            (*final(self) == App {
                modified: false,
                status: final(self).status,
                active_leader_mode: if close_mode {
                    None
                } else {
                    old(self).active_leader_mode
                },
                ..*old(self)
            }),
    {
        let mut status = String::from_str("Saved ");
        status.append(path);
        self.modified = false;
        self.status = status;
        if close_mode {
            self.active_leader_mode = None;
        }
    }
}

/// The rows of a list of `len` items that a pane of `rows` rows (one at
/// least) shows so that item `selected` stays in view.
pub open spec fn window_start(len: usize, selected: usize, rows: usize) -> int {
    let r = if rows > 1 {
        rows as int
    } else {
        1
    };
    let s = if (selected as int) < r {
        0
    } else {
        selected - r + 1
    };
    let max_start = if len > r {
        len - r
    } else {
        0
    };
    if s < max_start {
        s
    } else {
        max_start
    }
}

/// The items `start..end` of a list of `len` that a pane of `rows` rows
/// shows, keeping item `selected` in view.
pub fn selected_window(len: usize, selected: usize, rows: usize) -> (r: (usize, usize))
    ensures
        r.0 == window_start(len, selected, rows),
        r.1 == (if r.0 + (if rows > 1 { rows as int } else { 1 }) < len {
            r.0 + (if rows > 1 { rows as int } else { 1 })
        } else {
            len as int
        }),
{
    let r = if rows > 1 {
        rows
    } else {
        1
    };
    let s = if selected < r {
        0
    } else {
        selected - r + 1
    };
    let max_start = if len > r {
        len - r
    } else {
        0
    };
    let start = if s < max_start {
        s
    } else {
        max_start
    };
    let end = if r < len - start {
        start + r
    } else {
        len
    };
    (start, end)
}

// ---------------------------------------------------------------------
// Preferences

impl App {
    /// Takes the preferences a configuration sets; the others stay.
    pub fn apply_config(&mut self, c: &AppConfig)
        ensures
            (match c.theme {
                Some(t) => final(self).theme_name@ == t@,
                None => final(self).theme_name == old(self).theme_name,
            }),
            (*final(self) == App {
                theme_name: final(self).theme_name,
                cursor_style: match c.cursor_style {
                    Some(v) => v,
                    None => old(self).cursor_style,
                },
                boxed_chrome: match c.boxed_chrome {
                    Some(v) => v,
                    None => old(self).boxed_chrome,
                },
                theme_swatch_style: match c.theme_swatch_style {
                    Some(v) => v,
                    None => old(self).theme_swatch_style,
                },
                theme_swatch_spacing: match c.theme_swatch_spacing {
                    Some(v) => v,
                    None => old(self).theme_swatch_spacing,
                },
                allow_remote_images: match c.allow_remote_images {
                    Some(v) => v,
                    None => old(self).allow_remote_images,
                },
                ..*old(self)
            }),
    {
        let cs = match c.cursor_style {
            Some(v) => v,
            None => self.cursor_style,
        };
        let bc = match c.boxed_chrome {
            Some(v) => v,
            None => self.boxed_chrome,
        };
        let ss = match c.theme_swatch_style {
            Some(v) => v,
            None => self.theme_swatch_style,
        };
        let sp = match c.theme_swatch_spacing {
            Some(v) => v,
            None => self.theme_swatch_spacing,
        };
        let ri = match c.allow_remote_images {
            Some(v) => v,
            None => self.allow_remote_images,
        };
        self.cursor_style = cs;
        self.boxed_chrome = bc;
        self.theme_swatch_style = ss;
        self.theme_swatch_spacing = sp;
        self.allow_remote_images = ri;
        if let Some(t) = &c.theme {
            self.theme_name = t.clone();
        }
    }
}

// ---------------------------------------------------------------------
// Laws of the edit history

/// Undo right after an edit brings back the document and cursor the edit
/// started from, and keeps the edited state for redo.
pub proof fn law_undo_reverts_edit(before: App, edited: App, undone: App)
    requires
        recorded_edit(before, edited),
        undo_post(edited, undone),
    ensures
        snap_of(undone) == snap_of(before),
        undone.redo_stack.deep_view() == seq![snap_of(edited)],
{
    let h = before.undo_stack.deep_view().push(snap_of(before));
    assert(edited.undo_stack@.len() == edited.undo_stack.deep_view().len());
    if h.len() > UNDO_LIMIT {
        assert(h.drop_first().last() == h.last());
    }
    assert(edited.redo_stack.deep_view() =~= Seq::<SnapshotView>::empty());
    assert(undone.redo_stack.deep_view() =~= seq![snap_of(edited)]);
}

/// An edit records the state it started from as the newest undo step,
/// keeps at most [`UNDO_LIMIT`] steps by dropping the oldest one, and
/// empties the redo history.
pub proof fn law_edit_history_capped(before: App, edited: App)
    requires
        recorded_edit(before, edited),
        before.undo_stack@.len() <= UNDO_LIMIT,
    ensures
        edited.undo_stack@.len() == (if before.undo_stack@.len() < UNDO_LIMIT {
            before.undo_stack@.len() + 1
        } else {
            UNDO_LIMIT as nat
        }),
        edited.undo_stack@.len() <= UNDO_LIMIT,
        edited.undo_stack.deep_view().last() == snap_of(before),
        edited.redo_stack@.len() == 0,
{
    assert(edited.undo_stack@.len() == edited.undo_stack.deep_view().len());
    assert(before.undo_stack@.len() == before.undo_stack.deep_view().len());
    let p = before.undo_stack.deep_view().push(snap_of(before));
    if p.len() > UNDO_LIMIT {
        assert(p.drop_first().last() == p.last());
    }
}

proof fn lemma_words_update(s: Seq<char>, i: int, c: char)
    requires
        0 <= i < s.len(),
        !is_ws(s[i]),
        !is_ws(c),
    ensures
        word_count(s.update(i, c)) == word_count(s),
    decreases s.len(),
{
    let t = s.update(i, c);
    let n = s.len() as int;
    if i < n - 1 {
        assert(t.drop_last() =~= s.drop_last().update(i, c));
        lemma_words_update(s.drop_last(), i, c);
        assert(t.last() == s.last());
        if n >= 2 {
            assert(is_ws(t[n - 2]) == is_ws(s[n - 2]));
        }
    } else {
        assert(t.drop_last() =~= s.drop_last());
        if n >= 2 {
            assert(t[n - 2] == s[n - 2]);
        }
    }
}

proof fn lemma_words_blank(s: Seq<char>)
    requires
        forall|k: int| 0 <= k < s.len() ==> is_ws(#[trigger] s[k]),
    ensures
        word_count(s) == 0,
    decreases s.len(),
{
    if s.len() > 0 {
        assert forall|k: int| 0 <= k < s.drop_last().len() implies is_ws(#[trigger] s.drop_last()[k]) by {
            assert(s.drop_last()[k] == s[k]);
        }
        lemma_words_blank(s.drop_last());
        assert(is_ws(s[s.len() - 1]));
        assert(s.last() == s[s.len() - 1]);
    }
}

proof fn lemma_words_one(s: Seq<char>)
    requires
        s.len() > 0,
        forall|k: int| 0 <= k < s.len() ==> !is_ws(#[trigger] s[k]),
    ensures
        word_count(s) == 1,
    decreases s.len(),
{
    assert(!is_ws(s[s.len() - 1]));
    assert(s.last() == s[s.len() - 1]);
    if s.len() > 1 {
        assert forall|k: int| 0 <= k < s.drop_last().len() implies !is_ws(#[trigger] s.drop_last()[k]) by {
            assert(s.drop_last()[k] == s[k]);
        }
        lemma_words_one(s.drop_last());
        assert(!is_ws(s[s.len() - 2]));
    } else {
        assert(s.drop_last().len() == 0);
        assert(word_count(s.drop_last()) == 0);
    }
}

proof fn lemma_words_concat(a: Seq<char>, w: char, b: Seq<char>)
    requires
        is_ws(w),
    ensures
        word_count(a.push(w) + b) == word_count(a) + word_count(b),
    decreases b.len(),
{
    let x = a.push(w) + b;
    if b.len() == 0 {
        assert(x =~= a.push(w));
        assert(a.push(w).drop_last() =~= a);
    } else {
        lemma_words_concat(a, w, b.drop_last());
        assert(x.drop_last() =~= a.push(w) + b.drop_last());
        assert(x.last() == b.last());
        let n = x.len() as int;
        if b.len() == 1 {
            assert(x[n - 2] == w);
            assert(b.drop_last().len() == 0);
        } else {
            assert(x[n - 2] == b[b.len() - 2]);
        }
    }
}

/// Words are the maximal runs of characters other than white space, as
/// `split_whitespace` finds them: a run of such characters, whatever they
/// are, is one word; white space alone holds none; white space between two
/// texts adds their words; and putting one such character in place of
/// another leaves the count as it is.
pub proof fn law_word_count(s: Seq<char>, a: Seq<char>, b: Seq<char>, w: char, i: int, c: char)
    ensures
        s.len() > 0 && (forall|k: int| 0 <= k < s.len() ==> !is_ws(#[trigger] s[k])) ==> word_count(s) == 1,
        (forall|k: int| 0 <= k < s.len() ==> is_ws(#[trigger] s[k])) ==> word_count(s) == 0,
        is_ws(w) ==> word_count(a.push(w) + b) == word_count(a) + word_count(b),
        0 <= i < s.len() && !is_ws(s[i]) && !is_ws(c) ==> word_count(s.update(i, c)) == word_count(s),
{
    if s.len() > 0 && (forall|k: int| 0 <= k < s.len() ==> !is_ws(#[trigger] s[k])) {
        lemma_words_one(s);
    }
    if forall|k: int| 0 <= k < s.len() ==> is_ws(#[trigger] s[k]) {
        lemma_words_blank(s);
    }
    if is_ws(w) {
        lemma_words_concat(a, w, b);
    }
    if 0 <= i < s.len() && !is_ws(s[i]) && !is_ws(c) {
        lemma_words_update(s, i, c);
    }
}

/// Deleting forward right after typing a character (other than a line
/// break) at a cursor inside its line, the cursor left where it was, gives
/// the document back; at the start of the line too.
pub proof fn law_delete_forward_reverts_insert(content: Seq<char>, cl: usize, cc: usize, ch: char)
    requires
        ch != '\n',
        cc <= lines_of(content)[line_index(content, cl)].len(),
    ensures
        delete_forward_spec(insert_char_spec(content, cl, cc, ch), cl, cc) == content,
{
    let ls = lines_of(content);
    lemma_join_split(content, '\n');
    let i = line_index(content, cl);
    let l = ls[i];
    let p = char_pos(l, cc);
    assert(p == cc);
    let l2 = l.take(p).push(ch) + l.skip(p);
    let ls2 = ls.update(i, l2);
    assert(free_of(l, '\n'));
    assert(free_of(l2, '\n')) by {
        assert forall|k: int| 0 <= k < l2.len() implies #[trigger] l2[k] != '\n' by {
            if k < p {
                assert(l2[k] == l[k]);
            } else if k > p {
                assert(l2[k] == l[k - 1]);
            }
        }
    }
    assert(all_free_of(ls2, '\n')) by {
        assert forall|j: int| 0 <= j < ls2.len() implies free_of(#[trigger] ls2[j], '\n') by {
            if j != i {
                assert(ls2[j] == ls[j]);
            }
        }
    }
    let c2 = join(ls2, '\n');
    assert(c2 == insert_char_spec(content, cl, cc, ch));
    lemma_split_join(ls2, '\n');
    assert(lines_of(c2) == ls2);
    assert(line_index(c2, cl) == i);
    assert(ls2[i] == l2);
    assert(char_pos(l2, cc) == p);
    assert(p < l2.len());
    assert(l2.take(p) + l2.skip(p + 1) =~= l);
    assert(ls2.update(i, l) =~= ls);
}

/// Redo right after an undo brings back the state the undo left.
pub proof fn law_redo_reverts_undo(start: App, undone: App, redone: App)
    requires
        start.undo_stack@.len() > 0,
        undo_post(start, undone),
        redo_post(undone, redone),
    ensures
        snap_of(redone) == snap_of(start),
        redone.undo_stack.deep_view() == start.undo_stack.deep_view(),
        redone.redo_stack.deep_view() == start.redo_stack.deep_view(),
{
    assert(undone.redo_stack@.len() == undone.redo_stack.deep_view().len());
    assert(redone.undo_stack.deep_view() =~= start.undo_stack.deep_view());
    assert(redone.redo_stack.deep_view() =~= start.redo_stack.deep_view());
}


// ---------------------------------------------------------------------
// Laws of editing

/// Deleting backward right after typing a character (other than a line
/// break) gives the document back.
pub proof fn law_backspace_reverts_insert(content: Seq<char>, cl: usize, cc: usize, ch: char)
    requires
        ch != '\n',
        cc < usize::MAX,
    ensures
        backspace_spec(insert_char_spec(content, cl, cc, ch), cl, (cc + 1) as usize) == content,
{
    let ls = lines_of(content);
    lemma_join_split(content, '\n');
    let i = line_index(content, cl);
    let l = ls[i];
    let p = char_pos(l, cc);
    let l2 = l.take(p).push(ch) + l.skip(p);
    let ls2 = ls.update(i, l2);
    assert(free_of(l, '\n'));
    assert(free_of(l2, '\n')) by {
        assert forall|k: int| 0 <= k < l2.len() implies #[trigger] l2[k] != '\n' by {
            if k < p {
                assert(l2[k] == l[k]);
            } else if k > p {
                assert(l2[k] == l[k - 1]);
            }
        }
    }
    assert(all_free_of(ls2, '\n')) by {
        assert forall|j: int| 0 <= j < ls2.len() implies free_of(#[trigger] ls2[j], '\n') by {
            if j != i {
                assert(ls2[j] == ls[j]);
            }
        }
    }
    let c2 = join(ls2, '\n');
    assert(c2 == insert_char_spec(content, cl, cc, ch));
    lemma_split_join(ls2, '\n');
    assert(lines_of(c2) == ls2);
    assert(line_index(c2, cl) == i);
    assert(ls2[i] == l2);
    assert(char_pos(l2, (cc + 1) as usize) == p + 1);
    assert(l2.take(p) + l2.skip(p + 1) =~= l);
    assert(ls2.update(i, l) =~= ls);
}

/// Deleting backward at the start of the line a line break opened gives the
/// document back.
pub proof fn law_backspace_reverts_newline(content: Seq<char>, cl: usize, cc: usize)
    requires
        line_index(content, cl) < usize::MAX,
    ensures
        backspace_spec(
            newline_spec(content, cl, cc),
            (line_index(content, cl) + 1) as usize,
            0,
        ) == content,
{
    let ls = lines_of(content);
    lemma_join_split(content, '\n');
    let i = line_index(content, cl);
    let l = ls[i];
    let p = char_pos(l, cc);
    let head = l.take(p);
    let tail = l.skip(p);
    let ls2 = ls.update(i, head).insert(i + 1, tail);
    assert(free_of(l, '\n'));
    assert(free_of(head, '\n')) by {
        assert forall|k: int| 0 <= k < head.len() implies #[trigger] head[k] != '\n' by {
            assert(head[k] == l[k]);
        }
    }
    assert(free_of(tail, '\n')) by {
        assert forall|k: int| 0 <= k < tail.len() implies #[trigger] tail[k] != '\n' by {
            assert(tail[k] == l[k + p]);
        }
    }
    assert(all_free_of(ls2, '\n')) by {
        assert forall|j: int| 0 <= j < ls2.len() implies free_of(#[trigger] ls2[j], '\n') by {
            if j < i {
                assert(ls2[j] == ls[j]);
            } else if j > i + 1 {
                assert(ls2[j] == ls[j - 1]);
            }
        }
    }
    let c2 = join(ls2, '\n');
    lemma_split_join(ls2, '\n');
    assert(lines_of(c2) == ls2);
    assert(line_index(c2, (i + 1) as usize) == i + 1);
    assert(ls2[i + 1] == tail);
    assert(ls2[i] == head);
    assert(head + tail =~= l);
    assert(ls2.update(i, head + tail).remove(i + 1) =~= ls);
}

// ---------------------------------------------------------------------
// Laws of the settings

/// Moving the theme picker's selection one way and back returns to the
/// theme it started on.
pub proof fn law_picker_move_and_back(a: App, b: App, c: App, delta: int)
    requires
        a.theme_picker_index < THEME_COUNT,
        move_picker_post(a, b, delta),
        move_picker_post(b, c, -delta),
    ensures
        c.theme_picker_index == a.theme_picker_index,
        c == a,
{
    let n = THEME_COUNT as int;
    let i = a.theme_picker_index as int;
    let j = (i + delta) % n;
    assert(0 <= j < n);
    assert((j - delta) % n == i) by {
        vstd::arithmetic::div_mod::lemma_mod_add_multiples_vanish(i, n);
        vstd::arithmetic::div_mod::lemma_fundamental_div_mod(i + delta, n);
        vstd::arithmetic::div_mod::lemma_mod_multiples_vanish((i + delta) / n, i, n);
    }
}

/// Cycling the cursor style five times comes back to the style it started
/// from.
pub proof fn law_cursor_cycle_returns(c: CursorStyle)
    ensures
        next_cursor_style(next_cursor_style(next_cursor_style(next_cursor_style(next_cursor_style(
            c,
        ))))) == c,
{
}

/// Switching the chrome twice gives back the state switched from, its
/// status aside.
pub proof fn law_chrome_toggle_twice(a: App, b: App, c: App)
    requires
        toggle_chrome_post(a, b),
        toggle_chrome_post(b, c),
    ensures
        (c == App { status: c.status, ..a }),
{
}

/// Entering a key-driven mode and leaving it gives back the panes and view
/// it started from, but for the files mode, which leaves the editor
/// focused, and the edit mode, which leaves the preview showing.
pub proof fn law_leader_mode_enter_exit(a: App, b: App, c: App, m: LeaderMode)
    requires
        enter_leader_post(a, b, m),
        exit_leader_post(b, c),
    ensures
        (c.active_leader_mode is None),
        !c.leader,
        m == LeaderMode::Edit ==> c.mode == ViewMode::Preview && c.focus == FocusPane::Editor,
        m == LeaderMode::View ==> c.mode == ViewMode::Preview && c.focus == FocusPane::Editor,
        m == LeaderMode::Files ==> c.mode == a.mode && c.focus == FocusPane::Editor
            && c.sidebar_files,
        c.content == a.content,
        snap_of(c) == snap_of(a),
{
}

} // verus!
