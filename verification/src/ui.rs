//! What the terminal screen shows, computed apart from the drawing: the
//! header's height, the mode badge, the cursor glyph, path shortening and
//! the scroll indicator.
use vstd::prelude::*;
use crate::text::{
    chars_of, string_of, concat, copy_range, dec_str, decimal_chars, spaces, space_chars,
    count_char,
};
use crate::markdown::{outline_spec, OutlineItem, OutlineItemView};
use crate::render::{rep, ImagePlacement, PlacementView};
use crate::app::{
    App, ViewMode, FocusPane, LeaderMode, CursorStyle, char_pos, max_preview_scroll_spec,
    window_start, word_count, FileEntry, FileEntryView, ThemeSwatchStyle, theme_names,
};

verus! {

/// The rows of the header for a screen of `w` by `h` cells: one on short
/// screens, two on wide ones, three on narrow ones, and never more than
/// what eight rows below leave.
pub open spec fn header_height_spec(w: u16, h: u16) -> u16 {
    if h < 14 {
        1
    } else {
        let base: int = if w < 90 {
            3int
        } else {
            2int
        };
        let rows: int = if w < 70 {
            base + 1
        } else {
            base
        };
        let r1 = if rows < 3 {
            rows
        } else {
            3
        };
        let room: int = if h - 8 > 1 {
            h - 8
        } else {
            1int
        };
        (if r1 < room {
            r1
        } else {
            room
        }) as u16
    }
}

/// The rows of the header for a screen of `w` by `h` cells.
pub fn header_height(w: u16, h: u16) -> (r: u16)
    ensures
        r == header_height_spec(w, h),
{
    if h < 14 {
        return 1;
    }
    let mut rows: u16 = if w < 90 {
        3
    } else {
        2
    };
    if w < 70 {
        rows += 1;
    }
    let r1 = if rows < 3 {
        rows
    } else {
        3
    };
    let room = if h - 8 > 1 {
        h - 8
    } else {
        1
    };
    if r1 < room {
        r1
    } else {
        room
    }
}

/// The badge naming what keys do now: the key-driven mode, a pending
/// Ctrl+X, the theme picker, the file browser, or the view.
pub open spec fn mode_label_spec(app: App) -> Seq<char> {
    match app.active_leader_mode {
        Some(LeaderMode::Edit) => "EDIT"@,
        Some(LeaderMode::View) => "VIEW"@,
        Some(LeaderMode::Files) => "FILES"@,
        None => if app.leader {
            "LEADER"@
        } else if app.theme_picker_mode {
            "THEME"@
        } else if app.focus == FocusPane::Files {
            "FILES"@
        } else if app.mode == ViewMode::Preview {
            "PREVIEW"@
        } else {
            "EDIT"@
        },
    }
}

/// The badge naming what keys do now.
pub fn mode_label(app: &App) -> (r: &'static str)
    ensures
        r@ == mode_label_spec(*app),
{
    match app.active_leader_mode {
        Some(LeaderMode::Edit) => "EDIT",
        Some(LeaderMode::View) => "VIEW",
        Some(LeaderMode::Files) => "FILES",
        None => if app.leader {
            "LEADER"
        } else if app.theme_picker_mode {
            "THEME"
        } else if app.focus == FocusPane::Files {
            "FILES"
        } else if app.mode == ViewMode::Preview {
            "PREVIEW"
        } else {
            "EDIT"
        },
    }
}

/// The character under the cursor as the cursor style draws it: behind a
/// bar, underlined, in brackets, or as it is for a block cursor.
pub open spec fn cursor_glyph_spec(style: CursorStyle, ch: Seq<char>) -> Seq<char> {
    match style {
        CursorStyle::Bar => seq!['▏'] + ch,
        CursorStyle::Underline => ch + seq!['\u{332}'],
        CursorStyle::Box => seq!['['] + ch + seq![']'],
        CursorStyle::Brackets => seq!['['] + ch + seq![']'],
        CursorStyle::Block => ch,
    }
}

/// The character under the cursor as the cursor style draws it.
pub fn cursor_glyph(app: &App, ch: &str) -> (r: String)
    ensures
        r@ == cursor_glyph_spec(app.cursor_style, ch@),
{
    let c = chars_of(ch);
    let v = match app.cursor_style {
        CursorStyle::Bar => {
            let bar = vec!['▏'];
            concat(&bar, &c)
        },
        CursorStyle::Underline => {
            let mark = vec!['\u{332}'];
            concat(&c, &mark)
        },
        CursorStyle::Box | CursorStyle::Brackets => {
            let open = vec!['['];
            let close = vec![']'];
            let a = concat(&open, &c);
            concat(&a, &close)
        },
        CursorStyle::Block => c,
    };
    string_of(&v)
}

/// A line split at a character column (its end when the column is past
/// it).
pub fn split_at_char(s: &str, col: usize) -> (r: (String, String))
    ensures
        r.0@ == s@.take(char_pos(s@, col)),
        r.1@ == s@.skip(char_pos(s@, col)),
{
    let c = chars_of(s);
    let p = if col < c.len() {
        col
    } else {
        c.len()
    };
    let a = copy_range(&c, 0, p);
    let b = copy_range(&c, p, c.len());
    (string_of(&a), string_of(&b))
}

/// The longest a path shown in a pane `width` wide may be: twelve less
/// than the width, twelve at least.
pub open spec fn path_room(width: usize) -> int {
    if width > 24 {
        width - 12
    } else {
        12
    }
}

/// A path shortened to fit a pane: as it is when short enough, otherwise
/// an ellipsis and its last characters.
pub open spec fn compact_path_spec(path: Seq<char>, width: usize) -> Seq<char> {
    let m = path_room(width);
    if path.len() <= m {
        path
    } else {
        seq!['…'] + path.skip(path.len() - (m - 1))
    }
}

/// A path shortened to fit a pane `width` wide.
pub fn compact_path(path: &str, width: usize) -> (r: String)
    ensures
        r@ == compact_path_spec(path@, width),
{
    let c = chars_of(path);
    let m = if width > 24 {
        width - 12
    } else {
        12
    };
    if c.len() <= m {
        return string_of(&c);
    }
    let tail = copy_range(&c, c.len() - (m - 1), c.len());
    let dots = vec!['…'];
    let v = concat(&dots, &tail);
    assert(tail@ == path@.skip(path@.len() - (m - 1)));
    string_of(&v)
}

/// How far the view has come: in the preview, the share of the document
/// scrolled past, in percent; in the editor, the top line's number.
pub open spec fn scroll_status_spec(app: App) -> Seq<char> {
    match app.mode {
        ViewMode::Preview => {
            let m = max_preview_scroll_spec(app.content@);
            let max = if m > 1 {
                m as int
            } else {
                1
            };
            let p = app.preview_scroll * 100 / max;
            "Scroll "@ + dec_str(
                if p < 100 {
                    p as nat
                } else {
                    100
                },
            ) + seq!['%']
        },
        ViewMode::Edit => "Top line "@ + dec_str((app.scroll + 1) as nat),
    }
}

/// How far the view has come.
pub fn scroll_status(app: &App) -> (r: String)
    requires
        app.mode == ViewMode::Preview ==> app.preview_scroll * 100 <= usize::MAX,
        app.mode == ViewMode::Edit ==> app.scroll < usize::MAX,
    ensures
        r@ == scroll_status_spec(*app),
{
    match app.mode {
        ViewMode::Preview => {
            let m = app.max_preview_scroll();
            let max = if m > 1 {
                m
            } else {
                1
            };
            let p = (app.preview_scroll * 100) / max;
            let q = if p < 100 {
                p
            } else {
                100
            };
            let mut v = chars_of("Scroll ");
            v = concat(&v, &decimal_chars(q));
            v.push('%');
            string_of(&v)
        },
        ViewMode::Edit => {
            let mut v = chars_of("Top line ");
            v = concat(&v, &decimal_chars(app.scroll + 1));
            string_of(&v)
        },
    }
}

// ---------------------------------------------------------------------
// Layout of the body

/// How the body of the screen is split between the main view and the
/// sidebar: not at all (too small to draw), the main view alone, or main
/// view and sidebar side by side (or stacked when `vertical`), with a one
/// cell separator between them when the chrome is smooth; `side` is the
/// sidebar's height when stacked, its width otherwise.
#[derive(Clone, Copy, Debug, PartialEq, Eq, Structural)]
pub enum BodyLayout {
    Nothing,
    MainOnly,
    Split { vertical: bool, separator: bool, side: u16 },
}

/// `min(max(x, lo), hi)`.
pub open spec fn clamp_between(x: int, lo: int, hi: int) -> int {
    let m = if x > lo {
        x
    } else {
        lo
    };
    if m < hi {
        m
    } else {
        hi
    }
}

/// How a body of `w` by `h` cells is split: the sidebar shows when it is
/// visible and the body is eight rows high or more; below ninety columns
/// it is stacked under the main view, taking two fifths of the height (five
/// rows at least, three rows left to the main view) or three rows when
/// collapsed; otherwise it stands to the right, taking seven twentieths of
/// the width (twenty-eight columns at least, twenty left to the main view)
/// or six columns when collapsed.
pub open spec fn body_layout_spec(w: u16, h: u16, visible: bool, collapsed: bool, boxed: bool) -> BodyLayout {
    if w < 2 || h < 1 {
        BodyLayout::Nothing
    } else if !(visible && h >= 8) {
        BodyLayout::MainOnly
    } else if w < 90 {
        let side = if collapsed {
            if h < 3 {
                h as int
            } else {
                3
            }
        } else {
            clamp_between(h * 40 / 100, 5, if h > 3 { h - 3 } else { 0 })
        };
        BodyLayout::Split { vertical: true, separator: !boxed, side: side as u16 }
    } else {
        let side = if collapsed {
            6
        } else {
            clamp_between(w * 35 / 100, 28, if w > 20 { w - 20 } else { 0 })
        };
        BodyLayout::Split { vertical: false, separator: !boxed, side: side as u16 }
    }
}

/// How the body of the screen is split between the main view and the
/// sidebar.
pub fn body_layout(w: u16, h: u16, visible: bool, collapsed: bool, boxed: bool) -> (r: BodyLayout)
    requires
        visible && !collapsed && 2 <= w < 90 && h >= 8 ==> h * 40 <= u16::MAX,
        visible && !collapsed && w >= 90 && h >= 8 ==> w * 35 <= u16::MAX,
    ensures
        r == body_layout_spec(w, h, visible, collapsed, boxed),
{
    if w < 2 || h < 1 {
        return BodyLayout::Nothing;
    }
    if !(visible && h >= 8) {
        return BodyLayout::MainOnly;
    }
    if w < 90 {
        let side = if collapsed {
            if h < 3 {
                h
            } else {
                3
            }
        } else {
            let x = h * 40 / 100;
            let m = if x > 5 {
                x
            } else {
                5
            };
            let hi = h.saturating_sub(3);
            if m < hi {
                m
            } else {
                hi
            }
        };
        BodyLayout::Split { vertical: true, separator: !boxed, side }
    } else {
        let side = if collapsed {
            6
        } else {
            let x = w * 35 / 100;
            let m = if x > 28 {
                x
            } else {
                28
            };
            let hi = w.saturating_sub(20);
            if m < hi {
                m
            } else {
                hi
            }
        };
        BodyLayout::Split { vertical: false, separator: !boxed, side }
    }
}

// ---------------------------------------------------------------------
// The key hints of the header

/// The colour a key hint is drawn in.
#[derive(Clone, Copy, Debug, PartialEq, Eq, Structural)]
pub enum Tone {
    Success,
    Warn,
    Info,
    Muted,
    Accent,
    Image,
}

/// A key hint: the key, what it does, and the colour of its badge.
#[derive(Clone, Debug, PartialEq, Eq)]
pub struct KeyHint {
    pub key: String,
    pub label: String,
    pub tone: Tone,
}

/// The value a [`KeyHint`] stands for.
pub struct HintView {
    pub key: Seq<char>,
    pub label: Seq<char>,
    pub tone: Tone,
}

impl DeepView for KeyHint {
    type V = HintView;

    open spec fn deep_view(&self) -> HintView {
        HintView { key: self.key@, label: self.label@, tone: self.tone }
    }
}

/// A hint of the given key, label and tone.
pub open spec fn hint(key: Seq<char>, label: Seq<char>, tone: Tone) -> HintView {
    HintView { key, label, tone }
}

/// The key hints the header shows: the modes after Ctrl+X; the keys of
/// the key-driven mode; the browser's keys while the files have the focus;
/// otherwise the keys that enter the modes.
pub open spec fn header_hints_spec(app: App) -> Seq<HintView> {
    if app.leader {
        seq![
            hint(" ^E "@, " Edit  "@, Tone::Success),
            hint(" ^V "@, " View  "@, Tone::Warn),
            hint(" ^F "@, " Files  "@, Tone::Info),
            hint(" Esc "@, " Cancel"@, Tone::Muted),
        ]
    } else {
        match app.active_leader_mode {
            Some(LeaderMode::Edit) => seq![
                hint(" s "@, " Save  "@, Tone::Success),
                hint(" w "@, " Wrap  "@, Tone::Success),
                hint(" Esc/q "@, " Exit"@, Tone::Muted),
            ],
            Some(LeaderMode::View) => seq![
                hint(" o "@, " Outline  "@, Tone::Warn),
                hint(" r "@, " Collapse  "@, Tone::Warn),
                hint(" t "@, " Themes  "@, Tone::Image),
                hint(" b "@, " Borders  "@, Tone::Accent),
                hint(" c "@, " Cursor  "@, Tone::Info),
                hint(" Esc/q "@, " Exit"@, Tone::Muted),
            ],
            Some(LeaderMode::Files) => seq![
                hint(" ↑↓ "@, " Nav  "@, Tone::Info),
                hint(" Enter "@, " Open  "@, Tone::Info),
                hint(" ← "@, " Parent  "@, Tone::Info),
                hint(" Esc/q "@, " Exit"@, Tone::Muted),
            ],
            None => if app.focus == FocusPane::Files {
                seq![
                    hint(" ↑↓ "@, " Nav  "@, Tone::Info),
                    hint(" Enter "@, " Open  "@, Tone::Info),
                    hint(" Esc "@, " Editor  "@, Tone::Muted),
                    hint(" ^E/^V/^F "@, " Modes"@, Tone::Accent),
                ]
            } else {
                seq![
                    hint(" ^E "@, " Edit  "@, Tone::Success),
                    hint(" ^V "@, " View  "@, Tone::Warn),
                    hint(" ^F "@, " Files"@, Tone::Info),
                ]
            },
        }
    }
}

fn push_hint(v: &mut Vec<KeyHint>, key: &str, label: &str, tone: Tone)
    ensures
        final(v).deep_view() == old(v).deep_view().push(hint(key@, label@, tone)),
{
    let h = KeyHint { key: String::from_str(key), label: String::from_str(label), tone };
    let ghost before = v.deep_view();
    let ghost hv = h.deep_view();
    v.push(h);
    assert(v.deep_view() =~= before.push(hv));
}

/// The key hints the header shows.
pub fn header_hints(app: &App) -> (r: Vec<KeyHint>)
    ensures
        r.deep_view() == header_hints_spec(*app),
{
    let mut v: Vec<KeyHint> = Vec::new();
    if app.leader {
        push_hint(&mut v, " ^E ", " Edit  ", Tone::Success);
        push_hint(&mut v, " ^V ", " View  ", Tone::Warn);
        push_hint(&mut v, " ^F ", " Files  ", Tone::Info);
        push_hint(&mut v, " Esc ", " Cancel", Tone::Muted);
    } else {
        match app.active_leader_mode {
            Some(LeaderMode::Edit) => {
                push_hint(&mut v, " s ", " Save  ", Tone::Success);
                push_hint(&mut v, " w ", " Wrap  ", Tone::Success);
                push_hint(&mut v, " Esc/q ", " Exit", Tone::Muted);
            },
            Some(LeaderMode::View) => {
                push_hint(&mut v, " o ", " Outline  ", Tone::Warn);
                push_hint(&mut v, " r ", " Collapse  ", Tone::Warn);
                push_hint(&mut v, " t ", " Themes  ", Tone::Image);
                push_hint(&mut v, " b ", " Borders  ", Tone::Accent);
                push_hint(&mut v, " c ", " Cursor  ", Tone::Info);
                push_hint(&mut v, " Esc/q ", " Exit", Tone::Muted);
            },
            Some(LeaderMode::Files) => {
                push_hint(&mut v, " ↑↓ ", " Nav  ", Tone::Info);
                push_hint(&mut v, " Enter ", " Open  ", Tone::Info);
                push_hint(&mut v, " ← ", " Parent  ", Tone::Info);
                push_hint(&mut v, " Esc/q ", " Exit", Tone::Muted);
            },
            None => {
                if app.focus == FocusPane::Files {
                    push_hint(&mut v, " ↑↓ ", " Nav  ", Tone::Info);
                    push_hint(&mut v, " Enter ", " Open  ", Tone::Info);
                    push_hint(&mut v, " Esc ", " Editor  ", Tone::Muted);
                    push_hint(&mut v, " ^E/^V/^F ", " Modes", Tone::Accent);
                } else {
                    push_hint(&mut v, " ^E ", " Edit  ", Tone::Success);
                    push_hint(&mut v, " ^V ", " View  ", Tone::Warn);
                    push_hint(&mut v, " ^F ", " Files", Tone::Info);
                }
            },
        }
    }
    assert(v.deep_view() =~= header_hints_spec(*app));
    v
}

// ---------------------------------------------------------------------
// Side panels

/// How a piece of a side panel is drawn.
#[derive(Clone, Copy, Debug, PartialEq, Eq, Structural)]
pub enum PanelRole {
    Plain,
    Title,
    Dim,
    Heading1,
    Heading2,
    Text,
    Selected,
    PickerSelected,
    Current,
    CurrentEntry,
    Directory,
    CurrentMark,
    Swatch(u8),
    Badge(Tone),
}

/// A piece of a side panel's row.
#[derive(Clone, Debug, PartialEq, Eq)]
pub struct PanelSpan {
    pub text: String,
    pub role: PanelRole,
}

/// The value a [`PanelSpan`] stands for.
pub struct PanelSpanView {
    pub text: Seq<char>,
    pub role: PanelRole,
}

impl DeepView for PanelSpan {
    type V = PanelSpanView;

    open spec fn deep_view(&self) -> PanelSpanView {
        PanelSpanView { text: self.text@, role: self.role }
    }
}

/// A piece of the given text and role.
pub open spec fn ps(text: Seq<char>, role: PanelRole) -> PanelSpanView {
    PanelSpanView { text, role }
}

/// A row of one piece.
pub open spec fn row1(text: Seq<char>, role: PanelRole) -> Seq<PanelSpanView> {
    seq![ps(text, role)]
}

/// The row that says how many items lie above the window.
pub open spec fn more_above(n: nat) -> Seq<PanelSpanView> {
    row1("  ↑ "@ + dec_str(n) + " more"@, PanelRole::Dim)
}

/// The row that says how many items lie below the window.
pub open spec fn more_below(n: nat) -> Seq<PanelSpanView> {
    row1("  ↓ "@ + dec_str(n) + " more"@, PanelRole::Dim)
}

/// Rows of a window `start..end` over a list of `len` items: a note of what
/// lies above, the rows, a note of what lies below.
pub open spec fn windowed(
    rows: Seq<Seq<PanelSpanView>>,
    start: int,
    end: int,
    len: int,
) -> Seq<Seq<PanelSpanView>> {
    (if start > 0 {
        seq![more_above(start as nat)]
    } else {
        seq![]
    }) + rows + if end < len {
        seq![more_below((len - end) as nat)]
    } else {
        seq![]
    }
}

/// The role of a heading of the outline panel.
pub open spec fn heading_role(level: u8, selected: bool) -> PanelRole {
    if selected {
        PanelRole::Selected
    } else if level == 1 {
        PanelRole::Heading1
    } else if level == 2 {
        PanelRole::Heading2
    } else {
        PanelRole::Text
    }
}

/// The file information at the top of the outline panel.
pub open spec fn outline_head_spec(app: App) -> Seq<Seq<PanelSpanView>> {
    let path = match app.file_path {
        Some(p) => p@,
        None => "[No Name]"@,
    };
    seq![
        row1("FILE INFO"@, PanelRole::Title),
        row1(seq![], PanelRole::Plain),
        row1("Path: "@ + path, PanelRole::Plain),
        row1(
            "Modified: "@ + (if app.modified {
                "Yes"@
            } else {
                "No"@
            }),
            PanelRole::Plain,
        ),
        row1(
            "Lines: "@ + dec_str(count_char(app.content@, '\n') + 1) + "  Words: "@ + dec_str(
                word_count(app.content@),
            ),
            PanelRole::Plain,
        ),
        row1(seq![], PanelRole::Plain),
        row1("OUTLINE"@, PanelRole::Title),
        row1(seq![], PanelRole::Plain),
    ]
}

/// The row of heading `idx` of the outline panel.
pub open spec fn heading_row(app: App, items: Seq<OutlineItemView>, idx: int) -> Seq<PanelSpanView> {
    let sel = app.focus == FocusPane::Outline && idx == app.selected_outline;
    row1(
        (if sel {
            "› "@
        } else {
            "  "@
        }) + spaces(
            2 * (if items[idx].level > 0 {
                items[idx].level - 1
            } else {
                0
            }) as nat,
        ) + items[idx].text,
        heading_role(items[idx].level, sel),
    )
}

/// The outline panel of a sidebar `height` rows and `width` columns big:
/// file information, then the headings that fit (the window keeps the
/// selected one in view), each indented by its level; a smooth chrome puts
/// a title and a rule above.
pub open spec fn outline_panel_spec(app: App, height: u16, width: u16) -> Seq<Seq<PanelSpanView>> {
    let items = outline_spec(app.content@);
    let n = items.len();
    let rows_room = if height > 10 {
        (height - 10) as usize
    } else {
        0
    };
    let start = window_start(n as usize, app.selected_outline, rows_room);
    let end = selected_window_end(n as usize, app.selected_outline, rows_room);
    let body = if n == 0 {
        seq![row1("No headings found"@, PanelRole::Dim)]
    } else {
        windowed(
            Seq::new((end - start) as nat, |k: int| heading_row(app, items, start + k)),
            start,
            end,
            n as int,
        )
    };
    let all = outline_head_spec(app) + body;
    if app.boxed_chrome {
        all
    } else {
        seq![row1("Outline"@, PanelRole::Title), row1(rep('─', width as nat), PanelRole::Dim)]
            + all
    }
}

/// The end of the window [`selected_window`] gives.
pub open spec fn selected_window_end(len: usize, selected: usize, rows: usize) -> int {
    let s = window_start(len, selected, rows);
    let r = if rows > 1 {
        rows as int
    } else {
        1
    };
    if s + r < len {
        s + r
    } else {
        len as int
    }
}

fn push_panel_row(rows: &mut Vec<Vec<PanelSpan>>, text: Vec<char>, role: PanelRole)
    ensures
        final(rows).deep_view() == old(rows).deep_view().push(row1(text@, role)),
{
    let mut r: Vec<PanelSpan> = Vec::new();
    r.push(PanelSpan { text: string_of(&text), role });
    let ghost before = rows.deep_view();
    let ghost rv = r.deep_view();
    assert(rv =~= row1(text@, role));
    rows.push(r);
    assert(rows.deep_view() =~= before.push(rv));
}

/// "  ↑ n more" or "  ↓ n more".
fn more_text(up: bool, n: usize) -> (r: Vec<char>)
    ensures
        r@ == (if up { "  ↑ "@ } else { "  ↓ "@ }) + dec_str(n as nat) + " more"@,
{
    let a = if up {
        chars_of("  ↑ ")
    } else {
        chars_of("  ↓ ")
    };
    let b = concat(&a, &decimal_chars(n));
    concat(&b, &chars_of(" more"))
}

/// The file information at the top of the outline panel.
fn outline_head(app: &App) -> (r: Vec<Vec<PanelSpan>>)
    requires
        app.content@.len() < usize::MAX,
    ensures
        r.deep_view() == outline_head_spec(*app),
{
    let stats = app.stats();
    let mut rows: Vec<Vec<PanelSpan>> = Vec::new();
    push_panel_row(&mut rows, chars_of("FILE INFO"), PanelRole::Title);
    push_panel_row(&mut rows, Vec::new(), PanelRole::Plain);
    let mut path = chars_of("Path: ");
    match &app.file_path {
        Some(p) => {
            path = concat(&path, &chars_of(p.as_str()));
        },
        None => {
            path = concat(&path, &chars_of("[No Name]"));
        },
    }
    push_panel_row(&mut rows, path, PanelRole::Plain);
    let m = if app.modified {
        concat(&chars_of("Modified: "), &chars_of("Yes"))
    } else {
        concat(&chars_of("Modified: "), &chars_of("No"))
    };
    push_panel_row(&mut rows, m, PanelRole::Plain);
    let mut counts = chars_of("Lines: ");
    counts = concat(&counts, &decimal_chars(stats.lines));
    counts = concat(&counts, &chars_of("  Words: "));
    counts = concat(&counts, &decimal_chars(stats.words));
    push_panel_row(&mut rows, counts, PanelRole::Plain);
    push_panel_row(&mut rows, Vec::new(), PanelRole::Plain);
    push_panel_row(&mut rows, chars_of("OUTLINE"), PanelRole::Title);
    push_panel_row(&mut rows, Vec::new(), PanelRole::Plain);
    assert(rows.deep_view() =~= outline_head_spec(*app));
    rows
}

/// The rows of headings `start..end`.
fn heading_rows(app: &App, items: &Vec<OutlineItem>, start: usize, end: usize) -> (r: Vec<
    Vec<PanelSpan>,
>)
    requires
        start <= end <= items.len(),
    ensures
        r.deep_view() == Seq::new(
            (end - start) as nat,
            |k: int| heading_row(*app, items.deep_view(), start + k),
        ),
{
    let ghost iv = items.deep_view();
    let mut rows: Vec<Vec<PanelSpan>> = Vec::new();
    let mut idx = start;
    while idx < end
        invariant
            start <= idx <= end <= items.len(),
            iv == items.deep_view(),
            rows.deep_view() == Seq::new(
                (idx - start) as nat,
                |k: int| heading_row(*app, iv, start + k),
            ),
        decreases end - idx,
    {
        let it = &items[idx];
        assert(it.deep_view() == iv[idx as int]);
        let sel = app.focus == FocusPane::Outline && idx == app.selected_outline;
        let mut line = if sel {
            chars_of("› ")
        } else {
            chars_of("  ")
        };
        let depth: usize = if it.level > 0 {
            (it.level - 1) as usize
        } else {
            0
        };
        line = concat(&line, &space_chars(2 * depth));
        line = concat(&line, &chars_of(it.text.as_str()));
        let role = if sel {
            PanelRole::Selected
        } else if it.level == 1 {
            PanelRole::Heading1
        } else if it.level == 2 {
            PanelRole::Heading2
        } else {
            PanelRole::Text
        };
        push_panel_row(&mut rows, line, role);
        assert(rows.deep_view() =~= Seq::new(
            (idx + 1 - start) as nat,
            |k: int| heading_row(*app, iv, start + k),
        ));
        idx += 1;
    }
    rows
}

/// Appends rows.
fn append_rows(rows: &mut Vec<Vec<PanelSpan>>, more: Vec<Vec<PanelSpan>>)
    ensures
        final(rows).deep_view() == old(rows).deep_view() + more.deep_view(),
{
    let ghost start = rows.deep_view();
    let ghost mv = more.deep_view();
    let mut more = more;
    let ghost rb = rows@;
    let ghost mb = more@;
    rows.append(&mut more);
    assert(rows@ == rb + mb);
    assert(rows.deep_view() =~= start + mv);
}

/// The outline panel of a sidebar `height` rows and `width` columns big.
#[verifier::rlimit(40)]
pub fn outline_panel(app: &App, height: u16, width: u16) -> (r: Vec<Vec<PanelSpan>>)
    requires
        app.content@.len() < usize::MAX,
    ensures
        r.deep_view() == outline_panel_spec(*app, height, width),
{
    let mut rows: Vec<Vec<PanelSpan>> = Vec::new();
    if !app.boxed_chrome {
        push_panel_row(&mut rows, chars_of("Outline"), PanelRole::Title);
        let mut rule: Vec<char> = Vec::new();
        let mut k: u16 = 0;
        while k < width
            invariant
                k <= width,
                rule@ == rep('─', k as nat),
            decreases width - k,
        {
            rule.push('─');
            assert(rule@ =~= rep('─', (k + 1) as nat));
            k += 1;
        }
        push_panel_row(&mut rows, rule, PanelRole::Dim);
    }
    append_rows(&mut rows, outline_head(app));
    let items = app.outline();
    let n = items.len();
    if n == 0 {
        push_panel_row(&mut rows, chars_of("No headings found"), PanelRole::Dim);
        assert(rows.deep_view() =~= outline_panel_spec(*app, height, width));
        return rows;
    }
    let room: usize = if height > 10 {
        (height - 10) as usize
    } else {
        0
    };
    let (start, end) = crate::app::selected_window(n, app.selected_outline, room);
    if start > 0 {
        push_panel_row(&mut rows, more_text(true, start), PanelRole::Dim);
    }
    append_rows(&mut rows, heading_rows(app, &items, start, end));
    if end < n {
        push_panel_row(&mut rows, more_text(false, n - end), PanelRole::Dim);
    }
    assert(rows.deep_view() =~= outline_panel_spec(*app, height, width));
    rows
}

/// Whether `path` is the open document's.
pub open spec fn is_current(app: App, path: Seq<char>) -> bool {
    match app.file_path {
        Some(p) => p@ == path,
        None => false,
    }
}

/// The row of entry `i` of the file browser: a marker when selected, an
/// icon (parent, directory or file), the name, and a dot when it is the
/// open document.
pub open spec fn file_row(app: App, es: Seq<FileEntryView>, i: int) -> Seq<PanelSpanView> {
    let e = es[i];
    let sel = i == app.selected_file;
    let current = is_current(app, e.path);
    let icon = if e.name == "../"@ {
        "↰"@
    } else if e.is_dir {
        "📁"@
    } else {
        "󰈙"@
    };
    let role = if sel {
        PanelRole::Selected
    } else if current {
        PanelRole::CurrentEntry
    } else if e.is_dir {
        PanelRole::Directory
    } else {
        PanelRole::Text
    };
    seq![
        ps(
            (if sel {
                "›"@
            } else {
                " "@
            }) + seq![' '] + icon + seq![' '] + e.name,
            role,
        ),
        ps(
            if current {
                " ●"@
            } else {
                seq![]
            },
            PanelRole::CurrentMark,
        ),
    ]
}

/// The file browser of a sidebar `height` rows high, listing `es`: the
/// entries that fit, the window keeping the selected one in view.
pub open spec fn files_panel_spec(app: App, es: Seq<FileEntryView>, height: u16) -> Seq<
    Seq<PanelSpanView>,
> {
    let room = if height > 2 {
        (height - 2) as usize
    } else {
        0
    };
    let n = es.len();
    let start = window_start(n as usize, app.selected_file, room);
    let end = selected_window_end(n as usize, app.selected_file, room);
    windowed(Seq::new((end - start) as nat, |k: int| file_row(app, es, start + k)), start, end, n as int)
}

fn push_piece(row: &mut Vec<PanelSpan>, text: &Vec<char>, role: PanelRole)
    ensures
        final(row).deep_view() == old(row).deep_view().push(ps(text@, role)),
{
    let ghost before = row.deep_view();
    let p = PanelSpan { text: string_of(text), role };
    let ghost pv = p.deep_view();
    row.push(p);
    assert(row.deep_view() =~= before.push(pv));
}

fn push_spans_row(rows: &mut Vec<Vec<PanelSpan>>, row: Vec<PanelSpan>)
    ensures
        final(rows).deep_view() == old(rows).deep_view().push(row.deep_view()),
{
    let ghost before = rows.deep_view();
    let ghost rv = row.deep_view();
    rows.push(row);
    assert(rows.deep_view() =~= before.push(rv));
}

/// The file browser of a sidebar `height` rows high, listing `entries`.
pub fn files_panel(app: &App, entries: &Vec<FileEntry>, height: u16) -> (r: Vec<Vec<PanelSpan>>)
    requires
        entries.len() < usize::MAX,
    ensures
        r.deep_view() == files_panel_spec(*app, entries.deep_view(), height),
{
    let ghost es = entries.deep_view();
    let room: usize = if height > 2 {
        (height - 2) as usize
    } else {
        0
    };
    let n = entries.len();
    let (start, end) = crate::app::selected_window(n, app.selected_file, room);
    let mut rows: Vec<Vec<PanelSpan>> = Vec::new();
    if start > 0 {
        push_panel_row(&mut rows, more_text(true, start), PanelRole::Dim);
    }
    let ghost before_items = rows.deep_view();
    let mut i = start;
    while i < end
        invariant
            start <= i <= end <= n,
            n == entries.len(),
            es == entries.deep_view(),
            rows.deep_view() == before_items + Seq::new(
                (i - start) as nat,
                |k: int| file_row(*app, es, start + k),
            ),
        decreases end - i,
    {
        let e = &entries[i];
        assert(e.deep_view() == es[i as int]);
        let sel = i == app.selected_file;
        let current = match &app.file_path {
            Some(p) => chars_eq_str(p.as_str(), e.path.as_str()),
            None => false,
        };
        let name = chars_of(e.name.as_str());
        let icon = if crate::text::chars_are(&name, "../") {
            chars_of("↰")
        } else if e.is_dir {
            chars_of("📁")
        } else {
            chars_of("󰈙")
        };
        let role = if sel {
            PanelRole::Selected
        } else if current {
            PanelRole::CurrentEntry
        } else if e.is_dir {
            PanelRole::Directory
        } else {
            PanelRole::Text
        };
        let mut text = if sel {
            chars_of("›")
        } else {
            chars_of(" ")
        };
        text.push(' ');
        text = concat(&text, &icon);
        text.push(' ');
        text = concat(&text, &name);
        let mark = if current {
            chars_of(" ●")
        } else {
            Vec::new()
        };
        let mut row: Vec<PanelSpan> = Vec::new();
        push_piece(&mut row, &text, role);
        push_piece(&mut row, &mark, PanelRole::CurrentMark);
        assert(row.deep_view() =~= seq![ps(text@, role), ps(mark@, PanelRole::CurrentMark)]);
        proof {
            let ev = es[i as int];
            let cur = is_current(*app, ev.path);
            assert(current == cur);
            assert(name@ == ev.name);
            let ic = if ev.name == "../"@ {
                "↰"@
            } else if ev.is_dir {
                "📁"@
            } else {
                "󰈙"@
            };
            assert(icon@ == ic);
            assert(text@ =~= (if sel {
                "›"@
            } else {
                " "@
            }) + seq![' '] + ic + seq![' '] + ev.name);
            assert(mark@ =~= (if cur {
                " ●"@
            } else {
                seq![]
            }));
        }
        assert(row.deep_view() =~= file_row(*app, es, i as int));
        push_spans_row(&mut rows, row);
        assert(rows.deep_view() =~= before_items + Seq::new(
            (i + 1 - start) as nat,
            |k: int| file_row(*app, es, start + k),
        ));
        i += 1;
    }
    if end < n {
        push_panel_row(&mut rows, more_text(false, n - end), PanelRole::Dim);
    }
    assert(rows.deep_view() =~= files_panel_spec(*app, es, height));
    rows
}

/// Whether two strings hold the same characters.
fn chars_eq_str(a: &str, b: &str) -> (r: bool)
    ensures
        r == (a@ == b@),
{
    let x = chars_of(a);
    let y = chars_of(b);
    crate::text::chars_eq(&x, &y)
}

/// The colour swatches shown before a theme's name: three glyphs of the
/// swatch style (none when off), set apart by the spacing (eight at most),
/// then a space.
pub open spec fn swatches_spec(style: ThemeSwatchStyle, spacing: usize) -> Seq<PanelSpanView> {
    match style {
        ThemeSwatchStyle::Off => seq![],
        _ => {
            let g = if style == ThemeSwatchStyle::Circle {
                "●"@
            } else {
                "■"@
            };
            let gap = spaces(
                if spacing < 8 {
                    spacing as nat
                } else {
                    8
                },
            );
            let sep = if gap.len() > 0 {
                seq![ps(gap, PanelRole::Plain)]
            } else {
                seq![]
            };
            seq![ps(g, PanelRole::Swatch(0))] + sep + seq![ps(g, PanelRole::Swatch(1))] + sep
                + seq![ps(g, PanelRole::Swatch(2)), ps(seq![' '], PanelRole::Plain)]
        },
    }
}

/// The row of theme `idx` of the picker: a marker when selected, the
/// swatches, the name, and a star on the current theme.
pub open spec fn picker_row(app: App, idx: int) -> Seq<PanelSpanView> {
    let name = theme_names()[idx];
    let sel = idx == app.theme_picker_index;
    let current = name == app.theme_name@;
    let role = if sel {
        PanelRole::PickerSelected
    } else if current {
        PanelRole::Current
    } else {
        PanelRole::Text
    };
    seq![
        ps(
            (if sel {
                "›"@
            } else {
                " "@
            }) + seq![' '],
            role,
        ),
    ] + swatches_spec(app.theme_swatch_style, app.theme_swatch_spacing) + seq![
        ps(
            name + if current {
                " *"@
            } else {
                seq![]
            },
            role,
        ),
    ]
}

/// The key rows at the bottom of the theme picker.
pub open spec fn picker_keys_spec() -> Seq<Seq<PanelSpanView>> {
    seq![
        row1(seq![], PanelRole::Plain),
        seq![
            ps("Enter"@, PanelRole::Badge(Tone::Success)),
            ps(" preview/apply and stay open"@, PanelRole::Dim),
        ],
        seq![ps("Esc/q"@, PanelRole::Badge(Tone::Muted)), ps(" close picker"@, PanelRole::Dim)],
        seq![ps("↑/↓"@, PanelRole::Badge(Tone::Info)), ps(" scroll window"@, PanelRole::Dim)],
    ]
}

/// The rows at the top of the theme picker: a title (and a rule under it
/// with the smooth chrome), how many themes there are and which is
/// selected, and an empty row.
pub open spec fn picker_top_spec(app: App, width: u16) -> Seq<Seq<PanelSpanView>> {
    let names = theme_names();
    let chosen = if app.theme_picker_index < names.len() {
        names[app.theme_picker_index as int]
    } else {
        "none"@
    };
    let title = row1("THEME SELECTOR"@, PanelRole::Title);
    let count = row1(dec_str(names.len()) + " themes · "@ + chosen + " selected"@, PanelRole::Dim);
    if app.boxed_chrome {
        seq![title, count, row1(seq![], PanelRole::Plain)]
    } else {
        seq![
            title,
            row1(rep('─', width as nat), PanelRole::Dim),
            count,
            row1(seq![], PanelRole::Plain),
        ]
    }
}

/// The theme picker of a sidebar `height` rows and `width` columns big:
/// the top rows, the themes that fit (the window keeping the selected one
/// in view), and the keys.
pub open spec fn picker_panel_spec(app: App, height: u16, width: u16) -> Seq<Seq<PanelSpanView>> {
    let n = theme_names().len();
    let reserved: int = if app.boxed_chrome {
        8
    } else {
        9
    };
    let room: usize = if height - reserved > 1 {
        (height - reserved) as usize
    } else {
        1
    };
    let start = window_start(n as usize, app.theme_picker_index, room);
    let end = selected_window_end(n as usize, app.theme_picker_index, room);
    picker_top_spec(app, width) + windowed(
        Seq::new((end - start) as nat, |k: int| picker_row(app, start + k)),
        start,
        end,
        n as int,
    ) + picker_keys_spec()
}

/// The colour swatches shown before a theme's name.
fn swatches(style: ThemeSwatchStyle, spacing: usize) -> (r: Vec<PanelSpan>)
    ensures
        r.deep_view() == swatches_spec(style, spacing),
{
    let mut row: Vec<PanelSpan> = Vec::new();
    if style == ThemeSwatchStyle::Off {
        assert(row.deep_view() =~= swatches_spec(style, spacing));
        return row;
    }
    let g = if style == ThemeSwatchStyle::Circle {
        chars_of("●")
    } else {
        chars_of("■")
    };
    let gap = space_chars(
        if spacing < 8 {
            spacing
        } else {
            8
        },
    );
    push_piece(&mut row, &g, PanelRole::Swatch(0));
    if gap.len() > 0 {
        push_piece(&mut row, &gap, PanelRole::Plain);
    }
    push_piece(&mut row, &g, PanelRole::Swatch(1));
    if gap.len() > 0 {
        push_piece(&mut row, &gap, PanelRole::Plain);
    }
    push_piece(&mut row, &g, PanelRole::Swatch(2));
    let one = vec![' '];
    assert(one@ =~= seq![' ']);
    push_piece(&mut row, &one, PanelRole::Plain);
    proof {
        let gg = if style == ThemeSwatchStyle::Circle {
            "●"@
        } else {
            "■"@
        };
        assert(g@ == gg);
        if gap.len() > 0 {
            assert(row.deep_view() =~= seq![
                ps(gg, PanelRole::Swatch(0)),
                ps(gap@, PanelRole::Plain),
                ps(gg, PanelRole::Swatch(1)),
                ps(gap@, PanelRole::Plain),
                ps(gg, PanelRole::Swatch(2)),
                ps(seq![' '], PanelRole::Plain),
            ]);
        } else {
            assert(row.deep_view() =~= seq![
                ps(gg, PanelRole::Swatch(0)),
                ps(gg, PanelRole::Swatch(1)),
                ps(gg, PanelRole::Swatch(2)),
                ps(seq![' '], PanelRole::Plain),
            ]);
        }
    }
    assert(row.deep_view() =~= swatches_spec(style, spacing));
    row
}

fn picker_keys() -> (r: Vec<Vec<PanelSpan>>)
    ensures
        r.deep_view() == picker_keys_spec(),
{
    let mut rows: Vec<Vec<PanelSpan>> = Vec::new();
    push_panel_row(&mut rows, Vec::new(), PanelRole::Plain);
    let mut enter: Vec<PanelSpan> = Vec::new();
    push_piece(&mut enter, &chars_of("Enter"), PanelRole::Badge(Tone::Success));
    push_piece(&mut enter, &chars_of(" preview/apply and stay open"), PanelRole::Dim);
    assert(enter.deep_view() =~= picker_keys_spec()[1]);
    push_spans_row(&mut rows, enter);
    let mut esc: Vec<PanelSpan> = Vec::new();
    push_piece(&mut esc, &chars_of("Esc/q"), PanelRole::Badge(Tone::Muted));
    push_piece(&mut esc, &chars_of(" close picker"), PanelRole::Dim);
    assert(esc.deep_view() =~= picker_keys_spec()[2]);
    push_spans_row(&mut rows, esc);
    let mut arrows: Vec<PanelSpan> = Vec::new();
    push_piece(&mut arrows, &chars_of("↑/↓"), PanelRole::Badge(Tone::Info));
    push_piece(&mut arrows, &chars_of(" scroll window"), PanelRole::Dim);
    assert(arrows.deep_view() =~= picker_keys_spec()[3]);
    push_spans_row(&mut rows, arrows);
    assert(rows.deep_view() =~= picker_keys_spec());
    rows
}

fn picker_top(app: &App, width: u16) -> (r: Vec<Vec<PanelSpan>>)
    ensures
        r.deep_view() == picker_top_spec(*app, width),
{
    let names = crate::app::theme_options();
    let ghost nv = names.deep_view();
    let n = names.len();
    let mut rows: Vec<Vec<PanelSpan>> = Vec::new();
    push_panel_row(&mut rows, chars_of("THEME SELECTOR"), PanelRole::Title);
    if !app.boxed_chrome {
        let mut rule: Vec<char> = Vec::new();
        let mut k: u16 = 0;
        while k < width
            invariant
                k <= width,
                rule@ == rep('─', k as nat),
            decreases width - k,
        {
            rule.push('─');
            assert(rule@ =~= rep('─', (k + 1) as nat));
            k += 1;
        }
        push_panel_row(&mut rows, rule, PanelRole::Dim);
    }
    let mut count = decimal_chars(n);
    count = concat(&count, &chars_of(" themes · "));
    if app.theme_picker_index < n {
        assert(names[app.theme_picker_index as int]@ == nv[app.theme_picker_index as int]);
        count = concat(&count, &chars_of(names[app.theme_picker_index].as_str()));
    } else {
        count = concat(&count, &chars_of("none"));
    }
    count = concat(&count, &chars_of(" selected"));
    push_panel_row(&mut rows, count, PanelRole::Dim);
    push_panel_row(&mut rows, Vec::new(), PanelRole::Plain);
    assert(rows.deep_view() =~= picker_top_spec(*app, width));
    rows
}

fn picker_items(app: &App, start: usize, end: usize) -> (r: Vec<Vec<PanelSpan>>)
    requires
        start <= end <= theme_names().len(),
    ensures
        r.deep_view() == Seq::new((end - start) as nat, |k: int| picker_row(*app, start + k)),
{
    let names = crate::app::theme_options();
    let ghost nv = names.deep_view();
    let sw = swatches(app.theme_swatch_style, app.theme_swatch_spacing);
    let mut rows: Vec<Vec<PanelSpan>> = Vec::new();
    let mut idx = start;
    while idx < end
        invariant
            start <= idx <= end <= names.len(),
            nv == names.deep_view(),
            nv == crate::app::theme_names(),
            sw.deep_view() == swatches_spec(app.theme_swatch_style, app.theme_swatch_spacing),
            rows.deep_view() == Seq::new((idx - start) as nat, |k: int| picker_row(*app, start + k)),
        decreases end - idx,
    {
        assert(names[idx as int]@ == nv[idx as int]);
        let name = chars_of(names[idx].as_str());
        let sel = idx == app.theme_picker_index;
        let current = chars_eq_str(names[idx].as_str(), app.theme_name.as_str());
        let role = if sel {
            PanelRole::PickerSelected
        } else if current {
            PanelRole::Current
        } else {
            PanelRole::Text
        };
        let mut marker = if sel {
            chars_of("›")
        } else {
            chars_of(" ")
        };
        marker.push(' ');
        let label = if current {
            concat(&name, &chars_of(" *"))
        } else {
            name
        };
        assert(label@ =~= nv[idx as int] + if current {
            " *"@
        } else {
            seq![]
        });
        assert(marker@ =~= (if sel {
            "›"@
        } else {
            " "@
        }) + seq![' ']);
        let mut row: Vec<PanelSpan> = Vec::new();
        push_piece(&mut row, &marker, role);
        let mut k: usize = 0;
        let ghost r0 = row.deep_view();
        while k < sw.len()
            invariant
                k <= sw.len(),
                row.deep_view() == r0 + sw.deep_view().take(k as int),
            decreases sw.len() - k,
        {
            let piece = PanelSpan { text: sw[k].text.clone(), role: sw[k].role };
            let ghost before = row.deep_view();
            let ghost pv = piece.deep_view();
            assert(pv == sw.deep_view()[k as int]);
            row.push(piece);
            assert(row.deep_view() =~= before.push(pv));
            assert(sw.deep_view().take(k + 1) =~= sw.deep_view().take(k as int).push(pv));
            k += 1;
        }
        assert(sw.deep_view().take(sw.len() as int) =~= sw.deep_view());
        push_piece(&mut row, &label, role);
        assert(row.deep_view() =~= picker_row(*app, idx as int));
        push_spans_row(&mut rows, row);
        assert(rows.deep_view() =~= Seq::new(
            (idx + 1 - start) as nat,
            |k: int| picker_row(*app, start + k),
        ));
        idx += 1;
    }
    rows
}

/// The theme picker of a sidebar `height` rows and `width` columns big.
pub fn picker_panel(app: &App, height: u16, width: u16) -> (r: Vec<Vec<PanelSpan>>)
    ensures
        r.deep_view() == picker_panel_spec(*app, height, width),
{
    let n = crate::app::theme_options().len();
    let reserved: u16 = if app.boxed_chrome {
        8
    } else {
        9
    };
    let room: usize = if height > reserved && height - reserved > 1 {
        (height - reserved) as usize
    } else {
        1
    };
    let (start, end) = crate::app::selected_window(n, app.theme_picker_index, room);
    let mut rows = picker_top(app, width);
    if start > 0 {
        push_panel_row(&mut rows, more_text(true, start), PanelRole::Dim);
    }
    append_rows(&mut rows, picker_items(app, start, end));
    if end < n {
        push_panel_row(&mut rows, more_text(false, n - end), PanelRole::Dim);
    }
    append_rows(&mut rows, picker_keys());
    assert(rows.deep_view() =~= picker_panel_spec(*app, height, width));
    rows
}

// ---------------------------------------------------------------------
// Images over the preview

/// Why an image is not drawn.
#[derive(Clone, Copy, Debug, PartialEq, Eq, Structural)]
pub enum NoteKind {
    Unsupported,
    Clipped,
    Unavailable,
}

/// What to do for an image in view: write a one-line note at a row of the
/// preview, or draw the image at a row in a box of the given size.
#[derive(Clone, Copy, Debug, PartialEq, Eq, Structural)]
pub enum ImageAction {
    Note { row: u16, kind: NoteKind },
    Draw { row: u16, width: u16, height: u16 },
}

/// A note under an image's first row, when that row is still in view.
pub open spec fn note_at(row: int, h: u16, kind: NoteKind) -> Option<ImageAction> {
    if row + 1 < h {
        Some(ImageAction::Note { row: (row + 1) as u16, kind })
    } else {
        None
    }
}

/// What to do for one image of the preview scrolled to `scroll`, in a
/// content box of `w` by `h` cells: nothing when it is out of view; a note
/// when the terminal draws no images, when the image cannot be loaded
/// (`fit` is `None`), or when it does not fit whole in view; otherwise
/// draw it at its size (`fit`, as wide as the box at most, as high as its
/// rows at most).
pub open spec fn image_action(
    p: PlacementView,
    scroll: usize,
    w: u16,
    h: u16,
    supported: bool,
    fit: Option<(u16, u16)>,
) -> Option<ImageAction> {
    if p.start + p.rows <= scroll || p.start >= scroll + h {
        None
    } else {
        let row = if p.start > scroll {
            p.start - scroll
        } else {
            0
        };
        if !supported {
            note_at(row, h, NoteKind::Unsupported)
        } else {
            match fit {
                Some((fw, fh)) => {
                    let height = if fh < p.rows {
                        fh
                    } else {
                        p.rows
                    };
                    if p.start < scroll || row + height > h {
                        note_at(row, h, NoteKind::Clipped)
                    } else {
                        Some(
                            ImageAction::Draw {
                                row: row as u16,
                                width: if fw < w {
                                    fw
                                } else {
                                    w
                                },
                                height,
                            },
                        )
                    }
                },
                None => note_at(row, h, NoteKind::Unavailable),
            }
        }
    }
}

/// The actions for the first `k` images, each with the image's index.
pub open spec fn overlay_from(
    ps: Seq<PlacementView>,
    k: int,
    scroll: usize,
    w: u16,
    h: u16,
    supported: bool,
    fits: Seq<Option<(u16, u16)>>,
) -> Seq<(usize, ImageAction)>
    decreases k,
{
    if k <= 0 {
        seq![]
    } else {
        let rest = overlay_from(ps, k - 1, scroll, w, h, supported, fits);
        match image_action(ps[k - 1], scroll, w, h, supported, fits[k - 1]) {
            Some(a) => rest.push(((k - 1) as usize, a)),
            None => rest,
        }
    }
}

/// What to do for the images of the preview: nothing for an empty box,
/// otherwise an action for each image that needs one, in order.
pub open spec fn overlay_spec(
    ps: Seq<PlacementView>,
    scroll: usize,
    w: u16,
    h: u16,
    supported: bool,
    fits: Seq<Option<(u16, u16)>>,
) -> Seq<(usize, ImageAction)> {
    if w == 0 || h == 0 {
        seq![]
    } else {
        overlay_from(ps, ps.len() as int, scroll, w, h, supported, fits)
    }
}

/// What to do for the images of the preview scrolled to `scroll`, in a
/// content box of `w` by `h` cells; `fits[i]` is the size image `i` takes
/// in that box, `None` when it cannot be loaded.
pub fn overlay_plan(
    placements: &Vec<ImagePlacement>,
    scroll: usize,
    w: u16,
    h: u16,
    supported: bool,
    fits: &Vec<Option<(u16, u16)>>,
) -> (r: Vec<(usize, ImageAction)>)
    requires
        fits.len() == placements.len(),
        scroll + h <= usize::MAX,
        forall|i: int|
            0 <= i < placements.len() ==> placements[i].start + placements[i].rows <= usize::MAX
                && h + placements[i].rows <= u16::MAX,
    ensures
        r@ == overlay_spec(placements.deep_view(), scroll, w, h, supported, fits@),
{
    let ghost pv = placements.deep_view();
    let mut out: Vec<(usize, ImageAction)> = Vec::new();
    if w == 0 || h == 0 {
        return out;
    }
    let view_end = scroll + h as usize;
    let mut i: usize = 0;
    while i < placements.len()
        invariant
            i <= placements.len(),
            fits.len() == placements.len(),
            pv == placements.deep_view(),
            w > 0 && h > 0,
            view_end == scroll + h,
            forall|j: int|
                0 <= j < placements.len() ==> placements[j].start + placements[j].rows
                    <= usize::MAX && h + placements[j].rows <= u16::MAX,
            out@ == overlay_from(pv, i as int, scroll, w, h, supported, fits@),
        decreases placements.len() - i,
    {
        let p = &placements[i];
        assert(p.deep_view() == pv[i as int]);
        let end = p.start + p.rows as usize;
        if !(end <= scroll || p.start >= view_end) {
            let row: usize = if p.start > scroll {
                p.start - scroll
            } else {
                0
            };
            let note_kind: Option<NoteKind>;
            let mut draw: Option<ImageAction> = None;
            if !supported {
                note_kind = Some(NoteKind::Unsupported);
            } else {
                match fits[i] {
                    Some((fw, fh)) => {
                        let height = if fh < p.rows {
                            fh
                        } else {
                            p.rows
                        };
                        if p.start < scroll || row + height as usize > h as usize {
                            note_kind = Some(NoteKind::Clipped);
                        } else {
                            note_kind = None;
                            draw = Some(
                                ImageAction::Draw {
                                    row: row as u16,
                                    width: if fw < w {
                                        fw
                                    } else {
                                        w
                                    },
                                    height,
                                },
                            );
                        }
                    },
                    None => {
                        note_kind = Some(NoteKind::Unavailable);
                    },
                }
            }
            match note_kind {
                Some(kind) => {
                    if row + 1 < h as usize {
                        out.push((i, ImageAction::Note { row: (row + 1) as u16, kind }));
                    }
                },
                None => {
                    if let Some(a) = draw {
                        out.push((i, a));
                    }
                },
            }
        }
        i += 1;
    }
    out
}

} // verus!
