//! Keys: what each key does to the editor in each of its modes, and the
//! key names that scripts use.
use vstd::prelude::*;
use crate::text::{chars_of, chars_are, to_ascii_lower, ascii_lower_seq};
use crate::markdown::outline_spec;
use crate::app::{
    App, ViewMode, FocusPane, LeaderMode, FileEntry, FileEntryView, insert_char_post,
    newline_post, backspace_post, delete_forward_post, move_cursor_post, move_page_post,
    line_end_post, scroll_preview_post, preview_end_post, undo_post, redo_post,
    enter_leader_post, exit_leader_post, show_outline_post, toggle_collapse_post,
    start_picker_post, cancel_picker_post, move_picker_post, apply_picker_post,
    toggle_chrome_post, cycle_cursor_post, jump_post, open_selected_post, parent_post,
    save_request_post,
};

verus! {

/// A key, as the editor tells keys apart.
#[derive(Clone, Copy, Debug, PartialEq, Eq, Structural)]
pub enum KeyName {
    Esc,
    Enter,
    Backspace,
    Delete,
    Tab,
    Up,
    Down,
    Left,
    Right,
    PageUp,
    PageDown,
    Home,
    End,
    Char(char),
    Other,
}

/// A key press: the key, and which modifiers are held (`other` for any
/// modifier besides Shift and Control).
#[derive(Clone, Copy, Debug, PartialEq, Eq, Structural)]
pub struct KeyInput {
    pub code: KeyName,
    pub shift: bool,
    pub control: bool,
    pub other: bool,
}

/// What the caller has to do after a key: nothing, write the document to a
/// file (then call [`App::saved`] with `close_mode`), or read a file (then
/// call [`App::open_file`]).
#[derive(Clone, Debug, PartialEq, Eq)]
pub enum Effect {
    Nothing,
    Save { path: String, close_mode: bool },
    Open(String),
}

/// A key with no modifier.
pub open spec fn bare(code: KeyName) -> KeyInput {
    KeyInput { code, shift: false, control: false, other: false }
}

/// A character typed with Control held.
pub open spec fn with_ctrl(c: char) -> KeyInput {
    KeyInput { code: KeyName::Char(c), shift: false, control: true, other: false }
}

/// A key that types its character: no modifier, or Shift alone.
pub open spec fn typing(k: KeyInput) -> bool {
    !k.control && !k.other
}

// ---------------------------------------------------------------------
// Script key names

/// The key a lower-case script name stands for.
pub open spec fn named_key(l: Seq<char>) -> Option<KeyInput> {
    if l == "esc"@ || l == "escape"@ {
        Some(bare(KeyName::Esc))
    } else if l == "enter"@ || l == "return"@ {
        Some(bare(KeyName::Enter))
    } else if l == "backspace"@ || l == "bs"@ {
        Some(bare(KeyName::Backspace))
    } else if l == "delete"@ || l == "del"@ {
        Some(bare(KeyName::Delete))
    } else if l == "tab"@ {
        Some(bare(KeyName::Tab))
    } else if l == "up"@ {
        Some(bare(KeyName::Up))
    } else if l == "down"@ {
        Some(bare(KeyName::Down))
    } else if l == "left"@ {
        Some(bare(KeyName::Left))
    } else if l == "right"@ {
        Some(bare(KeyName::Right))
    } else if l == "pageup"@ || l == "pgup"@ {
        Some(bare(KeyName::PageUp))
    } else if l == "pagedown"@ || l == "pgdn"@ {
        Some(bare(KeyName::PageDown))
    } else if l == "home"@ {
        Some(bare(KeyName::Home))
    } else if l == "end"@ {
        Some(bare(KeyName::End))
    } else if l == "ctrl+x"@ || l == "c-x"@ || l == "^x"@ {
        Some(with_ctrl('x'))
    } else if l == "ctrl+e"@ || l == "c-e"@ || l == "^e"@ {
        Some(with_ctrl('e'))
    } else if l == "ctrl+v"@ || l == "c-v"@ || l == "^v"@ {
        Some(with_ctrl('v'))
    } else if l == "ctrl+f"@ || l == "c-f"@ || l == "^f"@ {
        Some(with_ctrl('f'))
    } else if l == "ctrl+q"@ || l == "c-q"@ || l == "^q"@ {
        Some(with_ctrl('q'))
    } else if l == "ctrl+s"@ || l == "c-s"@ || l == "^s"@ {
        Some(with_ctrl('s'))
    } else if l == "ctrl+z"@ || l == "c-z"@ || l == "^z"@ {
        Some(with_ctrl('z'))
    } else if l == "ctrl+y"@ || l == "c-y"@ || l == "^y"@ {
        Some(with_ctrl('y'))
    } else {
        None
    }
}

/// The key a script names: a key name in any case, or else one character
/// typed as it is; `None` for anything else.
pub open spec fn script_key_spec(raw: Seq<char>) -> Option<KeyInput> {
    match named_key(ascii_lower_seq(raw)) {
        Some(k) => Some(k),
        None => if raw.len() == 1 {
            Some(bare(KeyName::Char(raw[0])))
        } else {
            None
        },
    }
}

/// The key a script names (`esc`, `enter`, `pgdn`, `ctrl+e`, `^s`, a
/// single character, ...); `None` for an unknown name.
pub fn parse_script_key(raw: &str) -> (r: Option<KeyInput>)
    ensures
        r == script_key_spec(raw@),
{
    let chars = chars_of(raw);
    let l = to_ascii_lower(&chars);
    let k = if chars_are(&l, "esc") || chars_are(&l, "escape") {
        Some(KeyName::Esc)
    } else if chars_are(&l, "enter") || chars_are(&l, "return") {
        Some(KeyName::Enter)
    } else if chars_are(&l, "backspace") || chars_are(&l, "bs") {
        Some(KeyName::Backspace)
    } else if chars_are(&l, "delete") || chars_are(&l, "del") {
        Some(KeyName::Delete)
    } else if chars_are(&l, "tab") {
        Some(KeyName::Tab)
    } else if chars_are(&l, "up") {
        Some(KeyName::Up)
    } else if chars_are(&l, "down") {
        Some(KeyName::Down)
    } else if chars_are(&l, "left") {
        Some(KeyName::Left)
    } else if chars_are(&l, "right") {
        Some(KeyName::Right)
    } else if chars_are(&l, "pageup") || chars_are(&l, "pgup") {
        Some(KeyName::PageUp)
    } else if chars_are(&l, "pagedown") || chars_are(&l, "pgdn") {
        Some(KeyName::PageDown)
    } else if chars_are(&l, "home") {
        Some(KeyName::Home)
    } else if chars_are(&l, "end") {
        Some(KeyName::End)
    } else {
        None
    };
    if let Some(code) = k {
        return Some(KeyInput { code, shift: false, control: false, other: false });
    }
    let c = if chars_are(&l, "ctrl+x") || chars_are(&l, "c-x") || chars_are(&l, "^x") {
        Some('x')
    } else if chars_are(&l, "ctrl+e") || chars_are(&l, "c-e") || chars_are(&l, "^e") {
        Some('e')
    } else if chars_are(&l, "ctrl+v") || chars_are(&l, "c-v") || chars_are(&l, "^v") {
        Some('v')
    } else if chars_are(&l, "ctrl+f") || chars_are(&l, "c-f") || chars_are(&l, "^f") {
        Some('f')
    } else if chars_are(&l, "ctrl+q") || chars_are(&l, "c-q") || chars_are(&l, "^q") {
        Some('q')
    } else if chars_are(&l, "ctrl+s") || chars_are(&l, "c-s") || chars_are(&l, "^s") {
        Some('s')
    } else if chars_are(&l, "ctrl+z") || chars_are(&l, "c-z") || chars_are(&l, "^z") {
        Some('z')
    } else if chars_are(&l, "ctrl+y") || chars_are(&l, "c-y") || chars_are(&l, "^y") {
        Some('y')
    } else {
        None
    };
    if let Some(ch) = c {
        return Some(KeyInput { code: KeyName::Char(ch), shift: false, control: true, other: false });
    }
    if chars.len() == 1 {
        Some(KeyInput { code: KeyName::Char(chars[0]), shift: false, control: false, other: false })
    } else {
        None
    }
}

// ---------------------------------------------------------------------
// What each key does

/// `n - 1`, not below zero.
pub open spec fn dec(n: usize) -> usize {
    if n > 0 {
        (n - 1) as usize
    } else {
        0
    }
}

/// `n + 1`, at most `last`.
pub open spec fn inc_to(n: usize, last: int) -> usize {
    if n + 1 < last {
        (n + 1) as usize
    } else {
        last as usize
    }
}

/// The last index of a list of `n` items (zero for an empty one).
pub open spec fn last_of(n: nat) -> int {
    if n > 1 {
        n - 1
    } else {
        0
    }
}

/// A save asked for: the document's path to write (and, with `close`, the
/// key-driven mode to end once written); without a path, the status says
/// it was skipped and, with `close`, the mode ends at once.
pub open spec fn save_post(a: App, b: App, e: Effect, close: bool) -> bool {
    match a.file_path {
        Some(p) => e == (Effect::Save { path: p, close_mode: close }) && b == a,
        None => {
            &&& e == Effect::Nothing
            &&& b.status@ == "No file path; save skipped"@
            &&& b == App {
                status: b.status,
                active_leader_mode: if close {
                    None
                } else {
                    a.active_leader_mode
                },
                ..a
            }
        },
    }
}

/// What a key does in the preview.
pub open spec fn preview_key_post(a: App, b: App, k: KeyInput) -> bool {
    match k.code {
        KeyName::Up => scroll_preview_post(a, b, -1),
        KeyName::Char('k') => scroll_preview_post(a, b, -1),
        KeyName::Down => scroll_preview_post(a, b, 1),
        KeyName::Char('j') => scroll_preview_post(a, b, 1),
        KeyName::PageUp => scroll_preview_post(a, b, -10),
        KeyName::PageDown => scroll_preview_post(a, b, 10),
        KeyName::Home => b == App { preview_scroll: 0, ..a },
        KeyName::End => preview_end_post(a, b),
        KeyName::Esc => b == App { focus: FocusPane::Editor, ..a },
        _ => b == a,
    }
}

/// What a key does in the editor: arrows, Home, End and the page keys
/// move; Esc returns to the preview; Enter, Backspace and Delete edit; Tab
/// types two spaces; a character typed without Control is inserted.
pub open spec fn edit_key_post(a: App, b: App, k: KeyInput) -> bool {
    match k.code {
        KeyName::Up => move_cursor_post(a, b, -1, 0),
        KeyName::Down => move_cursor_post(a, b, 1, 0),
        KeyName::Left => move_cursor_post(a, b, 0, -1),
        KeyName::Right => move_cursor_post(a, b, 0, 1),
        KeyName::Home => b == App { cursor_col: 0, ..a },
        KeyName::End => line_end_post(a, b),
        KeyName::PageUp => move_page_post(a, b, -1),
        KeyName::PageDown => move_page_post(a, b, 1),
        KeyName::Esc => {
            &&& b.status@ == "View: preview"@
            &&& b == App {
                mode: ViewMode::Preview,
                active_leader_mode: None,
                status: b.status,
                ..a
            }
        },
        KeyName::Enter => newline_post(a, b),
        KeyName::Backspace => backspace_post(a, b),
        KeyName::Delete => delete_forward_post(a, b),
        KeyName::Tab => exists|m: App| #[trigger]
            insert_char_post(a, m, ' ') && insert_char_post(m, b, ' '),
        KeyName::Char(c) => if typing(k) {
            insert_char_post(a, b, c)
        } else {
            b == a
        },
        KeyName::Other => b == a,
    }
}

/// What a key does in the outline: move the selection, jump to the
/// selected heading, or go back to the editor.
pub open spec fn outline_key_post(a: App, b: App, k: KeyInput) -> bool {
    let last = last_of(outline_spec(a.content@).len());
    match k.code {
        KeyName::Up => b == App { selected_outline: dec(a.selected_outline), ..a },
        KeyName::Char('k') => b == App { selected_outline: dec(a.selected_outline), ..a },
        KeyName::Down => b == App { selected_outline: inc_to(a.selected_outline, last), ..a },
        KeyName::Char('j') => b == App { selected_outline: inc_to(a.selected_outline, last), ..a },
        KeyName::Enter => jump_post(a, b),
        KeyName::Right => jump_post(a, b),
        KeyName::Esc => b == App { focus: FocusPane::Editor, ..a },
        KeyName::Left => b == App { focus: FocusPane::Editor, ..a },
        _ => b == a,
    }
}

/// What opening the selected entry asks for.
pub open spec fn open_effect(r: Option<String>) -> Effect {
    match r {
        Some(p) => Effect::Open(p),
        None => Effect::Nothing,
    }
}

/// What a key does in the file browser (listing `es`): move the selection,
/// open the selected entry, browse the parent, or go back to the editor.
pub open spec fn files_key_post(a: App, b: App, k: KeyInput, es: Seq<FileEntryView>, e: Effect) -> bool {
    let last = last_of(es.len());
    match k.code {
        KeyName::Enter => exists|r: Option<String>| #[trigger]
            open_selected_post(a, b, es, r) && e == open_effect(r),
        KeyName::Right => exists|r: Option<String>| #[trigger]
            open_selected_post(a, b, es, r) && e == open_effect(r),
        _ => e == Effect::Nothing && match k.code {
            KeyName::Up => b == App { selected_file: dec(a.selected_file), ..a },
            KeyName::Char('k') => b == App { selected_file: dec(a.selected_file), ..a },
            KeyName::Down => b == App { selected_file: inc_to(a.selected_file, last), ..a },
            KeyName::Char('j') => b == App { selected_file: inc_to(a.selected_file, last), ..a },
            KeyName::Left => parent_post(a, b, es),
            KeyName::Esc => b == App { focus: FocusPane::Editor, ..a },
            _ => b == a,
        },
    }
}

/// What a key does in the theme picker.
pub open spec fn picker_key_post(a: App, b: App, k: KeyInput) -> bool {
    match k.code {
        KeyName::Esc => cancel_picker_post(a, b),
        KeyName::Char('q') => cancel_picker_post(a, b),
        KeyName::Enter => apply_picker_post(a, b),
        KeyName::Up => move_picker_post(a, b, -1),
        KeyName::Char('k') => move_picker_post(a, b, -1),
        KeyName::Down => move_picker_post(a, b, 1),
        KeyName::Char('j') => move_picker_post(a, b, 1),
        _ => b == a,
    }
}

/// `b` without its key-driven mode ended.
pub open spec fn mode_kept(a: App, b: App) -> App {
    App { active_leader_mode: a.active_leader_mode, ..b }
}

/// What a key does in a key-driven mode: Esc or `q` leaves it; edit mode
/// adds `s` (save) and `w`, view mode adds `o`, `r`, `t`, `b` and `c`
/// (each ending the mode), files mode is the file browser; other keys act
/// as in the editor or the preview.
pub open spec fn active_key_post(a: App, b: App, k: KeyInput, es: Seq<FileEntryView>, e: Effect) -> bool {
    if k.code == KeyName::Esc || k.code == KeyName::Char('q') {
        exit_leader_post(a, b) && e == Effect::Nothing
    } else {
        match a.active_leader_mode {
            Some(LeaderMode::Edit) => match k.code {
                KeyName::Char('s') => save_post(a, b, e, true),
                KeyName::Char('w') => {
                    &&& e == Effect::Nothing
                    &&& b.status@ == "Wrap toggle: always on for preview"@
                    &&& b == App { status: b.status, active_leader_mode: None, ..a }
                },
                _ => edit_key_post(a, b, k) && e == Effect::Nothing,
            },
            Some(LeaderMode::View) => e == Effect::Nothing && match k.code {
                KeyName::Char('o') => b.active_leader_mode is None && show_outline_post(
                    a,
                    mode_kept(a, b),
                ),
                KeyName::Char('r') => b.active_leader_mode is None && toggle_collapse_post(
                    a,
                    mode_kept(a, b),
                ),
                KeyName::Char('t') => b.active_leader_mode is None && start_picker_post(
                    a,
                    mode_kept(a, b),
                ),
                KeyName::Char('b') => b.active_leader_mode is None && toggle_chrome_post(
                    a,
                    mode_kept(a, b),
                ),
                KeyName::Char('c') => b.active_leader_mode is None && cycle_cursor_post(
                    a,
                    mode_kept(a, b),
                ),
                _ => preview_key_post(a, b, k),
            },
            Some(LeaderMode::Files) => files_key_post(a, b, k, es, e),
            None => b == a && e == Effect::Nothing,
        }
    }
}

/// What a command after Ctrl+X does (the prefix ends either way): `e` and
/// `p` switch between editing and preview, `f` and `o` focus the files and
/// the outline, `b` and `r` collapse or expand the sidebar, `h` toggles
/// help, `s` saves, `u` and `y` undo and redo, `q` quits.
pub open spec fn command_post(a: App, b: App, ch: char, e: Effect) -> bool {
    let a1 = App { leader: false, ..a };
    if ch == 's' {
        save_post(a1, b, e, false)
    } else {
        &&& e == Effect::Nothing
        &&& if ch == 'e' {
            &&& b.status@ == "View: edit"@
            &&& b == App {
                mode: ViewMode::Edit,
                focus: FocusPane::Editor,
                status: b.status,
                ..a1
            }
        } else if ch == 'p' {
            &&& b.status@ == "View: preview"@
            &&& b == App {
                mode: ViewMode::Preview,
                focus: FocusPane::Editor,
                status: b.status,
                ..a1
            }
        } else if ch == 'f' {
            &&& b.status@ == "Files focused"@
            &&& b == App {
                sidebar_visible: true,
                sidebar_files: true,
                focus: FocusPane::Files,
                status: b.status,
                ..a1
            }
        } else if ch == 'o' {
            show_outline_post(a1, b)
        } else if ch == 'b' || ch == 'r' {
            toggle_collapse_post(a1, b)
        } else if ch == 'h' {
            b == App { show_help: !a.show_help, ..a1 }
        } else if ch == 'u' {
            undo_post(a1, b)
        } else if ch == 'y' {
            redo_post(a1, b)
        } else if ch == 'q' {
            b == App { should_quit: true, ..a1 }
        } else {
            &&& b.status@ == "Unknown command: "@ + seq![ch]
            &&& b == App { status: b.status, ..a1 }
        }
    }
}

/// What a key does after Ctrl+X: Esc cancels, a character is a command.
pub open spec fn leader_key_post(a: App, b: App, k: KeyInput, e: Effect) -> bool {
    match k.code {
        KeyName::Esc => {
            &&& e == Effect::Nothing
            &&& b.status@ == "Cancelled"@
            &&& b == App { leader: false, status: b.status, ..a }
        },
        KeyName::Char(ch) => command_post(a, b, ch, e),
        _ => b == a && e == Effect::Nothing,
    }
}

/// What a key does, given the file browser's listing `es`. Control with
/// `c` or `q` quits from anywhere; Control with `e`, `v` or `f` enters a
/// key-driven mode; Control with `s`, `z` or `y` saves, undoes or redoes;
/// Control with `x` starts a two-key command. Otherwise the key goes, in
/// this order, to a pending command, the theme picker, the help, a
/// key-driven mode, the focused file browser or outline, and last the
/// preview or the editor.
pub open spec fn handle_key_post(a: App, b: App, k: KeyInput, es: Seq<FileEntryView>, e: Effect) -> bool {
    if k.control && (k.code == KeyName::Char('c') || k.code == KeyName::Char('q')) {
        b == App { should_quit: true, ..a } && e == Effect::Nothing
    } else if k.control && k.code == KeyName::Char('e') {
        enter_leader_post(a, b, LeaderMode::Edit) && e == Effect::Nothing
    } else if k.control && k.code == KeyName::Char('v') {
        enter_leader_post(a, b, LeaderMode::View) && e == Effect::Nothing
    } else if k.control && k.code == KeyName::Char('f') {
        enter_leader_post(a, b, LeaderMode::Files) && e == Effect::Nothing
    } else if k.control && k.code == KeyName::Char('s') {
        save_post(a, b, e, false)
    } else if k.control && k.code == KeyName::Char('z') {
        undo_post(a, b) && e == Effect::Nothing
    } else if k.control && k.code == KeyName::Char('y') {
        redo_post(a, b) && e == Effect::Nothing
    } else if k.control && k.code == KeyName::Char('x') {
        &&& e == Effect::Nothing
        &&& b.status@
            == "Legacy Ctrl+X: e edit, v view, f files, o outline, t themes, c cursor"@
        &&& b == App { leader: true, status: b.status, ..a }
    } else if a.leader {
        leader_key_post(a, b, k, e)
    } else if a.theme_picker_mode {
        picker_key_post(a, b, k) && e == Effect::Nothing
    } else if a.show_help {
        &&& e == Effect::Nothing
        &&& if k.code == KeyName::Esc || k.code == KeyName::Char('h') {
            b == App { show_help: false, ..a }
        } else {
            b == a
        }
    } else if a.active_leader_mode is Some {
        active_key_post(a, b, k, es, e)
    } else if a.focus == FocusPane::Files {
        files_key_post(a, b, k, es, e)
    } else if a.focus == FocusPane::Outline {
        outline_key_post(a, b, k) && e == Effect::Nothing
    } else if a.mode == ViewMode::Preview {
        preview_key_post(a, b, k) && e == Effect::Nothing
    } else {
        edit_key_post(a, b, k) && e == Effect::Nothing
    }
}

// ---------------------------------------------------------------------
// Key handlers

/// Asks for a save.
fn save_key(app: &mut App, close: bool) -> (e: Effect)
    ensures
        save_post(*old(app), *final(app), e, close),
{
    match app.save() {
        Some(path) => Effect::Save { path, close_mode: close },
        None => {
            if close {
                app.active_leader_mode = None;
            }
            Effect::Nothing
        },
    }
}

fn preview_key(app: &mut App, k: KeyInput)
    ensures
        preview_key_post(*old(app), *final(app), k),
{
    match k.code {
        KeyName::Up => app.scroll_preview(-1),
        KeyName::Char('k') => app.scroll_preview(-1),
        KeyName::Down => app.scroll_preview(1),
        KeyName::Char('j') => app.scroll_preview(1),
        KeyName::PageUp => app.scroll_preview(-10),
        KeyName::PageDown => app.scroll_preview(10),
        KeyName::Home => app.preview_home(),
        KeyName::End => app.preview_end(),
        KeyName::Esc => {
            app.focus = FocusPane::Editor;
        },
        _ => {},
    }
}

fn edit_key(app: &mut App, k: KeyInput)
    requires
        old(app).cursor_col < usize::MAX - 1,
    ensures
        edit_key_post(*old(app), *final(app), k),
{
    match k.code {
        KeyName::Up => app.move_cursor(-1, 0),
        KeyName::Down => app.move_cursor(1, 0),
        KeyName::Left => app.move_cursor(0, -1),
        KeyName::Right => app.move_cursor(0, 1),
        KeyName::Home => app.line_home(),
        KeyName::End => app.line_end(),
        KeyName::PageUp => app.move_page(-1),
        KeyName::PageDown => app.move_page(1),
        KeyName::Esc => {
            app.mode = ViewMode::Preview;
            app.active_leader_mode = None;
            app.status = String::from_str("View: preview");
        },
        KeyName::Enter => app.newline(),
        KeyName::Backspace => app.backspace(),
        KeyName::Delete => app.delete_forward(),
        KeyName::Tab => {
            app.insert_char(' ');
            let ghost mid = *app;
            app.insert_char(' ');
            assert(insert_char_post(*old(app), mid, ' ') && insert_char_post(mid, *app, ' '));
        },
        KeyName::Char(c) => {
            if !k.control && !k.other {
                app.insert_char(c);
            }
        },
        KeyName::Other => {},
    }
}

fn outline_key(app: &mut App, k: KeyInput)
    ensures
        outline_key_post(*old(app), *final(app), k),
{
    let n = app.outline().len();
    let last = if n > 1 {
        n - 1
    } else {
        0
    };
    match k.code {
        KeyName::Up | KeyName::Char('k') => {
            app.selected_outline = app.selected_outline.saturating_sub(1);
        },
        KeyName::Down | KeyName::Char('j') => {
            app.selected_outline = if app.selected_outline < last {
                app.selected_outline + 1
            } else {
                last
            };
        },
        KeyName::Enter | KeyName::Right => app.jump_to_selected_outline(),
        KeyName::Esc | KeyName::Left => {
            app.focus = FocusPane::Editor;
        },
        _ => {},
    }
}

fn files_key(app: &mut App, k: KeyInput, entries: &Vec<FileEntry>) -> (e: Effect)
    ensures
        files_key_post(*old(app), *final(app), k, entries.deep_view(), e),
{
    let n = entries.len();
    let last = if n > 1 {
        n - 1
    } else {
        0
    };
    match k.code {
        KeyName::Up | KeyName::Char('k') => {
            app.selected_file = app.selected_file.saturating_sub(1);
            Effect::Nothing
        },
        KeyName::Down | KeyName::Char('j') => {
            app.selected_file = if app.selected_file < last {
                app.selected_file + 1
            } else {
                last
            };
            Effect::Nothing
        },
        KeyName::Enter | KeyName::Right => {
            let r = app.open_selected_file(entries);
            let ghost rv = r;
            let e = match r {
                Some(p) => Effect::Open(p),
                None => Effect::Nothing,
            };
            assert(open_selected_post(*old(app), *app, entries.deep_view(), rv) && e
                == open_effect(rv));
            e
        },
        KeyName::Left => {
            app.file_browser_parent(entries);
            Effect::Nothing
        },
        KeyName::Esc => {
            app.focus = FocusPane::Editor;
            Effect::Nothing
        },
        _ => Effect::Nothing,
    }
}

fn picker_key(app: &mut App, k: KeyInput)
    ensures
        picker_key_post(*old(app), *final(app), k),
{
    match k.code {
        KeyName::Esc | KeyName::Char('q') => app.cancel_theme_picker(),
        KeyName::Enter => app.apply_selected_theme_preview(),
        KeyName::Up | KeyName::Char('k') => app.move_theme_selection(-1),
        KeyName::Down | KeyName::Char('j') => app.move_theme_selection(1),
        _ => {},
    }
}

fn active_key(app: &mut App, k: KeyInput, entries: &Vec<FileEntry>) -> (e: Effect)
    requires
        old(app).cursor_col < usize::MAX - 1,
    ensures
        active_key_post(*old(app), *final(app), k, entries.deep_view(), e),
{
    if k.code == KeyName::Esc || k.code == KeyName::Char('q') {
        app.exit_active_leader_mode();
        return Effect::Nothing;
    }
    match app.active_leader_mode {
        Some(LeaderMode::Edit) => match k.code {
            KeyName::Char('s') => save_key(app, true),
            KeyName::Char('w') => {
                app.status = String::from_str("Wrap toggle: always on for preview");
                app.active_leader_mode = None;
                Effect::Nothing
            },
            _ => {
                edit_key(app, k);
                Effect::Nothing
            },
        },
        Some(LeaderMode::View) => {
            match k.code {
                KeyName::Char('o') => {
                    app.show_outline();
                    app.active_leader_mode = None;
                },
                KeyName::Char('r') => {
                    app.toggle_sidebar_collapse();
                    app.active_leader_mode = None;
                },
                KeyName::Char('t') => {
                    app.start_theme_picker();
                    app.active_leader_mode = None;
                },
                KeyName::Char('b') => {
                    app.toggle_boxed_chrome();
                    app.active_leader_mode = None;
                },
                KeyName::Char('c') => {
                    app.cycle_cursor_style();
                    app.active_leader_mode = None;
                },
                _ => preview_key(app, k),
            }
            Effect::Nothing
        },
        Some(LeaderMode::Files) => files_key(app, k, entries),
        None => Effect::Nothing,
    }
}

impl App {
    /// Runs a command given after Ctrl+X.
    #[verifier::rlimit(100)]
    #[verifier::spinoff_prover]
    pub fn command(&mut self, key: char) -> (e: Effect)
        ensures
            command_post(*old(self), *final(self), key, e),
    {
        self.leader = false;
        match key {
            'e' => {
                self.mode = ViewMode::Edit;
                self.focus = FocusPane::Editor;
                self.status = String::from_str("View: edit");
                Effect::Nothing
            },
            'p' => {
                self.mode = ViewMode::Preview;
                self.focus = FocusPane::Editor;
                self.status = String::from_str("View: preview");
                Effect::Nothing
            },
            'f' => {
                self.sidebar_visible = true;
                self.sidebar_files = true;
                self.focus = FocusPane::Files;
                self.status = String::from_str("Files focused");
                Effect::Nothing
            },
            'o' => {
                self.show_outline();
                Effect::Nothing
            },
            'b' | 'r' => {
                self.toggle_sidebar_collapse();
                Effect::Nothing
            },
            'h' => {
                self.show_help = !self.show_help;
                Effect::Nothing
            },
            's' => save_key(self, false),
            'u' => {
                self.undo();
                Effect::Nothing
            },
            'y' => {
                self.redo();
                Effect::Nothing
            },
            'q' => {
                self.should_quit = true;
                Effect::Nothing
            },
            _ => {
                let mut status = String::from_str("Unknown command: ");
                crate::text::push_char(&mut status, key);
                assert(status@ =~= "Unknown command: "@ + seq![key]);
                self.status = status;
                Effect::Nothing
            },
        }
    }
}

/// A key that acts the same in every mode: Control with `c`, `q`, `e`,
/// `v`, `f`, `s`, `z`, `y` or `x`.
pub open spec fn global_key(k: KeyInput) -> bool {
    k.control && match k.code {
        KeyName::Char(c) => c == 'c' || c == 'q' || c == 'e' || c == 'v' || c == 'f' || c == 's'
            || c == 'z' || c == 'y' || c == 'x',
        _ => false,
    }
}

fn control_key(app: &mut App, k: KeyInput) -> (e: Effect)
    requires
        global_key(k),
    ensures
        handle_key_post(*old(app), *final(app), k, seq![], e),
{
    match k.code {
        KeyName::Char('e') => {
            app.enter_leader_mode(LeaderMode::Edit);
            Effect::Nothing
        },
        KeyName::Char('v') => {
            app.enter_leader_mode(LeaderMode::View);
            Effect::Nothing
        },
        KeyName::Char('f') => {
            app.enter_leader_mode(LeaderMode::Files);
            Effect::Nothing
        },
        KeyName::Char('s') => save_key(app, false),
        KeyName::Char('z') => {
            app.undo();
            Effect::Nothing
        },
        KeyName::Char('y') => {
            app.redo();
            Effect::Nothing
        },
        KeyName::Char('x') => {
            app.leader = true;
            app.status = String::from_str(
                "Legacy Ctrl+X: e edit, v view, f files, o outline, t themes, c cursor",
            );
            Effect::Nothing
        },
        _ => {
            app.should_quit = true;
            Effect::Nothing
        },
    }
}

#[verifier::rlimit(40)]
fn routed_key(app: &mut App, k: KeyInput, entries: &Vec<FileEntry>) -> (e: Effect)
    requires
        !global_key(k),
        old(app).cursor_col < usize::MAX - 1,
    ensures
        handle_key_post(*old(app), *final(app), k, entries.deep_view(), e),
{
    if app.leader {
        return match k.code {
            KeyName::Esc => {
                app.leader = false;
                app.status = String::from_str("Cancelled");
                Effect::Nothing
            },
            KeyName::Char(ch) => app.command(ch),
            _ => Effect::Nothing,
        };
    }
    if app.theme_picker_mode {
        picker_key(app, k);
        return Effect::Nothing;
    }
    if app.show_help {
        if k.code == KeyName::Esc || k.code == KeyName::Char('h') {
            app.show_help = false;
        }
        return Effect::Nothing;
    }
    if app.active_leader_mode.is_some() {
        return active_key(app, k, entries);
    }
    if app.focus == FocusPane::Files {
        return files_key(app, k, entries);
    }
    if app.focus == FocusPane::Outline {
        outline_key(app, k);
        return Effect::Nothing;
    }
    if app.mode == ViewMode::Preview {
        preview_key(app, k);
    } else {
        edit_key(app, k);
    }
    Effect::Nothing
}

/// Acts on a key press. `entries` is what the file browser lists for the
/// directory it shows ([`App::file_entries`]); the result says what the
/// caller has to write or read.
pub fn handle_key(app: &mut App, key: KeyInput, entries: &Vec<FileEntry>) -> (e: Effect)
    requires
        old(app).cursor_col < usize::MAX - 1,
    ensures
        handle_key_post(*old(app), *final(app), key, entries.deep_view(), e),
{
    let global = key.control && match key.code {
        KeyName::Char(c) => c == 'c' || c == 'q' || c == 'e' || c == 'v' || c == 'f' || c == 's'
            || c == 'z' || c == 'y' || c == 'x',
        _ => false,
    };
    if global {
        control_key(app, key)
    } else {
        routed_key(app, key, entries)
    }
}


/// Ctrl+Q quits, Ctrl+S asks to write the document to its file, and
/// Ctrl+Z and Ctrl+Y undo and redo, whatever state the editor is in.
pub proof fn law_global_keys_anywhere(a: App, b: App, k: KeyInput, es: Seq<FileEntryView>, e: Effect)
    requires
        handle_key_post(a, b, k, es, e),
        k.control,
    ensures
        k.code == KeyName::Char('q') ==> b.should_quit && e == Effect::Nothing,
        k.code == KeyName::Char('s') && a.file_path is Some ==> b == a && e == (Effect::Save {
            path: a.file_path->0,
            close_mode: false,
        }),
        k.code == KeyName::Char('z') ==> undo_post(a, b),
        k.code == KeyName::Char('y') ==> redo_post(a, b),
{
}

} // verus!
