use poneglyph::app::{App, CursorStyle, FileEntry, FocusPane, LeaderMode, ViewMode};
use poneglyph::keys::{handle_key, parse_script_key, Effect, KeyInput, KeyName};

fn key(raw: &str) -> KeyInput {
    parse_script_key(raw).unwrap()
}

fn replay(app: &mut App, keys: &[&str]) {
    for raw in keys {
        handle_key(app, key(raw), &Vec::new());
    }
}

fn fresh() -> App {
    App::new(String::from("."))
}

#[test]
fn leader_edit_type_escape_returns_to_preview_without_leaking_command_chars() {
    let mut app = fresh();
    app.content = "abc".into();
    replay(&mut app, &["ctrl+e", "H", "i", "esc"]);
    assert_eq!(app.mode, ViewMode::Preview);
    assert_eq!(app.content, "Hiabc");
    assert!(!app.leader);
    assert!(!app.content.contains("xe"));
}

#[test]
fn quit_commands_work_from_preview_and_edit_modes() {
    let mut preview = fresh();
    replay(&mut preview, &["ctrl+q"]);
    assert!(preview.should_quit);

    let mut edit = fresh();
    replay(&mut edit, &["ctrl+e", "ctrl+q"]);
    assert!(edit.should_quit);
}

#[test]
fn global_undo_redo_work_while_in_preview() {
    let mut app = fresh();
    app.content = "abc".into();
    replay(&mut app, &["ctrl+e", "d", "esc", "ctrl+z"]);
    assert_eq!(app.content, "abc");
    replay(&mut app, &["ctrl+y"]);
    assert_eq!(app.content, "dabc");
}

#[test]
fn files_focus_escape_returns_to_editor_focus() {
    let mut app = fresh();
    replay(&mut app, &["ctrl+f"]);
    assert_eq!(app.focus, FocusPane::Files);
    assert_eq!(app.active_leader_mode, Some(LeaderMode::Files));
    replay(&mut app, &["esc"]);
    assert_eq!(app.focus, FocusPane::Editor);
    assert_eq!(app.active_leader_mode, None);
}

#[test]
fn view_mode_theme_picker_applies_selected_theme() {
    let mut app = fresh();
    replay(&mut app, &["ctrl+v", "t", "up", "enter"]);
    assert_ne!(app.theme_name, "slate");
    assert!(app.theme_picker_mode);
    assert!(app.status.starts_with("Theme preview -> "));
}

#[test]
fn view_mode_border_command_toggles_boxed_chrome() {
    let mut app = fresh();
    assert!(app.boxed_chrome);
    replay(&mut app, &["ctrl+v", "b"]);
    assert!(!app.boxed_chrome);
    assert_eq!(app.active_leader_mode, None);
}

#[test]
fn view_mode_cursor_command_cycles_cursor_style() {
    let mut app = fresh();
    assert_eq!(app.cursor_style, CursorStyle::Block);
    replay(&mut app, &["ctrl+v", "c"]);
    assert_eq!(app.cursor_style, CursorStyle::Bar);
    assert_eq!(app.active_leader_mode, None);
}

#[test]
fn outline_focus_can_jump_to_heading() {
    let mut app = fresh();
    app.content = "# A\nbody\n## B\ntext".into();
    replay(&mut app, &["ctrl+x", "o", "down", "enter"]);
    assert_eq!(app.focus, FocusPane::Editor);
    assert_eq!(app.cursor_line, 2);
    assert_eq!(app.preview_scroll, 0);
    assert_eq!(app.status, "Jumped to B");
}

#[test]
fn preview_scroll_keys_are_bounded_and_support_home_end() {
    let mut app = fresh();
    app.content = (0..5)
        .map(|i| format!("line {i}"))
        .collect::<Vec<_>>()
        .join("\n");
    replay(&mut app, &["pagedown", "pagedown", "end"]);
    assert_eq!(app.preview_scroll, 4);
    replay(&mut app, &["pagedown"]);
    assert_eq!(app.preview_scroll, 4);
    replay(&mut app, &["home"]);
    assert_eq!(app.preview_scroll, 0);
}

#[test]
fn edit_delete_key_removes_forward_character() {
    let mut app = fresh();
    app.content = "abc".into();
    replay(&mut app, &["ctrl+e", "right", "delete"]);
    assert_eq!(app.content, "ac");
}

#[test]
fn edit_home_end_and_page_keys_move_predictably() {
    let mut app = fresh();
    app.content = (0..30)
        .map(|i| format!("line {i}"))
        .collect::<Vec<_>>()
        .join("\n");
    replay(&mut app, &["ctrl+e", "pagedown", "end"]);
    assert_eq!(app.cursor_line, 10);
    assert_eq!(app.cursor_col, "line 10".len());
    assert!(app.scroll > 0);
    replay(&mut app, &["home", "pageup"]);
    assert_eq!(app.cursor_line, 0);
    assert_eq!(app.cursor_col, 0);
}

#[test]
fn script_key_names_are_case_insensitive_and_unknown_names_are_refused() {
    assert_eq!(key("ESC").code, KeyName::Esc);
    assert_eq!(key("PgDn").code, KeyName::PageDown);
    let k = key("^S");
    assert!(k.control);
    assert_eq!(k.code, KeyName::Char('s'));
    assert_eq!(key("Q").code, KeyName::Char('Q'));
    assert!(!key("Q").control);
    assert_eq!(key("é").code, KeyName::Char('é'));
    assert_eq!(parse_script_key("ctrl+w"), None);
    assert_eq!(parse_script_key(""), None);
    assert_eq!(parse_script_key("xy"), None);
}

#[test]
fn ctrl_s_asks_to_write_the_document_when_it_has_a_path() {
    let mut app = fresh();
    let e = handle_key(&mut app, key("ctrl+s"), &Vec::new());
    assert_eq!(e, Effect::Nothing);
    assert_eq!(app.status, "No file path; save skipped");
    app.file_path = Some("/tmp/a.md".into());
    let e = handle_key(&mut app, key("ctrl+s"), &Vec::new());
    assert_eq!(e, Effect::Save { path: "/tmp/a.md".into(), close_mode: false });
}

#[test]
fn edit_mode_save_closes_the_mode_once_written() {
    let mut app = fresh();
    app.file_path = Some("/tmp/a.md".into());
    replay(&mut app, &["ctrl+e"]);
    let e = handle_key(&mut app, key("s"), &Vec::new());
    assert_eq!(e, Effect::Save { path: "/tmp/a.md".into(), close_mode: true });
    assert_eq!(app.active_leader_mode, Some(LeaderMode::Edit));
    app.saved("/tmp/a.md", true);
    assert_eq!(app.active_leader_mode, None);
    assert_eq!(app.status, "Saved /tmp/a.md");
}

#[test]
fn enter_in_the_file_browser_opens_the_selected_file() {
    let mut app = fresh();
    let entries = vec![
        FileEntry { name: "../".into(), path: "/".into(), is_dir: true },
        FileEntry { name: "a.md".into(), path: "./a.md".into(), is_dir: false },
    ];
    replay(&mut app, &["ctrl+f"]);
    handle_key(&mut app, key("down"), &entries);
    handle_key(&mut app, key("down"), &entries);
    assert_eq!(app.selected_file, 1);
    let e = handle_key(&mut app, key("enter"), &entries);
    assert_eq!(e, Effect::Open("./a.md".into()));
    handle_key(&mut app, key("left"), &entries);
    assert_eq!(app.file_browser_cwd, "/");
    assert_eq!(app.selected_file, 0);
}

#[test]
fn unknown_leader_command_is_reported_and_help_toggles() {
    let mut app = fresh();
    replay(&mut app, &["ctrl+x", "z"]);
    assert_eq!(app.status, "Unknown command: z");
    assert!(!app.leader);
    replay(&mut app, &["ctrl+x", "h"]);
    assert!(app.show_help);
    replay(&mut app, &["j"]);
    assert!(app.show_help);
    replay(&mut app, &["h"]);
    assert!(!app.show_help);
    replay(&mut app, &["ctrl+x", "esc"]);
    assert_eq!(app.status, "Cancelled");
}

#[test]
fn tab_types_two_spaces_and_control_characters_are_not_typed() {
    let mut app = fresh();
    app.content = "x".into();
    replay(&mut app, &["ctrl+e", "tab"]);
    assert_eq!(app.content, "  x");
    let ctrl_a = KeyInput { code: KeyName::Char('a'), shift: false, control: true, other: false };
    handle_key(&mut app, ctrl_a, &Vec::new());
    assert_eq!(app.content, "  x");
    let shifted = KeyInput { code: KeyName::Char('A'), shift: true, control: false, other: false };
    handle_key(&mut app, shifted, &Vec::new());
    assert_eq!(app.content, "  Ax");
}
