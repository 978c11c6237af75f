use poneglyph::app::{App, CursorStyle, LeaderMode, ViewMode};
use poneglyph::ui::{compact_path, cursor_glyph, header_height, mode_label, scroll_status, split_at_char};

#[test]
fn header_height_follows_the_screen_size() {
    assert_eq!(header_height(120, 10), 1);
    assert_eq!(header_height(120, 40), 2);
    assert_eq!(header_height(80, 40), 3);
    assert_eq!(header_height(60, 40), 3);
    assert_eq!(header_height(60, 14), 3);
    assert_eq!(header_height(100, 14), 2);
}

#[test]
fn mode_label_names_what_keys_do_now() {
    let mut app = App::new(String::from("."));
    assert_eq!(mode_label(&app), "PREVIEW");
    app.mode = ViewMode::Edit;
    assert_eq!(mode_label(&app), "EDIT");
    app.leader = true;
    assert_eq!(mode_label(&app), "LEADER");
    app.active_leader_mode = Some(LeaderMode::View);
    assert_eq!(mode_label(&app), "VIEW");
}

#[test]
fn cursor_glyph_follows_the_style() {
    let mut app = App::new(String::from("."));
    assert_eq!(cursor_glyph(&app, "x"), "x");
    app.cursor_style = CursorStyle::Bar;
    assert_eq!(cursor_glyph(&app, "x"), "▏x");
    app.cursor_style = CursorStyle::Brackets;
    assert_eq!(cursor_glyph(&app, "x"), "[x]");
    app.cursor_style = CursorStyle::Underline;
    assert_eq!(cursor_glyph(&app, "x"), "x\u{332}");
}

#[test]
fn lines_split_at_character_columns() {
    assert_eq!(split_at_char("héllo", 2), ("hé".to_string(), "llo".to_string()));
    assert_eq!(split_at_char("ab", 5), ("ab".to_string(), String::new()));
}

#[test]
fn long_paths_keep_their_end() {
    assert_eq!(compact_path("/short", 40), "/short");
    let long = "/a/very/long/path/to/some/notes.md";
    let c = compact_path(long, 20);
    assert_eq!(c, "…me/notes.md");
    assert_eq!(c.chars().count(), 12);
    assert!(c.starts_with('…'));
    assert!(long.ends_with(&c.chars().skip(1).collect::<String>()));
}

#[test]
fn scroll_status_reports_percent_or_top_line() {
    let mut app = App::new(String::from("."));
    app.content = "a\nb\nc\nd\ne".into();
    app.preview_scroll = 2;
    assert_eq!(scroll_status(&app), "Scroll 50%");
    app.preview_scroll = 9;
    assert_eq!(scroll_status(&app), "Scroll 100%");
    app.mode = ViewMode::Edit;
    app.scroll = 6;
    assert_eq!(scroll_status(&app), "Top line 7");
}
