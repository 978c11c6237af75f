use poneglyph::app::{App, FileEntry, ViewMode, FocusPane, selected_window, is_markdown_name};
use poneglyph::config::AppConfig;
use poneglyph::app::CursorStyle;

fn fresh() -> App {
    App::new(String::from("/work"))
}

#[test]
fn edits_text_like_basic_md_editor_operations() {
    let mut app = fresh();
    app.content = "abc".into();
    app.cursor_col = 1;
    app.insert_char('X');
    assert_eq!(app.content, "aXbc");
    app.backspace();
    assert_eq!(app.content, "abc");
    app.newline();
    assert_eq!(app.content, "a\nbc");
}

#[test]
fn stats_match_expected() {
    let mut app = fresh();
    app.content = "one two\nthree".into();
    let stats = app.stats();
    assert_eq!(stats.lines, 2);
    assert_eq!(stats.words, 3);
}

#[test]
fn undo_redo_round_trip() {
    let mut app = fresh();
    app.content = "abc".into();
    app.cursor_col = 3;
    app.insert_char('d');
    assert_eq!(app.content, "abcd");
    app.undo();
    assert_eq!(app.content, "abc");
    app.redo();
    assert_eq!(app.content, "abcd");
}

#[test]
fn new_app_starts_in_preview_on_the_welcome_text() {
    let app = fresh();
    assert_eq!(app.mode, ViewMode::Preview);
    assert_eq!(app.focus, FocusPane::Editor);
    assert!(app.content.starts_with("# Welcome"));
    assert_eq!(app.status, "Markdown viewer: Ctrl+X for commands");
    assert_eq!(app.theme_name, "slate");
    assert_eq!(app.file_browser_cwd, "/work");
}

#[test]
fn stats_count_characters_and_an_empty_document() {
    let mut app = fresh();
    app.content = String::new();
    let stats = app.stats();
    assert_eq!(stats.lines, 1);
    assert_eq!(stats.chars, 0);
    assert_eq!(stats.words, 0);
    app.content = "  a\tb\n\nc  ".into();
    let stats = app.stats();
    assert_eq!(stats.lines, 3);
    assert_eq!(stats.chars, 10);
    assert_eq!(stats.words, 3);
}

#[test]
fn undo_right_after_an_edit_restores_document_and_cursor() {
    let mut app = fresh();
    app.content = "one\ntwo".into();
    app.cursor_line = 1;
    app.cursor_col = 2;
    app.newline();
    assert_eq!(app.content, "one\ntw\no");
    assert_eq!((app.cursor_line, app.cursor_col), (2, 0));
    app.undo();
    assert_eq!(app.content, "one\ntwo");
    assert_eq!((app.cursor_line, app.cursor_col), (1, 2));
    assert_eq!(app.status, "Undo");
    app.redo();
    assert_eq!(app.content, "one\ntw\no");
    assert_eq!(app.status, "Redo");
}

#[test]
fn undo_and_redo_without_history_only_say_so() {
    let mut app = fresh();
    let before = app.content.clone();
    app.undo();
    assert_eq!(app.status, "Nothing to undo");
    app.redo();
    assert_eq!(app.status, "Nothing to redo");
    assert_eq!(app.content, before);
    assert!(!app.modified);
}

#[test]
fn undo_history_keeps_two_hundred_snapshots() {
    let mut app = fresh();
    app.content = String::new();
    for _ in 0..205 {
        app.insert_char('x');
    }
    assert_eq!(app.undo_stack.len(), 200);
    for _ in 0..200 {
        app.undo();
    }
    assert_eq!(app.content, "xxxxx");
    app.undo();
    assert_eq!(app.status, "Nothing to undo");
}

#[test]
fn backspace_after_insert_gives_the_text_back() {
    let mut app = fresh();
    app.content = "héllo\nworld".into();
    app.cursor_line = 0;
    app.cursor_col = 2;
    app.insert_char('ß');
    assert_eq!(app.content, "héßllo\nworld");
    app.backspace();
    assert_eq!(app.content, "héllo\nworld");
    assert_eq!(app.cursor_col, 2);
}

#[test]
fn backspace_at_line_start_joins_lines_and_delete_forward_at_end_joins_too() {
    let mut app = fresh();
    app.content = "ab\ncd".into();
    app.cursor_line = 1;
    app.cursor_col = 0;
    app.backspace();
    assert_eq!(app.content, "abcd");
    assert_eq!((app.cursor_line, app.cursor_col), (0, 2));
    app.content = "ab\ncd".into();
    app.cursor_line = 0;
    app.cursor_col = 2;
    app.delete_forward();
    assert_eq!(app.content, "abcd");
    assert_eq!((app.cursor_line, app.cursor_col), (0, 2));
}

#[test]
fn cursor_moves_are_clamped_to_display_width() {
    let mut app = fresh();
    app.content = "日本\nab".into();
    app.cursor_line = 0;
    app.cursor_col = 0;
    app.line_end();
    assert_eq!(app.cursor_col, 4);
    app.move_cursor(1, 0);
    assert_eq!((app.cursor_line, app.cursor_col), (1, 2));
    app.move_cursor(5, -10);
    assert_eq!((app.cursor_line, app.cursor_col), (1, 0));
    app.move_cursor(-9, 1);
    assert_eq!((app.cursor_line, app.cursor_col), (0, 1));
}

#[test]
fn editor_view_follows_the_cursor() {
    let mut app = fresh();
    app.content = (0..40).map(|i| format!("{i}")).collect::<Vec<_>>().join("\n");
    app.move_cursor(20, 0);
    assert_eq!(app.cursor_line, 20);
    assert_eq!(app.scroll, 9);
    app.move_cursor(-15, 0);
    assert_eq!(app.scroll, 5);
    app.move_page(1);
    assert_eq!(app.cursor_line, 15);
    assert_eq!(app.scroll, 13);
    app.move_page(-1);
    assert_eq!(app.cursor_line, 5);
    assert_eq!(app.scroll, 5);
}

#[test]
fn preview_scrolling_stays_within_the_document() {
    let mut app = fresh();
    app.content = "a\nb\nc".into();
    app.scroll_preview(10);
    assert_eq!(app.preview_scroll, 2);
    app.scroll_preview(-1);
    assert_eq!(app.preview_scroll, 1);
    app.scroll_preview(-10);
    assert_eq!(app.preview_scroll, 0);
    app.preview_end();
    assert_eq!(app.preview_scroll, app.max_preview_scroll());
    app.preview_home();
    assert_eq!(app.preview_scroll, 0);
}

#[test]
fn jump_to_heading_sets_cursor_views_and_status() {
    let mut app = fresh();
    app.content = "# A\n\n\n\n## Deep\nx".into();
    app.selected_outline = 1;
    app.jump_to_selected_outline();
    assert_eq!(app.cursor_line, 4);
    assert_eq!(app.scroll, 2);
    assert_eq!(app.preview_scroll, 2);
    assert_eq!(app.status, "Jumped to Deep");
    app.selected_outline = 7;
    app.jump_to_selected_outline();
    assert_eq!(app.status, "No heading selected");
}

#[test]
fn theme_picker_wraps_round_the_options() {
    let mut app = fresh();
    app.start_theme_picker();
    assert!(app.theme_picker_mode);
    assert_eq!(app.theme_picker_index, 0);
    app.move_theme_selection(-1);
    assert_eq!(app.theme_picker_index, 1);
    app.move_theme_selection(1);
    assert_eq!(app.theme_picker_index, 0);
    app.move_theme_selection(-3);
    assert_eq!(app.theme_picker_index, 1);
    app.apply_selected_theme_preview();
    assert_eq!(app.theme_name, "tokyo-night");
    assert_eq!(app.status, "Theme preview -> tokyo-night");
    app.cancel_theme_picker();
    assert!(!app.theme_picker_mode);
}

#[test]
fn cursor_styles_cycle_through_all_five() {
    let mut app = fresh();
    let mut seen = Vec::new();
    for _ in 0..5 {
        app.cycle_cursor_style();
        seen.push(app.cursor_style);
    }
    assert_eq!(
        seen,
        vec![
            CursorStyle::Bar,
            CursorStyle::Underline,
            CursorStyle::Box,
            CursorStyle::Brackets,
            CursorStyle::Block
        ]
    );
    assert_eq!(app.status, "Cursor: block");
}

fn item(name: &str, is_dir: bool) -> FileEntry {
    FileEntry { name: name.into(), path: format!("/work/{name}"), is_dir }
}

#[test]
fn file_entries_list_parent_and_sorted_dirs_then_markdown_files() {
    let app = fresh();
    let listing = vec![
        item("zeta.md", false),
        item("notes", true),
        item("image.png", false),
        item("alpha.markdown", false),
        item("-draft", true),
        item(".hidden.md", false),
        item(".md", false),
        item("page.mdx", false),
    ];
    let entries = app.file_entries(String::from("/"), &listing);
    let names: Vec<&str> = entries.iter().map(|e| e.name.as_str()).collect();
    assert_eq!(
        names,
        vec!["-draft/", "../", "notes/", ".hidden.md", "alpha.markdown", "page.mdx", "zeta.md"]
    );
    assert_eq!(entries[1].path, "/");
    assert!(entries[1].is_dir);
}

#[test]
fn markdown_names_follow_the_last_extension() {
    assert!(is_markdown_name("a.md"));
    assert!(is_markdown_name("a.b.mdx"));
    assert!(!is_markdown_name(".md"));
    assert!(!is_markdown_name("md"));
    assert!(!is_markdown_name("a.md.txt"));
    assert!(!is_markdown_name("a.MD"));
}

#[test]
fn opening_entries_browses_directories_and_asks_to_read_files() {
    let mut app = fresh();
    let entries = vec![item("sub/", true), item("doc.md", false)];
    app.selected_file = 1;
    assert_eq!(app.open_selected_file(&entries), Some(String::from("/work/doc.md")));
    app.selected_file = 0;
    assert_eq!(app.open_selected_file(&entries), None);
    assert_eq!(app.file_browser_cwd, "/work/sub/");
    assert_eq!(app.selected_file, 0);
    app.selected_file = 9;
    assert_eq!(app.open_selected_file(&entries), None);
}

#[test]
fn open_file_resets_the_editor_on_the_new_document() {
    let mut app = fresh();
    app.insert_char('x');
    app.cursor_line = 3;
    app.open_file("/d/n.md".into(), "/d".into(), "# N".into());
    assert_eq!(app.content, "# N");
    assert_eq!(app.file_path.as_deref(), Some("/d/n.md"));
    assert_eq!(app.file_browser_cwd, "/d");
    assert_eq!(app.status, "Opened /d/n.md");
    assert_eq!(app.cursor_line, 0);
    assert!(app.undo_stack.is_empty());
    assert!(!app.modified);
}

#[test]
fn save_without_a_path_is_skipped_and_with_one_asks_to_write() {
    let mut app = fresh();
    assert_eq!(app.save(), None);
    assert_eq!(app.status, "No file path; save skipped");
    app.file_path = Some("/d/x.md".into());
    app.modified = true;
    assert_eq!(app.save(), Some(String::from("/d/x.md")));
    app.saved("/d/x.md", false);
    assert!(!app.modified);
    assert_eq!(app.status, "Saved /d/x.md");
}

#[test]
fn parent_entry_is_browsed_to() {
    let mut app = fresh();
    let entries = vec![item("a/", true), FileEntry { name: "../".into(), path: "/".into(), is_dir: true }];
    app.selected_file = 1;
    app.file_browser_parent(&entries);
    assert_eq!(app.file_browser_cwd, "/");
    assert_eq!(app.selected_file, 0);
}

#[test]
fn visible_entries_are_cut_to_the_height() {
    let app = fresh();
    let entries = vec![item("a", false), item("b", false), item("c", false)];
    assert_eq!(app.visible_file_entries(&entries, 2).len(), 2);
    assert_eq!(app.visible_file_entries(&entries, 0).len(), 1);
    assert_eq!(app.visible_file_entries(&entries, 9).len(), 3);
}

#[test]
fn selection_window_keeps_the_selection_in_view() {
    assert_eq!(selected_window(10, 0, 4), (0, 4));
    assert_eq!(selected_window(10, 5, 4), (2, 6));
    assert_eq!(selected_window(10, 9, 4), (6, 10));
    assert_eq!(selected_window(3, 2, 4), (0, 3));
    assert_eq!(selected_window(5, 3, 0), (3, 4));
}

#[test]
fn configuration_preferences_are_applied() {
    let mut app = fresh();
    let cfg = AppConfig {
        theme: Some("tokyo-night".into()),
        cursor_style: Some(CursorStyle::Underline),
        boxed_chrome: Some(false),
        theme_swatch_style: None,
        theme_swatch_spacing: Some(3),
        allow_remote_images: None,
    };
    app.apply_config(&cfg);
    assert_eq!(app.theme_name, "tokyo-night");
    assert_eq!(app.cursor_style, CursorStyle::Underline);
    assert!(!app.boxed_chrome);
    assert_eq!(app.theme_swatch_spacing, 3);
    assert!(!app.allow_remote_images);
}
