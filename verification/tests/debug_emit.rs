use poneglyph::app::{App, FileEntry, FocusPane, ViewMode};
use poneglyph::debug_emit::{
    editor_lines, help_lines, mark_cursor, outline_sidebar_lines, preview_lines,
    preview_plain_line, sidebar_lines, state, strip_inline_markers, wrap_line,
};

fn chars(s: &str) -> Vec<char> {
    s.chars().collect()
}

fn text(v: Vec<char>) -> String {
    v.into_iter().collect()
}

fn rows(v: Vec<Vec<char>>) -> Vec<String> {
    v.into_iter().map(text).collect()
}

fn app_with(content: &str) -> App {
    let mut app = App::new(String::from("/w"));
    app.content = content.into();
    app
}

#[test]
fn wrap_line_breaks_at_the_width_and_keeps_every_character() {
    assert_eq!(rows(wrap_line(&chars("abcdefg"), 3)), vec!["abc", "def", "g"]);
    assert_eq!(rows(wrap_line(&chars("日本語"), 3)), vec!["日", "本", "語"]);
    assert_eq!(rows(wrap_line(&chars(""), 3)), vec![""]);
    assert_eq!(rows(wrap_line(&chars("abc"), 0)), vec![""]);
    let raw = "the quick brown fox";
    assert_eq!(rows(wrap_line(&chars(raw), 4)).concat(), raw);
}

#[test]
fn cursor_is_drawn_in_brackets() {
    assert_eq!(text(mark_cursor(&chars("abc"), 1)), "a[b]c");
    assert_eq!(text(mark_cursor(&chars("abc"), 9)), "abc[ ]");
    assert_eq!(text(mark_cursor(&chars(""), 0)), "[ ]");
}

#[test]
fn inline_markers_are_stripped() {
    assert_eq!(text(strip_inline_markers(&chars("**bold** and `code` ***x"))), "bold and code *x");
}

#[test]
fn plain_preview_of_single_lines() {
    assert_eq!(text(preview_plain_line(&chars("## Title ##"))), "## Title ##");
    assert_eq!(text(preview_plain_line(&chars("  >> quoted "))), "▌ quoted");
    assert_eq!(text(preview_plain_line(&chars("___"))), "─".repeat(12));
    assert_eq!(text(preview_plain_line(&chars("a **b** `c`"))), "a b c");
}

#[test]
fn preview_viewport_wraps_and_cuts_to_the_box() {
    let mut app = app_with("# Head\nabcdefghij\nlast");
    let dump = preview_lines(&app, 6, 5);
    assert_eq!((dump.width, dump.height), (6, 5));
    assert_eq!(dump.lines, vec!["# He", "ad", "abcd"]);
    app.preview_scroll = 2;
    assert_eq!(preview_lines(&app, 6, 5).lines, vec!["last"]);
    app.preview_scroll = 9;
    assert!(preview_lines(&app, 6, 5).lines.is_empty());
}

#[test]
fn editor_viewport_numbers_lines_and_marks_the_cursor() {
    let mut app = app_with("ab\ncd\nef");
    app.cursor_line = 1;
    app.cursor_col = 1;
    app.mode = ViewMode::Edit;
    let dump = editor_lines(&app, 20, 4);
    assert_eq!(dump.lines, vec!["  1 ab", "  2 c[d]"]);
    let narrow = editor_lines(&app, 8, 10);
    assert_eq!(narrow.lines, vec!["  1 ab", "  2 c[", "    d]", "  3 ef"]);
}

#[test]
fn sidebar_shows_collapsed_help_files_or_outline() {
    let mut app = app_with("# A\n## B");
    app.file_path = Some("/w/x.md".into());
    let outline = rows(outline_sidebar_lines(&app));
    assert_eq!(
        outline,
        vec![
            "FILE INFO",
            "",
            "Path: /w/x.md",
            "Modified: No",
            "Lines: 2  Words: 4",
            "",
            "OUTLINE",
            "",
            "  A",
            "    B"
        ]
    );
    app.focus = FocusPane::Outline;
    app.selected_outline = 1;
    let dump = sidebar_lines(&app, &Vec::new(), 40, 30);
    assert_eq!(dump.lines[9], "> " .to_string() + "  B");
    app.sidebar_files = true;
    app.selected_file = 1;
    let entries = vec![
        FileEntry { name: "../".into(), path: "/".into(), is_dir: true },
        FileEntry { name: "x.md".into(), path: "/w/x.md".into(), is_dir: false },
    ];
    assert_eq!(sidebar_lines(&app, &entries, 40, 30).lines, vec!["  ../", "> x.md"]);
    app.show_help = true;
    assert_eq!(sidebar_lines(&app, &entries, 60, 30).lines.len(), help_lines().len());
    assert_eq!(sidebar_lines(&app, &entries, 40, 3).lines, vec!["HELP"]);
    app.sidebar_collapsed = true;
    assert_eq!(sidebar_lines(&app, &entries, 40, 30).lines, vec!["[ ]", "", "^X r"]);
}

#[test]
fn state_dump_copies_the_editor_state() {
    let mut app = app_with("hello");
    app.cursor_col = 3;
    app.file_path = Some("/w/h.md".into());
    let dump = state(&app);
    assert_eq!(dump.content, "hello");
    assert_eq!(dump.cursor_col, 3);
    assert_eq!(dump.file_path.as_deref(), Some("/w/h.md"));
    assert_eq!(dump.file_browser_cwd, "/w");
    assert_eq!(dump.mode, ViewMode::Preview);
}
