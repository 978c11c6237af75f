use poneglyph::render::{
    render_editor_line, render_preview_document, render_preview_document_full,
    render_preview_line, standalone_image, wrap_styled_line, StyleRole, StyledLine, StyledSpan,
    IMAGE_PREVIEW_ROWS,
};

fn plain_line(line: &StyledLine) -> String {
    line.spans.iter().map(|s| s.text.as_str()).collect()
}

fn plain(rows: Vec<StyledLine>) -> Vec<String> {
    rows.iter().map(plain_line).collect()
}

#[test]
fn wraps_preview_rows_with_markdown_continuation_indent() {
    let rows = render_preview_document(
        "- this is a very long list item that should wrap with indentation",
        0,
        10,
        24,
    );
    let plain = plain(rows);
    assert!(plain.len() > 1);
    assert!(plain[1].starts_with("  "));
}

#[test]
fn preview_uses_rich_markdown_shapes_instead_of_raw_hashes() {
    let rows = render_preview_document("# Title\n\n- item", 0, 10, 40);
    let plain = plain(rows);
    assert!(plain.iter().any(|line| line.contains("TITLE")));
    assert!(plain.iter().any(|line| line.contains("━━━━")));
    assert!(plain.iter().any(|line| line.contains("• item")));
    assert!(plain.iter().filter(|line| line.is_empty()).count() >= 2);
    assert!(!plain.iter().any(|line| line.starts_with("# Title")));
}

#[test]
fn renders_nested_lists_with_depth_markers() {
    let rows = render_preview_document("- top\n  - nested\n    - deep", 0, 10, 40);
    let plain = plain(rows);
    assert!(plain.iter().any(|line| line.contains("• top")));
    assert!(plain.iter().any(|line| line.contains("  ◦ nested")));
    assert!(plain.iter().any(|line| line.contains("    ▪ deep")));
}

#[test]
fn renders_pipe_tables_as_boxed_preview_rows() {
    let rows = render_preview_document(
        "| Feature | Status |\n| --- | --- |\n| Tables | done |",
        0,
        10,
        80,
    );
    let plain = plain(rows);
    assert!(plain.iter().any(|line| line.starts_with("╭")));
    assert!(plain.iter().any(|line| line.contains("Feature")));
    assert!(plain.iter().any(|line| line.contains("Tables")));
    assert!(plain.iter().any(|line| line.starts_with("╰")));
}

#[test]
fn standalone_image_reserves_a_block_and_reports_placement() {
    let (lines, placements) =
        render_preview_document_full("intro\n\n![a cat](cat.png)\n\nmore", 40, &[]);
    assert_eq!(placements.len(), 1);
    let placement = &placements[0];
    assert_eq!(placement.target, "cat.png");
    assert_eq!(placement.rows as usize, IMAGE_PREVIEW_ROWS);
    assert!(plain_line(&lines[placement.start]).contains("a cat"));
    assert!(lines.len() >= placement.start + IMAGE_PREVIEW_ROWS);
}

#[test]
fn inline_image_mixed_with_text_is_not_treated_as_a_block() {
    let (_, placements) = render_preview_document_full("see ![a cat](cat.png) here", 40, &[]);
    assert!(placements.is_empty());
}

#[test]
fn pipe_table_rows_are_padded_to_column_widths() {
    let rows = render_preview_document(
        "| Feature | Status |\n| --- | --- |\n| Tables | done |",
        0,
        10,
        80,
    );
    assert_eq!(
        plain(rows),
        vec![
            "╭─────────┬────────╮",
            "│ Feature │ Status │",
            "├─────────┼────────┤",
            "│ Tables  │ done   │",
            "╰─────────┴────────╯",
        ]
    );
}

#[test]
fn headings_get_an_underline_and_a_gap() {
    let rows = plain(render_preview_document("para\n## Sub\n### Low", 0, 20, 40));
    assert_eq!(rows, vec!["para", "", "Sub", "────", "", "› Low", "┄┄┄┄"]);
}

#[test]
fn code_blocks_are_framed_and_indented() {
    let rows = plain(render_preview_document("```rust\nlet x = 1;\n```\n```\n```", 0, 20, 40));
    assert_eq!(rows, vec!["╭─ rust", "  let x = 1;", "╰─ ```", "╭─ code", "╰─ ```"]);
}

#[test]
fn quotes_rules_and_fences_render_as_single_lines() {
    assert_eq!(plain_line(&render_preview_line("  >> deep *quote*")), "  ▌▌ deep quote");
    assert_eq!(plain_line(&render_preview_line("---")), "─".repeat(12));
    assert_eq!(plain_line(&render_preview_line("***************")), "─".repeat(15));
    assert_eq!(plain_line(&render_preview_line("12. twelve")), "12. twelve");
    assert_eq!(plain_line(&render_editor_line("# héllo")), "HÉLLO");
    let spans = render_preview_line("see [site](https://x.test) and ![pic](p.png)").spans;
    assert!(spans.contains(&StyledSpan { text: "site ↗".into(), role: StyleRole::LinkText }));
    assert!(spans.contains(&StyledSpan { text: "\u{f0976} pic".into(), role: StyleRole::ImageIcon }));
}

#[test]
fn images_take_the_rows_given_for_them() {
    let (lines, placements) =
        render_preview_document_full("![one](1.png)\n![two](2.png)", 40, &[3, 0]);
    assert_eq!(placements.len(), 2);
    assert_eq!((placements[0].start, placements[0].rows), (0, 3));
    assert_eq!((placements[1].start, placements[1].rows), (4, 1));
    assert_eq!(lines.len(), 4 + 2);
    assert_eq!(standalone_image(&" ![a](b.png) ".chars().collect::<Vec<_>>()),
        Some(("a".chars().collect(), "b.png".chars().collect())));
    assert_eq!(standalone_image(&"![a](b) ![c](d)".chars().collect::<Vec<_>>()), None);
}

#[test]
fn wrapped_rows_keep_every_character() {
    let line = StyledLine {
        spans: vec![
            StyledSpan { text: "> ".into(), role: StyleRole::QuoteMarker },
            StyledSpan { text: "abcdefghij".into(), role: StyleRole::Quote },
        ],
    };
    let rows = wrap_styled_line(line, 5);
    assert_eq!(plain(rows), vec!["> abc", "defgh", "ij"]);
    let quote = StyledLine {
        spans: vec![StyledSpan { text: "▌ abcdefgh".into(), role: StyleRole::Quote }],
    };
    assert_eq!(plain(wrap_styled_line(quote, 6)), vec!["▌ abcd", "  ef", "  gh"]);
}

#[test]
fn image_blocks_follow_each_other_inside_the_rows() {
    let (rows, placements) =
        render_preview_document_full("![a](x.png)\ntext\n![b](y.png)", 80, &[3, 2]);
    let got: Vec<(String, usize, u16)> =
        placements.into_iter().map(|p| (p.target, p.start, p.rows)).collect();
    assert_eq!(got, vec![("x.png".to_string(), 0, 3), ("y.png".to_string(), 5, 2)]);
    assert_eq!(rows.len(), 8);
}
