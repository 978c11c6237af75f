use poneglyph::markdown::{classify_document, heading, outline, tokenize_inline, InlineKind, LineKind, OutlineItem};

#[test]
fn classifies_like_md_editor_core_shapes() {
    let doc = "# H1\n\n> quote\n- item\n1. one\n---\n```ts\nlet x = 1;\n```";
    let kinds: Vec<_> = classify_document(doc).into_iter().map(|l| l.kind).collect();
    assert_eq!(
        kinds,
        vec![
            LineKind::Heading(1),
            LineKind::Empty,
            LineKind::Blockquote,
            LineKind::UnorderedList,
            LineKind::OrderedList,
            LineKind::HorizontalRule,
            LineKind::CodeBlock,
            LineKind::CodeBlock,
            LineKind::CodeBlock
        ]
    );
}

#[test]
fn extracts_outline() {
    let items = outline("# A\nbody\n### C");
    assert_eq!(
        items,
        vec![
            OutlineItem {
                level: 1,
                text: "A".into(),
                line: 0
            },
            OutlineItem {
                level: 3,
                text: "C".into(),
                line: 2
            }
        ]
    );
}

#[test]
fn headings_match_bun_optional_space_behavior() {
    assert_eq!(heading("#NoSpace"), Some((1, "NoSpace")));
    assert_eq!(heading("###### Six"), Some((6, "Six")));
    assert_eq!(heading("####### Seven"), Some((6, "# Seven")));
}

#[test]
fn tokenizes_inline_markdown_shapes() {
    let segs = tokenize_inline(
        "![alt](img.png) [site](https://x.test) `code` ***bi*** **b** _i_ ~~s~~",
    );
    let kinds: Vec<_> = segs.into_iter().map(|s| s.kind).collect();
    assert!(kinds.contains(&InlineKind::Image));
    assert!(kinds.contains(&InlineKind::Link));
    assert!(kinds.contains(&InlineKind::Code));
    assert!(kinds.contains(&InlineKind::BoldItalic));
    assert!(kinds.contains(&InlineKind::Bold));
    assert!(kinds.contains(&InlineKind::Italic));
    assert!(kinds.contains(&InlineKind::Strikethrough));
}

#[test]
fn outline_lists_every_hash_line_in_order() {
    let items = outline("# A\n```\n## B\n```\ntext\n###### F\n####### G");
    let got: Vec<(u8, String, usize)> = items.into_iter().map(|o| (o.level, o.text, o.line)).collect();
    assert_eq!(
        got,
        vec![
            (1, "A".to_string(), 0),
            (2, "B".to_string(), 2),
            (6, "F".to_string(), 5),
            (6, "# G".to_string(), 6),
        ]
    );
}

#[test]
fn classified_lines_keep_their_shape() {
    let lines = classify_document("# A\n```rust\nx\n```\nplain");
    assert_eq!(lines.len(), 5);
    assert_eq!(lines[0].kind, LineKind::Heading(1));
    assert_eq!(lines[0].level, Some(1));
    assert_eq!(lines[0].text, "A");
    for l in &lines[1..4] {
        assert_eq!(l.kind, LineKind::CodeBlock);
        assert_eq!(l.level, None);
        assert_eq!(l.language.as_deref(), Some("rust"));
    }
    assert_eq!(lines[2].text, "x");
    assert_eq!(lines[4].kind, LineKind::Text);
    assert_eq!(lines[4].text, "plain");
    assert_eq!(lines[4].language, None);
}

#[test]
fn unmatched_markers_stay_literal_text() {
    let one = |t: &str| -> Vec<(InlineKind, String)> {
        tokenize_inline(t).into_iter().map(|s| (s.kind, s.text)).collect()
    };
    assert_eq!(one("**"), vec![(InlineKind::Text, "**".to_string())]);
    assert_eq!(one("*a"), vec![(InlineKind::Text, "*a".to_string())]);
    assert_eq!(one(""), vec![]);
    assert_eq!(
        one("a **b** c"),
        vec![
            (InlineKind::Text, "a ".to_string()),
            (InlineKind::Bold, "b".to_string()),
            (InlineKind::Text, " c".to_string()),
        ]
    );
}
