//! Parsing one slide's markdown into the block AST.

use keynot::markdown::slide::{AlertKind, Block, InlineSpan, Slide, TableAlign};



fn text_of(spans: &[InlineSpan]) -> String {
    spans.iter().map(|s| s.text.as_str()).collect()
}

#[test]
fn parses_heading_levels() {
    for (src, level) in [("# H", 1), ("## H", 2), ("### H", 3), ("###### H", 6)] {
        let slide = Slide::parse(src);
        assert_eq!(
            slide.columns[0],
            vec![Block::Heading {
                level,
                content: vec![InlineSpan::plain("H".to_string())]
            }],
            "source: {src}"
        );
    }
}

#[test]
fn parses_paragraph_with_inline_styles() {
    let slide = Slide::parse("plain **bold** *italic* ~~gone~~ `code`");
    let Block::Paragraph(spans) = &slide.columns[0][0] else {
        panic!("expected paragraph");
    };
    assert_eq!(text_of(spans), "plain bold italic gone code");
    assert!(spans.iter().any(|s| s.style.bold && s.text == "bold"));
    assert!(spans.iter().any(|s| s.style.italic && s.text == "italic"));
    assert!(
        spans
            .iter()
            .any(|s| s.style.strikethrough && s.text == "gone")
    );
    assert!(spans.iter().any(|s| s.style.code && s.text == "code"));
}

#[test]
fn nested_emphasis_combines() {
    let slide = Slide::parse("***both***");
    let Block::Paragraph(spans) = &slide.columns[0][0] else {
        panic!()
    };
    assert!(spans[0].style.bold && spans[0].style.italic);
}

#[test]
fn underline_via_html_u_tag() {
    let slide = Slide::parse("a <u>under</u> b");
    let Block::Paragraph(spans) = &slide.columns[0][0] else {
        panic!()
    };
    let under: Vec<_> = spans.iter().filter(|s| s.style.underline).collect();
    assert_eq!(under.len(), 1);
    assert_eq!(under[0].text, "under");
}

#[test]
fn links_carry_url() {
    let slide = Slide::parse("see [the docs](https://example.com) now");
    let Block::Paragraph(spans) = &slide.columns[0][0] else {
        panic!()
    };
    let link = spans.iter().find(|s| s.link.is_some()).unwrap();
    assert_eq!(link.text, "the docs");
    assert_eq!(link.link.as_deref(), Some("https://example.com"));
}

#[test]
fn soft_break_is_a_space() {
    let slide = Slide::parse("one\ntwo");
    let Block::Paragraph(spans) = &slide.columns[0][0] else {
        panic!()
    };
    assert_eq!(text_of(spans), "one two");
}

#[test]
fn hard_break_is_a_newline() {
    let slide = Slide::parse("one  \ntwo");
    let Block::Paragraph(spans) = &slide.columns[0][0] else {
        panic!()
    };
    assert_eq!(text_of(spans), "one\ntwo");
}

#[test]
fn br_tag_is_a_newline() {
    let slide = Slide::parse("one<br>two");
    let Block::Paragraph(spans) = &slide.columns[0][0] else {
        panic!()
    };
    assert_eq!(text_of(spans), "one\ntwo");
}

#[test]
fn parses_unordered_list() {
    let slide = Slide::parse("- one\n- two\n");
    let Block::List(list) = &slide.columns[0][0] else {
        panic!()
    };
    assert!(!list.ordered);
    assert_eq!(list.items.len(), 2);
    let Block::Paragraph(spans) = &list.items[0].blocks[0] else {
        panic!()
    };
    assert_eq!(text_of(spans), "one");
}

#[test]
fn parses_ordered_list_with_start() {
    let slide = Slide::parse("3. three\n4. four\n");
    let Block::List(list) = &slide.columns[0][0] else {
        panic!()
    };
    assert!(list.ordered);
    assert_eq!(list.start, 3);
    assert_eq!(list.items.len(), 2);
}

#[test]
fn parses_nested_list() {
    let slide = Slide::parse("- outer\n  - inner one\n  - inner two\n");
    let Block::List(list) = &slide.columns[0][0] else {
        panic!()
    };
    assert_eq!(list.items.len(), 1);
    let item = &list.items[0];
    // First the item's own text, then the nested list.
    let Block::Paragraph(spans) = &item.blocks[0] else {
        panic!()
    };
    assert_eq!(text_of(spans), "outer");
    let Block::List(inner) = &item.blocks[1] else {
        panic!("expected nested list, got {:?}", item.blocks[1])
    };
    assert_eq!(inner.items.len(), 2);
}

#[test]
fn parses_task_list_markers() {
    let slide = Slide::parse("- [x] done\n- [ ] todo\n- plain\n");
    let Block::List(list) = &slide.columns[0][0] else {
        panic!()
    };
    assert_eq!(list.items[0].task, Some(true));
    assert_eq!(list.items[1].task, Some(false));
    assert_eq!(list.items[2].task, None);
    // The marker is item metadata, not text.
    let Block::Paragraph(spans) = &list.items[0].blocks[0] else {
        panic!()
    };
    assert_eq!(text_of(spans), "done");
}

#[test]
fn parses_fenced_code_block_with_language() {
    let slide = Slide::parse("```rust\nfn main() {}\n```\n");
    assert_eq!(
        slide.columns[0],
        vec![Block::CodeBlock {
            language: Some("rust".to_string()),
            code: "fn main() {}\n".to_string(),
        }]
    );
}

#[test]
fn parses_fenced_code_block_without_language() {
    let slide = Slide::parse("```\nplain\n```\n");
    let Block::CodeBlock { language, .. } = &slide.columns[0][0] else {
        panic!()
    };
    assert_eq!(*language, None);
}

#[test]
fn code_block_preserves_markdown_syntax() {
    let slide = Slide::parse("```md\n# not a heading\n**not bold**\n```\n");
    let Block::CodeBlock { code, .. } = &slide.columns[0][0] else {
        panic!()
    };
    assert_eq!(code, "# not a heading\n**not bold**\n");
}

#[test]
fn parses_blockquote() {
    let slide = Slide::parse("> quoted text\n");
    let Block::BlockQuote { blocks: inner, .. } = &slide.columns[0][0] else {
        panic!()
    };
    let Block::Paragraph(spans) = &inner[0] else {
        panic!()
    };
    assert_eq!(text_of(spans), "quoted text");
}

#[test]
fn parses_nested_blockquote() {
    let slide = Slide::parse("> outer\n>\n> > inner\n");
    let Block::BlockQuote { blocks: outer, .. } = &slide.columns[0][0] else {
        panic!()
    };
    assert!(outer.iter().any(|b| matches!(b, Block::BlockQuote { .. })));
}

#[test]
fn parses_rule_from_stars() {
    // `---` is a slide separator (handled by the splitter), but `***`
    // still reaches the markdown parser as a thematic break.
    let slide = Slide::parse("above\n\n***\n\nbelow\n");
    assert!(slide.columns[0].contains(&Block::Rule));
}

#[test]
fn comments_become_notes_and_do_not_render() {
    let slide = Slide::parse("# Title\n\n<!-- remember to smile -->\n\ntext\n");
    assert_eq!(slide.notes, vec!["remember to smile"]);
    assert!(!slide.columns[0].iter().any(|b| match b {
        Block::Paragraph(spans) => text_of(spans).contains("smile"),
        _ => false,
    }));
}

#[test]
fn inline_comments_become_notes() {
    let slide = Slide::parse("hello <!-- inline note --> world\n");
    assert_eq!(slide.notes, vec!["inline note"]);
    let Block::Paragraph(spans) = &slide.columns[0][0] else {
        panic!()
    };
    assert_eq!(text_of(spans), "hello  world");
}

#[test]
fn multiline_comments_become_notes() {
    let slide = Slide::parse("# T\n\n<!--\nline one\nline two\n-->\n");
    assert_eq!(slide.notes, vec!["line one\nline two"]);
}

#[test]
fn adjacent_comments_become_separate_notes() {
    let slide = Slide::parse("# T\n\n<!-- first --> <!-- second -->\n");
    assert_eq!(slide.notes, vec!["first", "second"]);
}

#[test]
fn empty_comments_are_not_notes() {
    let slide = Slide::parse("# T\n\n<!-- -->\n<!-- real -->\n");
    assert_eq!(slide.notes, vec!["real"]);
}

#[test]
fn tabs_in_text_expand_to_spaces() {
    let slide = Slide::parse("a\tb");
    let Block::Paragraph(spans) = &slide.columns[0][0] else {
        panic!()
    };
    assert_eq!(text_of(spans), "a    b");
}

#[test]
fn other_html_is_ignored() {
    let slide = Slide::parse("a <span>b</span> c\n\n<div>\nblock\n</div>\n");
    let Block::Paragraph(spans) = &slide.columns[0][0] else {
        panic!()
    };
    // Inline tags are dropped; their text content remains.
    assert_eq!(text_of(spans), "a b c");
}

#[test]
fn image_alone_becomes_an_image_block() {
    let slide = Slide::parse("![a chart](chart.png)");
    assert_eq!(
        slide.columns[0],
        vec![Block::Image {
            source: "chart.png".to_string(),
            alt: "a chart".to_string(),
        }]
    );
}

#[test]
fn image_without_alt_uses_url_as_label() {
    let slide = Slide::parse("![](chart.png)");
    let Block::Image { alt, .. } = &slide.columns[0][0] else {
        panic!()
    };
    assert_eq!(alt, "chart.png");
}

#[test]
fn inline_image_stays_a_span() {
    let slide = Slide::parse("see ![the chart](c.png) here");
    let Block::Paragraph(spans) = &slide.columns[0][0] else {
        panic!()
    };
    let img = spans.iter().find(|s| s.image.is_some()).unwrap();
    assert_eq!(img.text, "the chart");
    assert_eq!(img.image.as_deref(), Some("c.png"));
    assert_eq!(text_of(spans), "see the chart here");
}

#[test]
fn slide_title_is_first_heading() {
    let slide = Slide::parse("some text\n\n## Actual Title\n\nmore\n");
    assert_eq!(slide.title_text().as_deref(), Some("Actual Title"));
}

#[test]
fn slide_title_joins_styled_spans() {
    let slide = Slide::parse("# Hello **World**\n");
    assert_eq!(slide.title_text().as_deref(), Some("Hello World"));
}

#[test]
fn slide_title_none_without_heading() {
    assert_eq!(Slide::parse("just text").title_text(), None);
}

#[test]
fn adjacent_same_style_spans_merge() {
    let slide = Slide::parse("one two three");
    let Block::Paragraph(spans) = &slide.columns[0][0] else {
        panic!()
    };
    assert_eq!(spans.len(), 1);
}

#[test]
fn empty_source_is_empty_slide() {
    let slide = Slide::parse("");
    assert!(slide.columns[0].is_empty());
    assert!(slide.notes.is_empty());
}

#[test]
fn parse_columns_builds_one_column_per_source() {
    let slide = Slide::parse_columns(&["left".to_string(), "# Right".to_string()]);
    assert_eq!(slide.columns.len(), 2);
    assert!(matches!(slide.columns[0][0], Block::Paragraph(_)));
    assert!(matches!(slide.columns[1][0], Block::Heading { .. }));
}

#[test]
fn parse_columns_merges_notes_in_order() {
    let slide = Slide::parse_columns(&[
        "a\n\n<!-- first -->".to_string(),
        "b\n\n<!-- second -->".to_string(),
    ]);
    assert_eq!(slide.notes, vec!["first", "second"]);
}

#[test]
fn parse_columns_of_nothing_yields_one_empty_column() {
    let slide = Slide::parse_columns(&[]);
    assert_eq!(slide.columns.len(), 1);
    assert!(slide.columns[0].is_empty());
}

#[test]
fn title_found_in_a_later_column() {
    let slide = Slide::parse_columns(&["just text".to_string(), "## The Title".to_string()]);
    assert_eq!(slide.title_text().as_deref(), Some("The Title"));
}

#[test]
fn parse_is_a_single_column() {
    let slide = Slide::parse("hello");
    assert_eq!(slide.columns.len(), 1);
}

#[test]
fn heading_attributes_are_stripped() {
    let slide = Slide::parse("# Title {#custom-id .cls}\n");
    let Block::Heading { content, .. } = &slide.columns[0][0] else {
        panic!("expected heading");
    };
    assert_eq!(text_of(content), "Title");
}

#[test]
fn gfm_alerts_parse_with_their_kind() {
    let slide = Slide::parse("> [!WARNING]\n> mind the gap\n");
    let Block::BlockQuote { kind, blocks } = &slide.columns[0][0] else {
        panic!("expected quote");
    };
    assert_eq!(*kind, Some(AlertKind::Warning));
    let Block::Paragraph(spans) = &blocks[0] else {
        panic!("expected paragraph body");
    };
    assert_eq!(text_of(spans), "mind the gap");
}

#[test]
fn plain_quotes_have_no_alert_kind() {
    let slide = Slide::parse("> just quoting\n");
    let Block::BlockQuote { kind, .. } = &slide.columns[0][0] else {
        panic!("expected quote");
    };
    assert_eq!(*kind, None);
}

#[test]
fn definition_lists_parse_terms_and_definitions() {
    let slide = Slide::parse("Term\n: first def\n: second def\n");
    let Block::DefinitionList(items) = &slide.columns[0][0] else {
        panic!("expected definition list, got {:?}", slide.columns[0]);
    };
    assert_eq!(items.len(), 1);
    assert_eq!(text_of(&items[0].term), "Term");
    assert_eq!(items[0].definitions.len(), 2);
}

#[test]
fn footnotes_number_in_reference_order() {
    let slide = Slide::parse("See[^b] and[^a].\n\n[^a]: note a\n[^b]: note b\n");
    // References numbered by first sighting: b=1, a=2; the section
    // is appended at the end, sorted by number.
    let Block::Paragraph(spans) = &slide.columns[0][0] else {
        panic!("expected paragraph");
    };
    let markers: Vec<&str> = spans
        .iter()
        .filter(|s| s.style.footnote_ref)
        .map(|s| s.text.as_str())
        .collect();
    assert_eq!(markers, vec!["[1]", "[2]"]);
    let Block::Footnotes(notes) = slide.columns[0].last().unwrap() else {
        panic!("expected footnote section");
    };
    assert_eq!(notes.len(), 2);
    assert_eq!(notes[0].number, 1);
    let Block::Paragraph(body) = &notes[0].blocks[0] else {
        panic!("note body");
    };
    assert_eq!(text_of(body), "note b");
}

#[test]
fn tables_parse_with_alignment_and_cells() {
    let slide = Slide::parse("| name | age |\n|:-----|----:|\n| ada | 36 |\n| bob | 40 |\n");
    let Block::Table(table) = &slide.columns[0][0] else {
        panic!("expected a table, got {:?}", slide.columns[0]);
    };
    assert_eq!(table.alignments, vec![TableAlign::Left, TableAlign::Right]);
    assert_eq!(table.header.len(), 2);
    assert_eq!(table.header[0][0].text, "name");
    assert_eq!(table.rows.len(), 2);
    assert_eq!(table.rows[1][1][0].text, "40");
}

#[test]
fn table_cells_keep_inline_styles() {
    let slide = Slide::parse("| a |\n|---|\n| **bold** and `code` |\n");
    let Block::Table(table) = &slide.columns[0][0] else {
        panic!("expected a table");
    };
    let cell = &table.rows[0][0];
    assert!(cell.iter().any(|s| s.style.bold));
    assert!(cell.iter().any(|s| s.style.code));
}

#[test]
fn ragged_table_rows_are_tolerated() {
    // GFM: short rows pad, long rows truncate (pulldown handles it).
    let slide = Slide::parse("| a | b |\n|---|---|\n| only |\n");
    let Block::Table(table) = &slide.columns[0][0] else {
        panic!("expected a table");
    };
    assert_eq!(table.rows.len(), 1);
    assert!(table.rows[0].len() <= 2);
}

#[test]
fn multiple_blocks_in_order() {
    let slide = Slide::parse("# T\n\npara\n\n- item\n\n```\ncode\n```\n\n> quote\n");
    let kinds: Vec<&str> = slide.columns[0]
        .iter()
        .map(|b| match b {
            Block::Heading { .. } => "heading",
            Block::Paragraph(_) => "para",
            Block::List(_) => "list",
            Block::CodeBlock { .. } => "code",
            Block::BlockQuote { .. } => "quote",
            Block::Image { .. } => "image",
            Block::Rule => "rule",
            Block::Table(_) => "table",
            Block::DefinitionList(_) => "definitions",
            Block::Footnotes(_) => "footnotes",
        })
        .collect();
    assert_eq!(kinds, vec!["heading", "para", "list", "code", "quote"]);
}

#[test]
fn spans_have_text_no_tabs_and_are_merged() {
    let slide = Slide::parse("a\tb\nc **d** e\\*f [l](u) [m](u)");
    assert_eq!(slide.columns.len(), 1);
    let Block::Paragraph(spans) = &slide.columns[0][0] else {
        panic!("expected paragraph");
    };
    for s in spans {
        assert!(!s.text.is_empty());
        assert!(!s.text.contains('\t'));
    }
    for w in spans.windows(2) {
        assert!(!(w[0].image.is_none() && w[1].image.is_none() && w[0].style == w[1].style && w[0].link == w[1].link));
    }
    assert_eq!(spans[0].text, "a    b c ");
    assert_eq!(text_of(spans), "a    b c d e*f l m");
}
