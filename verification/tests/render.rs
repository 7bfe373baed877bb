//! Rendering parsed slides into styled terminal lines.

use keynot::markdown::metadata::CodeStyle;
use keynot::markdown::slide::{Block, Slide};
use keynot::render::highlight::Highlighter;
use keynot::render::slide::{
    convert_inline, render_slide, tallest_slide, ImagePlacement, RenderContext, RenderedSlide,
    SizedImage,
};
use keynot::render::style::Line;
use keynot::theme::Theme;
use std::sync::OnceLock;

fn highlighter() -> &'static Highlighter {
    static H: OnceLock<Highlighter> = OnceLock::new();
    H.get_or_init(Highlighter::new)
}

fn render(src: &str, width: usize) -> Vec<Line> {
    let theme = Theme::dark();
    let slide = Slide::parse(src);
    let ctx = RenderContext {
        theme: &theme,
        highlighter: highlighter(),
        image_sizes: None,
    };
    render_slide(&slide, &ctx, width).text
}

/// Every picture of the slide sized alike.
fn sizes_for(slide: &Slide, size: (u16, u16)) -> Vec<SizedImage> {
    slide
        .image_sources()
        .into_iter()
        .map(|source| SizedImage {
            source,
            cols: size.0,
            rows: size.1,
        })
        .collect()
}

/// Render with every picture at a fixed size.
fn render_with_images(src: &str, width: usize, size: (u16, u16)) -> RenderedSlide {
    let theme = Theme::dark();
    let slide = Slide::parse(src);
    let sizes = sizes_for(&slide, size);
    let ctx = RenderContext {
        theme: &theme,
        highlighter: highlighter(),
        image_sizes: Some(&sizes),
    };
    render_slide(&slide, &ctx, width)
}

fn strings(text: &[Line]) -> Vec<String> {
    text.iter().map(|l| l.plain_text()).collect()
}

#[test]
fn h1_is_left_aligned_with_underline_rule() {
    let text = render("# Title", 40);
    assert_eq!(text[0].plain_text(), "Title");
    assert_eq!(text[1].plain_text(), "-----");
}

#[test]
fn h1_rule_width_matches_title_exactly() {
    let text = render("# foo", 40);
    assert_eq!(text[0].plain_text(), "foo");
    assert_eq!(text[1].plain_text(), "---");
    assert_eq!(text[0].width(), text[1].width());
}

#[test]
fn h2_is_left_aligned() {
    let text = render("## Section", 40);
    assert_eq!(text[0].plain_text(), "Section");
}

#[test]
fn paragraph_wraps_to_width() {
    let text = render("one two three four five six", 10);
    assert!(text.len() > 1);
    for line in strings(&text) {
        assert!(line.len() <= 10, "line too long: {line:?}");
    }
}

#[test]
fn blocks_are_separated_by_blank_lines() {
    let text = render("first\n\nsecond", 40);
    assert_eq!(strings(&text), vec!["first", "", "second"]);
}

#[test]
fn unordered_list_uses_dash_markers() {
    let text = render("- alpha\n- beta", 40);
    assert_eq!(strings(&text), vec!["- alpha", "- beta"]);
}

#[test]
fn ordered_list_numbers_from_start() {
    let text = render("4. four\n5. five", 40);
    assert_eq!(strings(&text), vec!["4. four", "5. five"]);
}

#[test]
fn ordered_markers_align_across_width_changes() {
    let text = render("9. nine\n10. ten", 40);
    assert_eq!(strings(&text), vec![" 9. nine", "10. ten"]);
}

#[test]
fn wrapped_list_items_get_hanging_indent() {
    let text = render("- alpha beta gamma delta", 12);
    let lines = strings(&text);
    assert_eq!(lines[0], "- alpha beta");
    assert!(
        lines[1].starts_with("  "),
        "no hanging indent: {:?}",
        lines[1]
    );
}

#[test]
fn nested_lists_are_indented() {
    let text = render("- outer\n  - inner", 40);
    let lines = strings(&text);
    assert_eq!(lines[0], "- outer");
    assert_eq!(lines[1], "  - inner");
}

#[test]
fn code_block_has_uniform_background_width() {
    let text = render("```rust\nlet x = 1;\nlet longer = 22;\n```", 40);
    let lines = &text;
    // Title bar, two code lines, bottom edge.
    assert_eq!(lines.len(), 4);
    // Every row of the window is the same width.
    assert_eq!(lines[0].width(), lines[1].width());
    assert_eq!(lines[1].width(), lines[2].width());
    assert_eq!(lines[2].width(), lines[3].width());
    assert!(lines[1].plain_text().contains("let x = 1;"));
}

#[test]
fn code_block_is_a_terminal_window() {
    let text = render("```rust\nlet x = 1;\n```", 40);
    let top = text[0].plain_text();
    let bottom = text[2].plain_text();
    assert!(
        top.starts_with('\u{256d}') && top.ends_with('\u{256e}'),
        "{top:?}"
    );
    assert!(
        top.chars()
            .skip(1)
            .take(top.chars().count().saturating_sub(2))
            .all(|c| c == '\u{2500}'),
        "a plain top edge, no adornments: {top:?}"
    );
    assert!(bottom.contains(" rust "), "language label: {bottom:?}");
    assert!(
        bottom.starts_with('\u{2570}') && bottom.ends_with('\u{256f}'),
        "{bottom:?}"
    );
    // Side borders on the code row.
    let mid = text[1].plain_text();
    assert!(
        mid.starts_with('\u{2502}') && mid.ends_with('\u{2502}'),
        "{mid:?}"
    );
}

#[test]
fn plain_code_style_has_no_frame() {
    let theme = Theme {
        code_style: CodeStyle::Plain,
        ..Theme::dark()
    };
    let slide = Slide::parse("```rust\nlet x = 1;\n```");
    let ctx = RenderContext {
        theme: &theme,
        highlighter: highlighter(),
        image_sizes: None,
    };
    let rendered = render_slide(&slide, &ctx, 40);
    assert_eq!(rendered.text.len(), 1, "just the code line");
    let row = rendered.text[0].plain_text();
    assert!(row.contains("let x = 1;"));
    assert!(
        !row.contains('\u{256d}') && !row.contains('\u{25cf}'),
        "{row:?}"
    );
}

#[test]
fn code_block_without_language_has_no_label() {
    let text = render("```\nplain\n```", 40);
    let bottom = text[2].plain_text();
    assert!(!bottom.contains(char::is_alphabetic), "{bottom:?}");
}

#[test]
fn long_code_lines_are_clipped_not_wrapped() {
    let text = render("```\naaaaaaaaaaaaaaaaaaaaaaaaaaaaaa\n```", 12);
    // Title bar, one clipped code line, bottom edge.
    assert_eq!(text.len(), 3);
    assert!(text.iter().all(|l| l.width() <= 12));
}

#[test]
fn blockquote_gets_bar_prefix_and_italics() {
    let text = render("> wisdom here", 40);
    let line = &text[0];
    assert_eq!(line.plain_text(), "| wisdom here");
    assert!(line.spans[1..].iter().all(|s| s.style.add_modifier.italic));
}

#[test]
fn rule_spans_full_width() {
    let text = render("above\n\n***\n\nbelow", 20);
    assert!(strings(&text).contains(&"-".repeat(20)));
}

#[test]
fn inline_code_gets_accent_and_background() {
    let theme = Theme::dark();
    let slide = Slide::parse("`code`");
    let Block::Paragraph(spans) = &slide.columns[0][0] else {
        panic!()
    };
    let converted = convert_inline(spans, &theme);
    assert_eq!(converted[0].style.fg, Some(theme.accent));
    assert_eq!(converted[0].style.bg, Some(theme.code_background));
}

#[test]
fn links_are_underlined_in_link_color() {
    let theme = Theme::dark();
    let slide = Slide::parse("[text](https://x.dev)");
    let Block::Paragraph(spans) = &slide.columns[0][0] else {
        panic!()
    };
    let converted = convert_inline(spans, &theme);
    assert_eq!(converted[0].style.fg, Some(theme.link));
    assert!(converted[0].style.add_modifier.underlined);
}

/// Render a multi-column slide built from raw column sources.
fn render_cols(cols: &[&str], width: usize) -> RenderedSlide {
    let theme = Theme::dark();
    let slide = Slide::parse_columns(&cols.iter().map(|s| s.to_string()).collect::<Vec<_>>());
    let ctx = RenderContext {
        theme: &theme,
        highlighter: highlighter(),
        image_sizes: None,
    };
    render_slide(&slide, &ctx, width)
}

#[test]
fn two_columns_render_side_by_side() {
    // width 23: usable 20, two columns of 10, gutter 3.
    let rendered = render_cols(&["aa", "bb"], 23);
    assert_eq!(
        rendered.text[0].plain_text(),
        format!("aa{}bb", " ".repeat(11))
    );
}

#[test]
fn column_text_starts_at_fixed_offsets() {
    // Wrapping happens per column: each column is 10 wide.
    let rendered = render_cols(&["one two three", "x"], 23);
    let lines: Vec<String> = rendered.text.iter().map(|l| l.plain_text()).collect();
    assert_eq!(lines[0], format!("one two{}x", " ".repeat(6)));
    assert_eq!(lines[1], "three");
}

#[test]
fn tallest_column_defines_the_row_count() {
    let rendered = render_cols(&["a", "1\n\n2\n\n3"], 23);
    assert_eq!(rendered.text.len(), 5);
    // Short column's missing rows are just absent (left blank).
    assert_eq!(rendered.text[4].plain_text().trim(), "3");
}

#[test]
fn three_columns_share_the_width() {
    // width 36: usable 30, three columns of 10.
    let rendered = render_cols(&["a", "b", "c"], 36);
    let row = rendered.text[0].plain_text();
    assert_eq!(row, format!("a{}b{}c", " ".repeat(12), " ".repeat(12)));
}

#[test]
fn code_block_background_survives_the_join() {
    let rendered = render_cols(&["left", "```\ncode\n```"], 23);
    // Row 0 is the window's title bar; row 1 holds the code.
    let row = &rendered.text[1];
    assert!(row.plain_text().contains("code"));
    let code_bg = Theme::dark().code_background;
    assert!(
        row.spans.iter().any(|s| s.style.bg == Some(code_bg)),
        "code panel background must survive joining: {row:?}"
    );
    // The panel's right padding is styled blank space; the join's
    // trailing trim must not eat it.
    let last = row.spans.last().unwrap();
    assert_eq!(last.style.bg, Some(code_bg), "styled padding kept: {row:?}");
}

#[test]
fn single_column_span_covers_the_full_width() {
    let rendered = render_cols(&["hello\n\nworld"], 40);
    assert_eq!(rendered.columns.len(), 1);
    let span = &rendered.columns[0];
    assert_eq!((span.x, span.width), (0, 40));
    assert_eq!(span.non_blank, vec![0, 2]);
}

#[test]
fn column_spans_carry_offsets_and_rows() {
    // width 23: two 10-wide columns, gutter 3.
    let rendered = render_cols(&["a1\n\na2", "b1"], 23);
    let spans = &rendered.columns;
    assert_eq!(spans.len(), 2);
    assert_eq!((spans[0].x, spans[0].width), (0, 10));
    assert_eq!((spans[1].x, spans[1].width), (13, 10));
    assert_eq!(spans[0].non_blank, vec![0, 2]);
    assert_eq!(spans[1].non_blank, vec![0]);
}

#[test]
fn image_only_column_has_no_highlightable_rows() {
    let theme = Theme::dark();
    let slide = Slide::parse_columns(&["text".to_string(), "![c](c.png)".to_string()]);
    let sizes = sizes_for(&slide, (4, 3));
    let ctx = RenderContext {
        theme: &theme,
        highlighter: highlighter(),
        image_sizes: Some(&sizes),
    };
    let rendered = render_slide(&slide, &ctx, 23);
    assert!(rendered.columns[1].non_blank.is_empty());
    assert!(!rendered.columns[0].non_blank.is_empty());
}

#[test]
fn image_in_second_column_is_offset() {
    let theme = Theme::dark();
    let slide = Slide::parse_columns(&["left".to_string(), "![c](c.png)".to_string()]);
    let sizes = sizes_for(&slide, (6, 3));
    let ctx = RenderContext {
        theme: &theme,
        highlighter: highlighter(),
        image_sizes: Some(&sizes),
    };
    let rendered = render_slide(&slide, &ctx, 23);
    // Column 2 starts at 13; a 6-wide image centered in 10 sits at +2.
    assert_eq!(
        rendered.images,
        vec![ImagePlacement {
            line: 0,
            source: "c.png".to_string(),
            x: 15,
            width: 6,
            height: 3,
        }]
    );
    // Its reserved rows are blank within the column (the join keeps
    // the left column's text on those rows).
    assert!(rendered.text[0].plain_text().starts_with("left"));
}

#[test]
fn image_in_third_column_is_offset_past_two_columns() {
    let theme = Theme::dark();
    let slide = Slide::parse_columns(&[
        "one".to_string(),
        "two".to_string(),
        "![c](c.png)".to_string(),
    ]);
    let sizes = sizes_for(&slide, (4, 3));
    let ctx = RenderContext {
        theme: &theme,
        highlighter: highlighter(),
        image_sizes: Some(&sizes),
    };
    // width 36: usable 30, three 10-wide columns; column 3 starts at
    // 26, and a 4-wide image centered in 10 sits at +3.
    let rendered = render_slide(&slide, &ctx, 36);
    assert_eq!(rendered.images.len(), 1);
    assert_eq!(rendered.images[0].x, 29, "26 + (10 - 4) / 2");
}

#[test]
fn empty_heading_reserves_a_row_for_column_alignment() {
    // A bare `##` keeps a heading-less column's content aligned with its
    // neighbors' first paragraphs.
    let with_heading = render_cols(&["## Title\n\nbody", "##\n\nbody"], 23);
    let lines: Vec<String> = with_heading.text.iter().map(|l| l.plain_text()).collect();
    let title_row = lines.iter().position(|l| l.contains("Title")).unwrap();
    let body_row = lines.iter().position(|l| l.contains("body")).unwrap();
    assert!(body_row > title_row, "bodies sit below the heading row");
    // Both columns' bodies share one row.
    assert_eq!(lines[body_row].matches("body").count(), 2, "{lines:?}");
}

#[test]
fn single_column_image_is_centered() {
    let rendered = render_with_images("![c](c.png)", 40, (10, 4));
    assert_eq!(rendered.images[0].x, 15, "(40 - 10) / 2");
}

#[test]
fn definition_lists_render_bold_terms_and_indented_defs() {
    let text = render("Term\n: the meaning\n", 40);
    let rows: Vec<String> = text.iter().map(|l| l.plain_text()).collect();
    assert_eq!(rows, vec!["Term", "  the meaning"]);
    let term = &text[0].spans[0];
    assert!(term.style.add_modifier.bold);
}

#[test]
fn footnotes_render_markers_and_a_trailing_section() {
    let text = render("Fact[^1].\n\n[^1]: source here\n", 40);
    let rows: Vec<String> = text.iter().map(|l| l.plain_text()).collect();
    assert!(rows[0].contains("Fact[1]."), "{rows:?}");
    assert!(rows.last().unwrap().contains("[1] source here"));
    // The marker and section label take the accent color.
    let accent = Theme::dark().accent;
    let marker_span = text[0]
        .spans
        .iter()
        .find(|s| s.content.contains("[1]"))
        .unwrap();
    assert_eq!(marker_span.style.fg, Some(accent));
}

#[test]
fn alerts_render_a_labeled_colored_bar() {
    let text = render("> [!NOTE]\n> useful context\n", 40);
    let rows: Vec<String> = text.iter().map(|l| l.plain_text()).collect();
    assert_eq!(rows[0], "| Note");
    assert_eq!(rows[1], "| useful context");
    let label = text[0]
        .spans
        .iter()
        .find(|s| s.content.contains("Note"))
        .unwrap();
    assert_eq!(label.style.fg, Some(Theme::dark().link), "Note is blue");
    assert!(label.style.add_modifier.bold);
    // Alert bodies stay upright, unlike quotes.
    let body = text[1]
        .spans
        .iter()
        .find(|s| s.content.contains("useful"))
        .unwrap();
    assert!(!body.style.add_modifier.italic);
}

#[test]
fn plain_quotes_stay_italic_and_unlabeled() {
    let text = render("> wisdom\n", 40);
    assert_eq!(text[0].plain_text(), "| wisdom");
}

#[test]
fn table_renders_rounded_borders_and_alignment() {
    let text = render("| name | n |\n|:-----|--:|\n| ada | 3 |\n| bo | 14 |\n", 40);
    let rows: Vec<String> = text.iter().map(|l| l.plain_text()).collect();
    assert_eq!(
        rows,
        vec![
            "\u{256d}\u{2500}\u{2500}\u{2500}\u{2500}\u{2500}\u{2500}\u{252c}\u{2500}\u{2500}\u{2500}\u{2500}\u{256e}",
            "\u{2502} name \u{2502}  n \u{2502}",
            "\u{251c}\u{2500}\u{2500}\u{2500}\u{2500}\u{2500}\u{2500}\u{253c}\u{2500}\u{2500}\u{2500}\u{2500}\u{2524}",
            "\u{2502} ada  \u{2502}  3 \u{2502}",
            "\u{2502} bo   \u{2502} 14 \u{2502}",
            "\u{2570}\u{2500}\u{2500}\u{2500}\u{2500}\u{2500}\u{2500}\u{2534}\u{2500}\u{2500}\u{2500}\u{2500}\u{256f}",
        ]
    );
}

#[test]
fn tables_sit_on_the_code_panel_background() {
    let text = render("| h |\n|---|\n| b |\n", 40);
    let code_bg = Theme::dark().code_background;
    assert!(
        text.iter().all(|l| l.style.bg == Some(code_bg)),
        "every table row carries the panel background"
    );
}

#[test]
fn table_header_cells_are_bold() {
    let text = render("| head |\n|------|\n| body |\n", 40);
    let header_row = &text[1];
    let head_span = header_row
        .spans
        .iter()
        .find(|s| s.content.contains("head"))
        .unwrap();
    assert!(head_span.style.add_modifier.bold);
    let body_row = &text[3];
    let body_span = body_row
        .spans
        .iter()
        .find(|s| s.content.contains("body"))
        .unwrap();
    assert!(!body_span.style.add_modifier.bold);
}

#[test]
fn wide_tables_wrap_cells_to_fit() {
    let text = render(
        "| a | words |\n|---|-------|\n| x | one two three four five |\n",
        22,
    );
    let rows: Vec<String> = text.iter().map(|l| l.plain_text()).collect();
    // Every line fits, and the long cell wrapped onto extra lines
    // while its short neighbor padded with blanks.
    assert!(rows.iter().all(|r| r.chars().count() <= 22), "{rows:?}");
    assert!(rows.len() > 5, "wrapped body rows: {rows:?}");
    let x_row = rows.iter().position(|r| r.contains('x')).unwrap();
    assert!(rows[x_row].contains("one"));
    assert!(rows[x_row + 1].contains('\u{2502}'), "continuation row");
}

#[test]
fn tables_render_inside_columns() {
    let rendered = render_cols(&["left", "| h |\n|---|\n| b |\n"], 23);
    let all: String = rendered
        .text
        .iter()
        .map(|l| l.plain_text() + "\n")
        .collect();
    assert!(all.contains('\u{256d}'), "table border in column 2:\n{all}");
    assert!(all.contains("left"));
    // The table's rows are highlightable like any content.
    assert!(!rendered.columns[1].non_blank.is_empty());
}

#[test]
fn degenerate_width_tables_clip_but_never_overflow() {
    let text = render("| aaaa | bbbb | cccc |\n|---|---|---|\n| 1 | 2 | 3 |\n", 10);
    assert!(text.iter().all(|l| l.width() <= 10));
}

#[test]
fn image_without_sizer_renders_placeholder() {
    let text = render("![a chart](chart.png)", 40);
    assert_eq!(strings(&text), vec!["[image: a chart]"]);
}

#[test]
fn image_with_sizer_reserves_rows() {
    let rendered = render_with_images("above\n\n![c](c.png)\n\nbelow", 40, (20, 5));
    assert_eq!(
        rendered.images,
        vec![ImagePlacement {
            line: 2,
            source: "c.png".to_string(),
            x: 10,
            width: 20,
            height: 5,
        }]
    );
    let lines = &rendered.text;
    // "above", blank, then 5 reserved blanks, blank, "below".
    assert_eq!(lines[0].plain_text(), "above");
    for (i, line) in lines.iter().enumerate().take(7).skip(2) {
        assert_eq!(line.width(), 0, "line {i} should be reserved");
    }
    assert_eq!(lines[8].plain_text(), "below");
}

#[test]
fn trailing_image_rows_are_not_trimmed() {
    let rendered = render_with_images("![c](c.png)", 40, (10, 4));
    assert_eq!(rendered.images[0].line, 0);
    assert_eq!(rendered.text.len(), 4);
}

#[test]
fn image_inside_list_renders_placeholder_even_with_sizer() {
    let theme = Theme::dark();
    let slide = Slide::parse("- item\n\n  ![c](c.png)\n");
    let sizes = vec![SizedImage {
        source: "c.png".to_string(),
        cols: 10,
        rows: 4,
    }];
    let ctx = RenderContext {
        theme: &theme,
        highlighter: highlighter(),
        image_sizes: Some(&sizes),
    };
    let rendered = render_slide(&slide, &ctx, 40);
    assert!(rendered.images.is_empty());
    let all = rendered
        .text
        .iter()
        .map(|l| l.plain_text())
        .collect::<Vec<_>>()
        .join("\n");
    assert!(all.contains("[image: c]"), "got: {all}");
}

#[test]
fn task_items_render_checkbox_markers() {
    let text = render("- [x] done\n- [ ] todo\n- plain", 40);
    assert_eq!(strings(&text), vec!["[x] done", "[ ] todo", "- plain"]);
}

#[test]
fn link_url_is_shown_after_the_text() {
    let text = render("see [docs](https://x.dev) now", 60);
    assert_eq!(text[0].plain_text(), "see docs (https://x.dev) now");
}

#[test]
fn autolink_url_is_not_repeated() {
    let text = render("go to <https://x.dev> now", 60);
    assert_eq!(text[0].plain_text(), "go to https://x.dev now");
}

#[test]
fn comments_do_not_render() {
    let text = render("visible\n\n<!-- hidden -->", 40);
    let all = strings(&text).join("\n");
    assert!(!all.contains("hidden"));
    assert!(all.contains("visible"));
}

#[test]
fn empty_slide_renders_empty() {
    let text = render("", 40);
    assert_eq!(text.len(), 0);
}

#[test]
fn no_trailing_blank_lines() {
    let text = render("# T\n\nbody", 40);
    assert!(text.last().unwrap().width() > 0);
}

#[test]
fn narrow_widths_render_at_ten_columns() {
    let text = render("aaaaa bbbbb ccccc", 3);
    assert_eq!(strings(&text), vec!["aaaaa", "bbbbb", "ccccc"]);
}

#[test]
fn tallest_slide_reports_rows_and_first_index() {
    let slides = vec![
        Slide::parse("one"),
        Slide::parse("a\n\nb\n\nc"),
        Slide::parse("x\n\ny\n\nz"),
    ];
    let theme = Theme::dark();
    assert_eq!(tallest_slide(&slides, &theme, highlighter(), 40), (5, 2));
    assert_eq!(tallest_slide(&Vec::new(), &theme, highlighter(), 40), (0, 0));
}

#[test]
fn zero_row_sizes_fall_back_to_the_placeholder() {
    let rendered = render_with_images("![pic](p.png)", 40, (10, 0));
    assert!(rendered.images.is_empty());
    assert_eq!(rendered.text[0].plain_text(), "[image: pic]");
}
