//! Splitting `.keynot` source into frontmatter and raw slides.

use keynot::markdown::splitter::{split, split_columns};
use keynot::markdown::metadata::Metadata;
use keynot::markdown::{ParseError, Presentation};

fn slide_contents(src: &str) -> Vec<String> {
    split(src)
        .unwrap()
        .slides
        .into_iter()
        .map(|s| s.content)
        .collect()
}

#[test]
fn single_slide_no_frontmatter() {
    let r = split("# Hello\n\nworld\n").unwrap();
    assert_eq!(r.frontmatter, None);
    assert_eq!(r.slides.len(), 1);
    assert_eq!(r.slides[0].content, "# Hello\n\nworld");
    assert_eq!(r.slides[0].line, 1);
}

#[test]
fn splits_on_dashes() {
    let slides = slide_contents("# A\n---\n# B\n---\n# C\n");
    assert_eq!(slides, vec!["# A", "# B", "# C"]);
}

#[test]
fn separator_allows_surrounding_whitespace() {
    let slides = slide_contents("# A\n  ---  \n# B\n");
    assert_eq!(slides, vec!["# A", "# B"]);
}

#[test]
fn four_dashes_is_not_a_separator() {
    let slides = slide_contents("# A\n----\n# B\n");
    assert_eq!(slides.len(), 1);
}

#[test]
fn dashes_with_trailing_text_are_not_a_separator() {
    let slides = slide_contents("# A\n--- extra\n# B\n");
    assert_eq!(slides.len(), 1);
}

#[test]
fn extracts_frontmatter() {
    let r = split("---\ntitle: Hi\nauthor: Alice\n---\n# Slide\n").unwrap();
    assert_eq!(r.frontmatter.as_deref(), Some("title: Hi\nauthor: Alice"));
    assert_eq!(r.slides.len(), 1);
    assert_eq!(r.slides[0].content, "# Slide");
    assert_eq!(r.slides[0].line, 5);
}

#[test]
fn frontmatter_can_close_with_yaml_dots() {
    let r = split("---\ntitle: Hi\n...\n# Slide\n").unwrap();
    assert_eq!(r.frontmatter.as_deref(), Some("title: Hi"));
    assert_eq!(r.slides.len(), 1);
}

#[test]
fn empty_frontmatter() {
    let r = split("---\n---\n# Slide\n").unwrap();
    assert_eq!(r.frontmatter.as_deref(), Some(""));
    assert_eq!(r.slides.len(), 1);
}

#[test]
fn unterminated_frontmatter_errors() {
    assert!(matches!(
        split("---\ntitle: Hi\n# Slide\n"),
        Err(ParseError::UnterminatedFrontmatter)
    ));
}

#[test]
fn dashes_inside_backtick_fence_do_not_split() {
    let src = "# A\n```yaml\n---\nkey: value\n---\n```\n---\n# B\n";
    let slides = slide_contents(src);
    assert_eq!(slides.len(), 2);
    assert!(slides[0].contains("key: value"));
    assert_eq!(slides[1], "# B");
}

#[test]
fn dashes_inside_tilde_fence_do_not_split() {
    let src = "~~~\n---\n~~~\n---\n# B\n";
    let slides = slide_contents(src);
    assert_eq!(slides.len(), 2);
}

#[test]
fn longer_fence_needs_longer_close() {
    // The inner ``` does not close a ```` fence.
    let src = "````\n```\n---\n```\n````\n---\n# B\n";
    let slides = slide_contents(src);
    assert_eq!(slides.len(), 2);
    assert!(slides[0].contains("---"));
}

#[test]
fn backtick_info_string_with_backtick_is_not_a_fence() {
    // ``` `x` ``` is inline code, not a fence opener, so the --- splits.
    let src = "``` `x` ```\n---\n# B\n";
    let slides = slide_contents(src);
    assert_eq!(slides.len(), 2);
}

#[test]
fn fence_with_language_info() {
    let src = "```rust\nlet x = 1;\n---\n```\n";
    let slides = slide_contents(src);
    assert_eq!(slides.len(), 1);
}

#[test]
fn unclosed_fence_swallows_rest_of_file() {
    let src = "```\n---\n# still code\n";
    let slides = slide_contents(src);
    assert_eq!(slides.len(), 1);
}

#[test]
fn drops_blank_slides() {
    let slides = slide_contents("# A\n---\n\n   \n---\n# B\n---\n");
    assert_eq!(slides, vec!["# A", "# B"]);
}

#[test]
fn handles_crlf_line_endings() {
    let r = split("---\r\ntitle: Hi\r\n---\r\n# A\r\n---\r\n# B\r\n").unwrap();
    assert_eq!(r.frontmatter.as_deref(), Some("title: Hi"));
    assert_eq!(r.slides.len(), 2);
}

#[test]
fn records_slide_line_numbers() {
    let r = split("---\ntitle: T\n---\n# A\n---\n# B\n").unwrap();
    assert_eq!(r.slides[0].line, 4);
    assert_eq!(r.slides[1].line, 6);
}

#[test]
fn empty_input() {
    let r = split("").unwrap();
    assert_eq!(r.frontmatter, None);
    assert!(r.slides.is_empty());
}

#[test]
fn tab_indented_fence_is_not_a_fence() {
    // A tab makes the line indented code, not a fence, so the ---
    // still separates slides (same as other indented code).
    let slides = slide_contents("\t```\n---\n\t```\n");
    assert_eq!(slides.len(), 2);
}

#[test]
fn indented_code_block_dashes_still_split() {
    // We only protect fenced blocks; a bare --- at column 0 splits even
    // if the author meant it as indented code. Documented behavior.
    let slides = slide_contents("# A\n\n    code\n---\n# B\n");
    assert_eq!(slides.len(), 2);
}

#[test]
fn pipes_cut_columns() {
    assert_eq!(split_columns("left\n|||\nright"), vec!["left", "right"]);
    assert_eq!(split_columns("a\n  |||  \nb\n|||\nc"), vec!["a", "b", "c"], "two separators, three columns");
}

#[test]
fn pipes_inside_a_fence_do_not_cut() {
    let src = "```\n|||\n```\n|||\nright";
    assert_eq!(split_columns(src), vec!["```\n|||\n```", "right"]);
}

#[test]
fn blank_columns_are_dropped() {
    assert_eq!(split_columns("|||\n\n|||\nonly"), vec!["only"]);
    assert!(split_columns("  \n|||\n\n").is_empty());
    assert_eq!(split_columns("no columns here"), vec!["no columns here"]);
}

#[test]
fn a_slide_of_blank_columns_is_dropped() {
    let p = Presentation::from_split(&split("# A\n---\n|||\n---\n# B\n").unwrap(), Metadata::default()).unwrap();
    assert_eq!(p.slides.len(), 2);
    let q = Presentation::from_split(&split("a\n|||\nb\n").unwrap(), Metadata::default()).unwrap();
    assert_eq!(q.slides[0].columns.len(), 2);
}

#[test]
fn rejoined_slides_split_back() {
    let src = "---\ntitle: T\n---\n# One\n\n```\n---\n```\n---\n\n---\nTwo\n\n---\n  ~~~\n---\n";
    let first = slide_contents(src);
    assert_eq!(first.len(), 3);
    let joined = first.join("\n---\n");
    let again = split(&joined).unwrap();
    assert_eq!(again.frontmatter, None);
    let contents: Vec<String> = again.slides.into_iter().map(|s| s.content).collect();
    assert_eq!(contents, first);
}
