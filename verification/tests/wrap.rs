//! Word wrap and column splitting of styled spans.

use keynot::render::style::{Line, Span, Style};
use keynot::render::wrap::{split_spans_at, wrap_spans};
use keynot::render::style::spans_width;
use keynot::theme::Color;

fn raw(text: &str) -> Span {
    Span::raw(text.to_string())
}

fn plain(text: &str) -> Span {
    Span::raw(text.to_string())
}

fn line_strings(lines: &[Line]) -> Vec<String> {
    lines.iter().map(|l| l.plain_text()).collect()
}

#[test]
fn split_at_zero_puts_everything_right() {
    let (l, r) = split_spans_at(vec![raw("abc")], 0);
    assert!(l.is_empty());
    assert_eq!(r[0].content, "abc");
}

#[test]
fn split_at_exact_span_boundary() {
    let spans = vec![raw("ab"), raw("cd")];
    let (l, r) = split_spans_at(spans, 2);
    assert_eq!(l.len(), 1);
    assert_eq!(l[0].content, "ab");
    assert_eq!(r[0].content, "cd");
}

#[test]
fn split_mid_span_preserves_style() {
    let spans = vec![Span::styled("abcd".to_string(), Style::new().bold())];
    let (l, r) = split_spans_at(spans, 3);
    assert_eq!(l[0].content, "abc");
    assert_eq!(r[0].content, "d");
    assert_eq!(l[0].style, r[0].style, "style survives the split");
}

#[test]
fn split_beyond_the_end_leaves_right_empty() {
    let (l, r) = split_spans_at(vec![raw("ab")], 10);
    assert_eq!(l[0].content, "ab");
    assert!(r.is_empty());
}

#[test]
fn wide_char_straddling_the_boundary_goes_right_with_a_pad() {
    // "a" (1 cell) + CJK (2 cells), split at 2: the wide char cannot
    // be halved, so it moves right and a space keeps the left width.
    let (l, r) = split_spans_at(vec![raw("a\u{4e16}b")], 2);
    let left: String = l.iter().map(|s| s.content.as_str()).collect();
    assert_eq!(left, "a ");
    let right: String = r.iter().map(|s| s.content.as_str()).collect();
    assert_eq!(right, "\u{4e16}b");
}

#[test]
fn short_text_stays_on_one_line() {
    let lines = wrap_spans(vec![plain("hello world")], 20);
    assert_eq!(line_strings(&lines), vec!["hello world"]);
}

#[test]
fn wraps_at_word_boundaries() {
    let lines = wrap_spans(vec![plain("the quick brown fox jumps")], 10);
    assert_eq!(line_strings(&lines), vec!["the quick", "brown fox", "jumps"]);
}

#[test]
fn exact_width_fits() {
    let lines = wrap_spans(vec![plain("12345")], 5);
    assert_eq!(line_strings(&lines), vec!["12345"]);
}

#[test]
fn long_word_is_hard_split() {
    let lines = wrap_spans(vec![plain("abcdefghij")], 4);
    assert_eq!(line_strings(&lines), vec!["abcd", "efgh", "ij"]);
}

#[test]
fn newline_forces_break() {
    let lines = wrap_spans(vec![plain("one\ntwo")], 20);
    assert_eq!(line_strings(&lines), vec!["one", "two"]);
}

#[test]
fn styles_survive_wrapping() {
    let bold = Style::new().fg(Color::Red);
    let spans = vec![
        plain("plain "),
        Span::styled("styled words here".to_string(), bold),
    ];
    let lines = wrap_spans(spans, 12);
    assert_eq!(line_strings(&lines), vec!["plain styled", "words here"]);
    // The second line's spans keep the red style.
    assert!(lines[1].spans.iter().all(|s| s.style == bold));
}

#[test]
fn wrapped_lines_do_not_start_with_space() {
    let lines = wrap_spans(vec![plain("aaaa bbbb cccc")], 5);
    for l in line_strings(&lines) {
        assert!(!l.starts_with(' '), "line starts with space: {l:?}");
    }
}

#[test]
fn trailing_spaces_are_trimmed_at_breaks() {
    let lines = wrap_spans(vec![plain("word   next")], 6);
    assert_eq!(line_strings(&lines), vec!["word", "next"]);
}

#[test]
fn empty_input_gives_one_empty_line() {
    let lines = wrap_spans(vec![], 10);
    assert_eq!(lines.len(), 1);
    assert_eq!(lines[0].width(), 0);
}

#[test]
fn wide_chars_counted_by_display_width() {
    // CJK chars are two columns wide.
    let lines = wrap_spans(vec![plain("\u{4f60}\u{597d}\u{4e16}\u{754c}")], 4);
    assert_eq!(lines.len(), 2);
}

#[test]
fn emoji_are_two_columns_wide() {
    // Three grinning faces at width 4: two fit per line.
    let lines = wrap_spans(vec![plain("\u{1f600}\u{1f600}\u{1f600}")], 4);
    assert_eq!(lines.len(), 2);
    assert_eq!(lines[0].plain_text(), "\u{1f600}\u{1f600}");
}

#[test]
fn consecutive_newlines_produce_empty_lines() {
    let lines = wrap_spans(vec![plain("a\n\nb")], 10);
    assert_eq!(line_strings(&lines), vec!["a", "", "b"]);
}

#[test]
fn zero_width_is_clamped() {
    let lines = wrap_spans(vec![plain("ab")], 0);
    assert_eq!(line_strings(&lines), vec!["a", "b"]);
}

#[test]
fn adjacent_same_style_spans_merge_in_output() {
    let spans = vec![plain("aa "), plain("bb")];
    let lines = wrap_spans(spans, 10);
    assert_eq!(lines[0].spans.len(), 1);
}

#[test]
fn spans_width_counts_all_spans() {
    assert_eq!(spans_width(&vec![plain("ab"), plain("cde")]), 5);
}

#[test]
fn split_pads_short_left_side_to_the_column() {
    // A two-wide character at column 0, split at 1: nothing fits left,
    // so the left side is one pad space.
    let (l, r) = split_spans_at(vec![raw("\u{4e16}")], 1);
    assert_eq!(l[0].content, " ");
    assert_eq!(r[0].content, "\u{4e16}");
}

#[test]
fn spaces_that_do_not_fit_are_dropped() {
    let lines = wrap_spans(vec![plain("abc    def")], 5);
    assert_eq!(line_strings(&lines), vec!["abc", "def"]);
}

#[test]
fn leading_spaces_never_start_a_line() {
    let lines = wrap_spans(vec![plain("   x")], 10);
    assert_eq!(line_strings(&lines), vec!["x"]);
}

#[test]
fn every_wrapped_line_fits_the_width() {
    let text = "The quick brown fox jumps over the lazy dog, then a supercalifragilisticexpialidocious word, \
                and then some more ordinary words to fill the paragraph out.";
    for width in [1usize, 3, 7, 12, 20, 33] {
        let lines = wrap_spans(vec![plain(text)], width);
        assert!(!lines.is_empty());
        for l in &lines {
            assert!(spans_width(&l.spans) <= width, "width {width}: {:?}", l.plain_text());
        }
    }
}

#[test]
fn a_split_keeps_every_character() {
    let spans = vec![raw("ab"), raw("中d"), raw("ef")];
    let (l, r) = split_spans_at(spans, 3);
    let left: String = l.iter().map(|s| s.content.as_str()).collect();
    let right: String = r.iter().map(|s| s.content.as_str()).collect();
    assert_eq!(left, "ab ", "the wide character goes right; a pad keeps the column");
    assert_eq!(right, "中def");
    assert_eq!(format!("{}{}", left.trim_end(), right), "ab中def");
}

#[test]
fn straddling_wide_char_pads_in_its_span_style() {
    let bold = Style::new().bold();
    let spans = vec![raw("ab"), Span::styled("c中d".to_string(), bold)];
    let (l, r) = split_spans_at(spans, 4);
    assert_eq!(spans_width(&l), 4);
    assert_eq!(l.len(), 2);
    assert_eq!(l[1].content, "c ");
    assert_eq!(l[1].style, bold);
    assert_eq!(r.len(), 1);
    assert_eq!(r[0].content, "中d");
    assert_eq!(r[0].style, bold);
}

#[test]
fn left_side_is_never_wider_than_the_text() {
    let (l, r) = split_spans_at(vec![raw("ab"), raw("c")], 7);
    assert_eq!(spans_width(&l), 3);
    assert!(r.is_empty());
}
