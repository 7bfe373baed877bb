//! Code highlighting through syntect.

use keynot::render::highlight::{highlighted_lines, HighlightedLine, Highlighter};
use keynot::theme::Color;

fn highlighter() -> Highlighter {
    Highlighter::new()
}

#[test]
fn highlights_rust_with_colors() {
    let h = highlighter();
    let lines = h.highlight("fn main() {}\n", Some("rust"), "base16-eighties.dark");
    assert_eq!(lines.len(), 1);
    assert_eq!(lines[0].plain_text(), "fn main() {}");
    // At least one span should carry a foreground color.
    assert!(lines[0].spans.iter().any(|s| s.style.fg.is_some()));
}

#[test]
fn one_line_per_code_line() {
    let h = highlighter();
    let lines = h.highlight("a = 1\nb = 2\n", Some("python"), "base16-eighties.dark");
    assert_eq!(lines.len(), 2);
    assert_eq!(lines[0].plain_text(), "a = 1");
    assert_eq!(lines[1].plain_text(), "b = 2");
}

#[test]
fn unknown_language_falls_back_to_plain() {
    let h = highlighter();
    let lines = h.highlight("whatever\n", Some("nosuchlang"), "base16-eighties.dark");
    assert_eq!(lines.len(), 1);
    assert_eq!(lines[0].plain_text(), "whatever");
}

#[test]
fn no_language_is_plain() {
    let h = highlighter();
    let lines = h.highlight("plain text\n", None, "base16-eighties.dark");
    assert_eq!(lines[0].plain_text(), "plain text");
}

#[test]
fn unknown_theme_falls_back_to_plain() {
    let h = highlighter();
    let lines = h.highlight("fn x() {}\n", Some("rust"), "no-such-theme");
    assert_eq!(lines.len(), 1);
    assert_eq!(lines[0].plain_text(), "fn x() {}");
}

#[test]
fn empty_code_yields_one_empty_line() {
    let h = highlighter();
    let lines = h.highlight("", Some("rust"), "base16-eighties.dark");
    assert_eq!(lines.len(), 1);
}

#[test]
fn tabs_expand_to_spaces() {
    let h = highlighter();
    let lines = h.highlight("\tindented\n", None, "base16-eighties.dark");
    assert_eq!(lines[0].plain_text(), "    indented");
    // Same for the unknown-theme plain path.
    let lines = h.highlight("\tindented\n", None, "no-such-theme");
    assert_eq!(lines[0].plain_text(), "    indented");
}

#[test]
fn language_aliases_work() {
    let h = highlighter();
    // "rs" is the file-extension token for Rust.
    let lines = h.highlight("let x = 1;\n", Some("rs"), "base16-eighties.dark");
    assert!(lines[0].spans.iter().any(|s| s.style.fg.is_some()));
}

#[test]
fn default_themes_are_available() {
    let h = highlighter();
    assert!(h.has_theme("base16-eighties.dark"));
    assert!(h.has_theme("Dark+"), "built-in theme is loaded");
    assert!(h.has_theme("InspiredGitHub"));
    assert!(!h.has_theme("no-such-theme"));
    let names = h.available_themes();
    assert!(!names.is_empty());
    assert!(names.iter().all(|n| h.has_theme(n)));
    assert!(names.windows(2).all(|w| w[0] < w[1]), "sorted, each once: {names:?}");
}

#[test]
fn dark_plus_token_colors_are_applied() {
    let h = highlighter();
    let lines = h.highlight("fn main() { let s = \"hi\"; }\n", Some("rust"), "Dark+");
    let colors: Vec<(String, Option<Color>)> =
        lines[0].spans.iter().map(|s| (s.content.to_string(), s.style.fg)).collect();
    let color_of = |text: &str| colors.iter().find(|(t, _)| t.contains(text)).and_then(|(_, c)| *c);
    assert_eq!(color_of("fn"), Some(Color::Rgb(0x56, 0x9C, 0xD6)), "keywords are Dark+ blue; spans: {colors:?}");
    assert_eq!(color_of("hi"), Some(Color::Rgb(0xCE, 0x91, 0x78)), "strings are Dark+ sienna; spans: {colors:?}");
}

#[test]
fn the_dark_theme_highlights_with_dark_plus() {
    let h = highlighter();
    let theme = keynot::theme::Theme::dark();
    assert!(h.has_theme(&theme.code_theme));
    let lines = h.highlight("let x = 1;\n", Some("rust"), &theme.code_theme);
    assert!(lines[0].spans.len() > 1, "highlighted, not plain");
}

#[test]
fn plain_fallback_keeps_blank_lines_inside_the_code() {
    let h = highlighter();
    let lines = h.highlight("a\n\nb\n\n", None, "no-such-theme");
    let text: Vec<String> = lines.iter().map(|l| l.plain_text()).collect();
    assert_eq!(text, vec!["a", "", "b"]);
}

#[test]
fn highlighted_pieces_become_spans() {
    let hl = vec![
        HighlightedLine {
            text: "ab\n".to_string(),
            segments: Some(vec![
                (10, 20, 30, 1, "a".to_string()),
                (0, 0, 0, 0, "\n".to_string()),
                (40, 50, 60, 0, "b\n".to_string()),
            ]),
        },
        HighlightedLine { text: "plain\n".to_string(), segments: None },
    ];
    let lines = highlighted_lines(&hl);
    assert_eq!(lines.len(), 2);
    assert_eq!(lines[0].spans.len(), 2);
    assert_eq!(lines[0].spans[0].content, "a");
    assert_eq!(lines[0].spans[0].style.fg, Some(Color::Rgb(10, 20, 30)));
    assert!(lines[0].spans[0].style.add_modifier.bold);
    assert_eq!(lines[0].spans[1].content, "b");
    assert_eq!(lines[0].spans[1].style.fg, Some(Color::Rgb(40, 50, 60)));
    assert_eq!(lines[1].plain_text(), "plain");
    let none = highlighted_lines(&Vec::new());
    assert_eq!(none.len(), 1);
    assert_eq!(none[0].plain_text(), "");
}
