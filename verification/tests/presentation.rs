//! Assembling a presentation from a split source.

use keynot::markdown::metadata::Metadata;
use keynot::markdown::splitter::split;
use keynot::template::deck_title;
use keynot::markdown::{ParseError, Presentation};

fn assemble(src: &str) -> Result<Presentation, ParseError> {
    let s = split(src)?;
    Presentation::from_split(&s, Metadata::default())
}

#[test]
fn parses_without_frontmatter() {
    let p = assemble("# Hello\n\ntext\n").unwrap();
    assert_eq!(p.slides.len(), 1);
}

#[test]
fn empty_file_is_no_slides() {
    assert!(matches!(assemble("   \n\n"), Err(ParseError::NoSlides)));
}

#[test]
fn whitespace_only_slides_are_dropped() {
    let p = assemble("# A\n\n---\n\n   \n\n---\n\n# B\n").unwrap();
    assert_eq!(p.slides.len(), 2);
}

#[test]
fn title_prefers_metadata() {
    let s = split("---\ntitle: Meta Title\n---\n\n# Heading Title\n").unwrap();
    let mut m = Metadata::default();
    m.title = Some("Meta Title".to_string());
    let p = Presentation::from_split(&s, m).unwrap();
    assert_eq!(p.title().as_deref(), Some("Meta Title"));
}

#[test]
fn title_falls_back_to_first_heading() {
    let p = assemble("some text\n\n---\n\n# Real Title\n").unwrap();
    assert_eq!(p.title().as_deref(), Some("Real Title"));
}

#[test]
fn title_fallback_keeps_styled_heading_text() {
    // The bold tail must not be dropped from the title.
    let p = assemble("# Hello **World**\n").unwrap();
    assert_eq!(p.title().as_deref(), Some("Hello World"));
}

#[test]
fn title_none_when_no_heading_or_metadata() {
    let p = assemble("just a paragraph\n").unwrap();
    assert_eq!(p.title(), None);
}

#[test]
fn metadata_is_kept_as_given() {
    let s = split("# One\n").unwrap();
    let mut m = Metadata::default();
    m.author = Some("Alice".to_string());
    let p = Presentation::from_split(&s, m).unwrap();
    assert_eq!(p.metadata.author.as_deref(), Some("Alice"));
}

#[test]
fn unterminated_frontmatter_is_reported() {
    assert!(matches!(
        assemble("---\ntitle: x\n\n# Slide\n"),
        Err(ParseError::UnterminatedFrontmatter)
    ));
}

#[test]
fn parse_error_messages_read_as_sentences() {
    assert_eq!(ParseError::NoSlides.message(), "the file contains no slides");
    assert_eq!(
        ParseError::Frontmatter("bad".to_string()).message(),
        "invalid frontmatter: bad"
    );
    assert_eq!(
        ParseError::UnterminatedFrontmatter.message(),
        "unterminated frontmatter: the leading `---` needs a closing `---`"
    );
}

#[test]
fn unknown_keys_list_top_level_then_colors() {
    let mut m = Metadata::default();
    m.unknown = vec!["transtion".to_string()];
    m.colors.unknown = vec!["backgroud".to_string()];
    assert_eq!(m.unknown_keys(), vec!["transtion", "colors.backgroud"]);
}

#[test]
fn unknown_keys_stay_sorted_and_each_once() {
    let mut m = Metadata::default();
    for k in ["transtion", "hilight", "transtion", "zed", "a"] {
        m.add_unknown_key(k.to_string());
    }
    m.colors.add_unknown_key("backgroud".to_string());
    m.colors.add_unknown_key("accnt".to_string());
    assert_eq!(m.unknown, vec!["a", "hilight", "transtion", "zed"]);
    assert_eq!(
        m.unknown_keys(),
        vec!["a", "hilight", "transtion", "zed", "colors.accnt", "colors.backgroud"]
    );
}

#[test]
fn new_deck_title_from_file_stem() {
    assert_eq!(deck_title("my-first_talk"), "my first talk");
    assert_eq!(deck_title("Talk"), "Talk");
    assert_eq!(deck_title(""), "My Presentation");
}
