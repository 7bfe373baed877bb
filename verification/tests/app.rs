//! Loading checks, the `check` summary, the starter skeleton and image
//! bookkeeping.

use keynot::app::{check_report, unknown_key_report, ImageMode, LoadError, LoadedPresentation, PlayOptions};
use keynot::images::{cell_size, deck_image_sources, image_error};
use keynot::markdown::metadata::Metadata;
use keynot::markdown::splitter::split;
use keynot::markdown::Presentation;
use keynot::render::highlight::Highlighter;
use keynot::template::skeleton;
use keynot::theme::Theme;

fn deck_with(src: &str, metadata: Metadata) -> Presentation {
    Presentation::from_split(&split(src).unwrap(), metadata).unwrap()
}

#[test]
fn play_options_default_to_the_first_slide_and_auto_images() {
    let o = PlayOptions::default();
    assert_eq!(o.start_slide, 0);
    assert_eq!(o.images, ImageMode::Auto);
    assert_eq!(ImageMode::default(), ImageMode::Auto);
}

#[test]
fn loading_resolves_the_theme() {
    let p = deck_with("# A\n", Metadata::default());
    let loaded = LoadedPresentation::new(p, &Highlighter::new()).ok().unwrap();
    assert_eq!(loaded.theme.code_theme, "Dark+");
    assert_eq!(loaded.theme.text, Theme::dark().text);
    assert_eq!(loaded.presentation.slides.len(), 1);
}

#[test]
fn the_light_theme_loads_with_its_code_theme() {
    let mut m = Metadata::default();
    m.theme = Some("light".to_string());
    let p = deck_with("# A\n", m);
    let loaded = LoadedPresentation::new(p, &Highlighter::new()).ok().unwrap();
    assert_eq!(loaded.theme.text, Theme::light().text);
}

#[test]
fn unknown_code_theme_is_refused_with_the_loaded_ones() {
    let mut m = Metadata::default();
    m.code_theme = Some("nope".to_string());
    let p = deck_with("# A\n", m);
    let h = Highlighter::new();
    match LoadedPresentation::new(p, &h) {
        Err(e @ LoadError::UnknownCodeTheme { .. }) => {
            let msg = e.message();
            assert!(msg.starts_with("unknown code_theme `nope` (available: "), "{msg}");
            assert!(msg.contains("base16-ocean.dark"), "{msg}");
            assert!(msg.ends_with(')'), "{msg}");
        }
        _ => panic!("expected an unknown code theme"),
    }
}

#[test]
fn a_known_code_theme_loads() {
    let mut m = Metadata::default();
    m.code_theme = Some("base16-ocean.dark".to_string());
    let p = deck_with("# A\n", m);
    assert!(LoadedPresentation::new(p, &Highlighter::new()).is_ok());
}

#[test]
fn theme_errors_come_first() {
    let mut m = Metadata::default();
    m.theme = Some("neon".to_string());
    let p = deck_with("# A\n", m);
    match LoadedPresentation::new(p, &Highlighter::new()) {
        Err(e @ LoadError::Theme(_)) => {
            assert_eq!(e.message(), "unknown theme `neon` (available: dark, light)");
        }
        _ => panic!("expected a theme error"),
    }
}

/// A deck loaded with its own theme settings.
fn loaded(src: &str, m: Metadata) -> LoadedPresentation {
    LoadedPresentation::new(deck_with(src, m), &Highlighter::new()).ok().unwrap()
}

#[test]
fn check_reports_metadata() {
    let mut m = Metadata::default();
    m.title = Some("My Talk".to_string());
    m.author = Some("Alice".to_string());
    let l = loaded("# One\n\n<!-- note -->\n---\n# Two\n", m);
    assert_eq!(
        check_report("t.keynot", &l, &Highlighter::new()),
        vec![
            "t.keynot: OK",
            "  title:  My Talk",
            "  author: Alice",
            "  theme:  dark",
            "  slides: 2",
            "  notes:  1",
            "  tallest: slide 1, 2 lines (at 80 columns)",
        ]
    );
}

#[test]
fn check_summarizes_the_deck() {
    let mut m = Metadata::default();
    m.author = Some("Alice".to_string());
    let l = loaded("# Talk\n<!-- a note -->\n---\n# Two\n\ntext\n<!-- x -->\n<!-- y -->\n", m);
    assert_eq!(
        check_report("talk.keynot", &l, &Highlighter::new()),
        vec![
            "talk.keynot: OK",
            "  title:  Talk",
            "  author: Alice",
            "  theme:  dark",
            "  slides: 2",
            "  notes:  3",
            "  tallest: slide 2, 4 lines (at 80 columns)",
        ]
    );
}

#[test]
fn check_omits_what_is_not_there() {
    let mut m = Metadata::default();
    m.theme = Some("light".to_string());
    let l = loaded("just text\n", m);
    assert_eq!(
        check_report("x", &l, &Highlighter::new()),
        vec!["x: OK", "  theme:  light", "  slides: 1", "  tallest: slide 1, 1 lines (at 80 columns)"]
    );
}

const VALID: &str = "(valid keys: title, author, date, theme, colors, code_theme, code_style, transition, highlight, footer; colors: background, text, heading, accent, link, blockquote, code_background, code_border)";

#[test]
fn check_fails_on_misspelled_frontmatter_key() {
    let mut m = Metadata::default();
    m.title = Some("T".to_string());
    m.unknown = vec!["transtion".to_string()];
    assert_eq!(
        unknown_key_report(&m, "title: T\ntranstion: fade"),
        Some(format!("unknown frontmatter key `transtion` (line 3) {VALID}"))
    );
}

#[test]
fn check_reports_every_misspelled_key_at_once() {
    let mut m = Metadata::default();
    m.unknown = vec!["hilight".to_string(), "transtion".to_string()];
    m.colors.unknown = vec!["backgroud".to_string()];
    assert_eq!(
        unknown_key_report(&m, "hilight: dim\ntranstion: fade\ncolors:\n  backgroud: red"),
        Some(format!(
            "unknown frontmatter keys `hilight` (line 2), `transtion` (line 3), `colors.backgroud` (line 5) {VALID}"
        ))
    );
}

#[test]
fn known_keys_produce_no_report() {
    let m = Metadata::default();
    assert_eq!(unknown_key_report(&m, "title: T\nfooter: false"), None);
}

const TOUR: &str = "---\r\ntitle: The Tour\r\nauthor: Someone\r\ndate: 2024-01-01\r\n---\r\n\r\n# The Tour\r\n\r\n```rust\r\nfn main() {}\r\n```\r\n";

fn tour_metadata() -> Metadata {
    let mut m = Metadata::default();
    m.title = Some("The Tour".to_string());
    m.author = Some("Someone".to_string());
    m.date = Some("2024-01-01".to_string());
    m
}

#[test]
fn tour_personalization_is_complete() {
    let src = skeleton(TOUR, &tour_metadata(), "Demo Talk");
    assert!(!src.contains("The Tour"), "tour title must be replaced");
    assert!(!src.contains("Someone"), "tour author must be replaced");
    assert!(!src.contains("date:"), "tour date must be dropped");
    assert!(!src.contains('\r'), "line endings are normalized");
    assert!(src.contains("# Demo Talk"));
    assert_eq!(
        src,
        "---\ntitle: Demo Talk\nauthor: Your Name\n---\n\n# Demo Talk\n\n```rust\nfn main() {}\n```\n"
    );
}

#[test]
fn skeleton_code_fence_survives_splitting() {
    let src = skeleton(TOUR, &tour_metadata(), "T");
    let s = split(&src).unwrap();
    assert_eq!(s.slides.len(), 1);
}

#[test]
fn skeleton_skips_fields_the_tour_lacks() {
    let src = skeleton("# Hello\n", &Metadata::default(), "T");
    assert_eq!(src, "# Hello\n");
}

#[test]
fn deck_images_are_listed_once_each_in_order() {
    let p = deck_with(
        "![a](one.png)\n\n![b](two.png)\n---\n![c](one.png)\n|||\n![d](three.png)\n",
        Metadata::default(),
    );
    assert_eq!(deck_image_sources(&p.slides), vec!["one.png", "two.png", "three.png"]);
}

#[test]
fn image_cells_round_up() {
    assert_eq!(cell_size(60, 40, (10, 20)), (6, 2));
    assert_eq!(cell_size(61, 41, (10, 20)), (7, 3));
    assert_eq!(cell_size(0, 0, (10, 20)), (1, 1), "never less than a cell");
    assert_eq!(cell_size(5, 5, (0, 0)), (5, 5), "a zero font counts as one pixel");
}

#[test]
fn image_errors_name_the_source() {
    assert_eq!(image_error("x.png", "not found"), "image x.png: not found");
}
