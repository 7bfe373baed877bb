//! Frame layout, the speaker's highlight, the outline, the footer and the
//! help box.

use keynot::markdown::metadata::{HighlightStyle, Metadata};
use keynot::markdown::splitter::split;
use keynot::markdown::Presentation;
use keynot::player::{Key, KeyPress, Mode, Player};
use keynot::render::highlight::Highlighter;
use keynot::render::slide::{render_slide, RenderContext, RenderedSlide, SizedImage};
use keynot::render::style::Line;
use keynot::screen::{
    footer_lines, help_box, layout, outline_lines, picture_area, picture_limit, slide_area,
    style_highlight, Area,
};
use keynot::theme::{Color, Theme};
use std::sync::OnceLock;

fn highlighter() -> &'static Highlighter {
    static H: OnceLock<Highlighter> = OnceLock::new();
    H.get_or_init(Highlighter::new)
}

/// The color the bar's text takes in these tests.
const BAR_FG: Color = Color::Rgb(0x22, 0x22, 0x24);

fn deck_with(src: &str, metadata: Metadata) -> Presentation {
    Presentation::from_split(&split(src).unwrap(), metadata).unwrap()
}

fn deck(src: &str) -> Presentation {
    deck_with(src, Metadata::default())
}

/// The content area of a `w` x `h` terminal.
fn content(w: u16, h: u16) -> Area {
    layout(Area::new(0, 0, w, h)).unwrap().0
}

fn rendered(p: &Presentation, index: usize, width: u16, sizes: Option<&Vec<SizedImage>>) -> RenderedSlide {
    let theme = Theme::dark();
    let ctx = RenderContext { theme: &theme, highlighter: highlighter(), image_sizes: sizes };
    render_slide(&p.slides[index], &ctx, width as usize)
}

/// The slide's text with `(column, position)` highlighted.
fn highlighted(src: &str, style: HighlightStyle, col: usize, pos: usize) -> Vec<Line> {
    let p = deck(src);
    let r = rendered(&p, 0, content(60, 20).width, None);
    let mut text = r.text;
    let span = &r.columns[col];
    style_highlight(&Theme::dark(), style, &mut text, span, span.non_blank[pos], BAR_FG);
    text
}

/// Every letter with whether it shows dimmed.
fn letters(text: &[Line]) -> Vec<(char, bool)> {
    let mut out = Vec::new();
    for line in text {
        for span in &line.spans {
            let dim = span.style.add_modifier.dim || line.style.add_modifier.dim;
            for c in span.content.chars().filter(|c| c.is_ascii_lowercase()) {
                out.push((c, dim));
            }
        }
    }
    out
}

/// The letters drawn on the accent bar, and the bar's width.
fn on_bar(text: &[Line], accent: Color) -> (String, usize) {
    let mut letters = String::new();
    let mut width = 0;
    for line in text {
        for span in &line.spans {
            let bg = span.style.bg.or(line.style.bg);
            if bg == Some(accent) {
                width += span.content.chars().count();
                letters.extend(span.content.chars().filter(|c| c.is_ascii_lowercase()));
            }
        }
    }
    (letters, width)
}

#[test]
fn dim_style_dims_all_but_the_highlighted_line() {
    let text = highlighted("xxx\n\nzzz\n", HighlightStyle::Dim, 0, 0);
    let l = letters(&text);
    assert!(l.iter().any(|&(c, _)| c == 'x') && l.iter().any(|&(c, _)| c == 'z'));
    for (c, dim) in l {
        match c {
            'x' => assert!(!dim, "highlighted line must not dim"),
            'z' => assert!(dim, "other lines must dim"),
            _ => {}
        }
    }
}

#[test]
fn bar_style_paints_a_full_width_accent_bar() {
    let accent = Theme::dark().accent;
    let text = highlighted("xxx\n\nzzz\n", HighlightStyle::Bar, 0, 0);
    let (letters, width) = on_bar(&text, accent);
    assert_eq!(letters, "xxx", "only the highlighted line rides the bar");
    assert_eq!(width, 50, "bar spans the full content width");
    for line in &text {
        for span in &line.spans {
            if span.content.contains('x') {
                assert_eq!(span.style.fg, Some(BAR_FG), "text flips to the bar color");
            }
            if span.content.contains('z') {
                assert!(!span.style.add_modifier.dim, "bar never dims");
            }
        }
    }
}

#[test]
fn highlight_bar_covers_only_its_column() {
    let text = highlighted("aaa\n|||\nbbb\n", HighlightStyle::Bar, 0, 0);
    assert_eq!(on_bar(&text, Theme::dark().accent).0, "aaa", "only the first column rides the bar");
}

#[test]
fn highlight_bar_follows_the_column() {
    let text = highlighted("aaa\n|||\nbbb\n", HighlightStyle::Bar, 1, 0);
    assert_eq!(on_bar(&text, Theme::dark().accent).0, "bbb");
}

#[test]
fn dim_highlight_dims_the_other_columns_segment() {
    let text = highlighted("aaa\n|||\nbbb\n", HighlightStyle::Dim, 0, 0);
    let l = letters(&text);
    assert!(l.iter().filter(|&&(c, _)| c == 'a').all(|&(_, d)| !d), "the highlighted column keeps full brightness");
    assert!(l.iter().any(|&(c, d)| c == 'b' && d), "the other column dims, even on the same row");
}

#[test]
fn help_modal_text_is_not_clipped() {
    let (lines, area) = help_box(Area::new(0, 0, 60, 20), &Theme::dark());
    let texts: Vec<String> = lines.iter().map(|l| l.plain_text()).collect();
    let widest = texts.iter().map(|t| t.chars().count()).max().unwrap();
    for want in ["right, space, l, n", "shell; exit resumes", "first / last slide"] {
        assert!(texts.iter().any(|t| t.contains(want)), "{want} in {texts:?}");
    }
    assert!(widest as u16 + 2 <= area.width, "box {area:?} holds every line");
    assert_eq!(lines.len(), 14, "13 rows and a blank line");
    assert_eq!(area, Area { x: 2, y: 2, width: 55, height: 16 });
}

#[test]
fn help_box_clamps_to_a_small_frame() {
    let (_, area) = help_box(Area::new(0, 0, 20, 8), &Theme::dark());
    assert_eq!(area, Area { x: 1, y: 1, width: 18, height: 6 });
}

fn footer_texts(p: &Presentation, player: &Player, error: Option<&str>) -> Option<(String, String)> {
    let error = error.map(|e| e.to_string());
    footer_lines(p, player, &error, &Theme::dark()).map(|(l, r)| (l.plain_text(), r.plain_text()))
}

#[test]
fn footer_shows_title_author_and_counter() {
    let mut m = Metadata::default();
    m.title = Some("My Talk".to_string());
    m.author = Some("Alice".to_string());
    let p = deck_with("# A\n---\n# B\n", m);
    let player = Player::new(2, 0, p.metadata.transition);
    let (left, right) = footer_texts(&p, &player, None).unwrap();
    assert_eq!(left, "My Talk  -  Alice");
    assert_eq!(right, "? help  1/2");
}

#[test]
fn footer_hidden_when_disabled() {
    let mut m = Metadata::default();
    m.footer = Some(false);
    let p = deck_with("# A\n---\n# B\n", m);
    let player = Player::new(2, 0, p.metadata.transition);
    assert!(footer_texts(&p, &player, None).is_none());
}

#[test]
fn footer_shows_errors_over_metadata() {
    let mut m = Metadata::default();
    m.title = Some("T".to_string());
    let p = deck_with("# A\n", m);
    let player = Player::new(1, 0, p.metadata.transition);
    let (left, _) = footer_texts(&p, &player, Some("reload failed: boom")).unwrap();
    assert_eq!(left, "reload failed: boom");
}

#[test]
fn pending_number_shows_in_the_footer() {
    let src = (1..=10).map(|i| format!("# Slide {i}\n")).collect::<Vec<_>>().join("---\n");
    let p = deck(&src);
    let mut player = Player::new(10, 0, p.metadata.transition);
    player.mode = Mode::Outline;
    player.handle_key(KeyPress { key: Key::Char('4'), ctrl: false }, &Vec::new());
    let (_, right) = footer_texts(&p, &player, None).unwrap();
    assert!(right.contains("go to 4"), "{right}");
    player.handle_key(KeyPress { key: Key::Esc, ctrl: false }, &Vec::new());
    assert_eq!(footer_texts(&p, &player, None).unwrap().1, "enter jump  esc back  ? help");
}

fn outline(src: &str) -> Vec<String> {
    let p = deck(src);
    let t = Theme::dark();
    outline_lines(&p.slides, 0, 0, content(60, 20).height, &t, BAR_FG)
        .iter()
        .map(|l| l.plain_text())
        .collect()
}

#[test]
fn outline_lists_slides_and_marks_the_current_one() {
    let p = deck("# Alpha\n---\n# Beta\n---\nno heading here\n");
    let t = Theme::dark();
    let lines = outline_lines(&p.slides, 0, 0, 17, &t, BAR_FG);
    let texts: Vec<String> = lines.iter().map(|l| l.plain_text()).collect();
    assert_eq!(texts[0], "Outline (3 slides)");
    assert_eq!(texts[2], "*   1  Alpha");
    assert_eq!(texts[3], "    2  Beta");
    assert!(texts[4].contains("3  no heading here"));
    assert_eq!(lines[2].style.bg, Some(t.accent), "selected outline row must be highlighted");
    assert_eq!(lines[3].style.bg, None);
}

#[test]
fn outline_labels_untitled_slides() {
    assert!(outline("```\ncode only\n```\n").iter().any(|l| l.contains("(untitled)")));
}

#[test]
fn outline_labels_find_headingless_column_text() {
    assert!(outline("first col\n|||\n## Col Title\n---\n# B\n").iter().any(|l| l.contains("Col Title")));
}

#[test]
fn outline_scrolls_to_keep_the_selection_visible() {
    let src = (1..=30).map(|i| format!("# S{i}\n")).collect::<Vec<_>>().join("---\n");
    let p = deck(&src);
    let lines = outline_lines(&p.slides, 0, 25, 10, &Theme::dark(), BAR_FG);
    let texts: Vec<String> = lines.iter().map(|l| l.plain_text()).collect();
    assert_eq!(texts.len(), 10, "heading, blank and eight rows");
    assert!(texts[9].ends_with("26  S26"), "{texts:?}");
}

#[test]
fn layout_pads_the_content_and_reserves_the_footer() {
    let (c, f) = layout(Area::new(0, 0, 60, 20)).unwrap();
    assert_eq!(c, Area { x: 5, y: 1, width: 50, height: 17 });
    assert_eq!(f, Area { x: 0, y: 19, width: 60, height: 1 });
    assert!(layout(Area::new(0, 0, 9, 20)).is_none());
    assert!(layout(Area::new(0, 0, 60, 2)).is_none());
}

#[test]
fn slides_center_vertically() {
    let c = content(60, 20);
    assert_eq!(slide_area(c, 5), Area { x: 5, y: 7, width: 50, height: 5 });
    assert_eq!(slide_area(c, 100), c);
}

#[test]
fn two_column_slides_draw_both_columns() {
    let p = deck("LEFTTEXT\n|||\nRIGHTTEXT\n");
    let r = rendered(&p, 0, 50, None);
    let row = r.text.iter().map(|l| l.plain_text()).find(|l| l.contains("LEFTTEXT")).unwrap();
    assert!(row.contains("RIGHTTEXT"), "columns share a row: {row:?}");
}

#[test]
fn three_column_slides_draw_all_columns() {
    let p = deck("AAA\n|||\nBBB\n|||\nCCC\n");
    let r = rendered(&p, 0, 50, None);
    let row = r.text.iter().map(|l| l.plain_text()).find(|l| l.contains("AAA")).unwrap();
    let (a, b, c) = (row.find("AAA").unwrap(), row.find("BBB").unwrap(), row.find("CCC").unwrap());
    assert!(a < b && b < c, "columns in order: {row:?}");
}

fn sized(p: &Presentation, size: (u16, u16)) -> Vec<SizedImage> {
    p.slides[0]
        .image_sources()
        .into_iter()
        .map(|source| SizedImage { source, cols: size.0, rows: size.1 })
        .collect()
}

#[test]
fn image_draws_centered_in_a_single_column_slide() {
    let p = deck("![pic](x.png)\n");
    let sizes = sized(&p, (6, 2));
    let c = content(60, 20);
    let r = rendered(&p, 0, c.width, Some(&sizes));
    let area = slide_area(c, r.text.len());
    let pl = &r.images[0];
    let at = picture_area(area, pl.x, pl.line, pl.width, pl.height).unwrap();
    assert_eq!(at.width, 6, "6-cell-wide image");
    let mid = at.x + 3;
    assert!(mid.abs_diff(30) <= 2, "roughly centered: {at:?}");
}

#[test]
fn image_draws_inside_its_column_not_slide_centered() {
    let p = deck("LEFTTEXT\n|||\n![pic](x.png)\n");
    let sizes = sized(&p, (6, 2));
    let c = content(80, 24);
    let r = rendered(&p, 0, c.width, Some(&sizes));
    let area = slide_area(c, r.text.len());
    let pl = &r.images[0];
    let at = picture_area(area, pl.x, pl.line, pl.width, pl.height).unwrap();
    let row = r.text.iter().map(|l| l.plain_text()).find(|l| l.contains("LEFTTEXT")).unwrap();
    let text_end = c.x as usize + row.find("LEFTTEXT").unwrap() + "LEFTTEXT".len();
    assert!(at.x as usize > text_end, "image starts right of the left column text: {at:?}");
    assert!(at.x >= 38, "in the second column: {at:?}");
}

#[test]
fn image_only_columns_are_skipped_sideways() {
    let p = deck("aaa\n|||\n![p](x.png)\n---\n# Two\n");
    let sizes = sized(&p, (6, 2));
    let r = rendered(&p, 0, content(60, 20).width, Some(&sizes));
    assert!(r.columns[1].non_blank.is_empty(), "the picture column has no text rows");
    let mut player = Player::new(2, 0, p.metadata.transition);
    player.handle_key(KeyPress { key: Key::Down, ctrl: false }, &r.columns);
    assert_eq!(player.highlight, Some((0, 0)));
    player.handle_key(KeyPress { key: Key::Right, ctrl: false }, &r.columns);
    assert_eq!(player.current, 1, "the empty column does not trap the cursor");
}

#[test]
fn pictures_are_clipped_to_the_slide() {
    let slide = Area::new(5, 2, 50, 10);
    assert_eq!(picture_area(slide, 40, 8, 20, 6), Some(Area { x: 45, y: 10, width: 10, height: 2 }));
    assert_eq!(picture_area(slide, 0, 10, 4, 4), None, "below the slide");
    assert_eq!(picture_limit(Area::new(0, 0, 50, 17)), (50, 15));
    assert_eq!(picture_limit(Area::new(0, 0, 50, 2)), (50, 1));
}

#[test]
fn columns_share_the_width_with_gutters() {
    let p = deck("a\n|||\nb\n|||\nc\n");
    let r = rendered(&p, 0, 50, None);
    let spans: Vec<(usize, usize)> = r.columns.iter().map(|c| (c.x, c.width)).collect();
    assert_eq!(spans, vec![(0, 14), (17, 14), (34, 16)]);
}
