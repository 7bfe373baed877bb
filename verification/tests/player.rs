//! The player's key handling, against the column geometry of the slide
//! last drawn.

use keynot::app::config::{EffectKind, Motion, TransitionEffects};
use keynot::markdown::metadata::{Metadata, Transition};
use keynot::markdown::splitter::split;
use keynot::markdown::Presentation;
use keynot::player::{Key, KeyAction, KeyPress, Mode, Player};
use keynot::render::highlight::Highlighter;
use keynot::render::slide::{render_slide, ColumnSpan, RenderContext};
use keynot::screen::{layout, Area};
use keynot::theme::Theme;
use std::sync::OnceLock;

fn highlighter() -> &'static Highlighter {
    static H: OnceLock<Highlighter> = OnceLock::new();
    H.get_or_init(Highlighter::new)
}

/// A deck being played: the player, and the columns of the slide as the
/// last draw laid it out (none before the first draw).
struct Show {
    presentation: Presentation,
    player: Player,
    drawn: Option<Vec<ColumnSpan>>,
}

fn show_with(src: &str, metadata: Metadata) -> Show {
    let presentation = Presentation::from_split(&split(src).unwrap(), metadata).unwrap();
    let player = Player::new(presentation.slides.len(), 0, presentation.metadata.transition);
    Show { presentation, player, drawn: None }
}

fn show(src: &str) -> Show {
    show_with(src, Metadata::default())
}

/// Lay the shown slide out for a 60x20 terminal, as a draw does.
fn draw(s: &mut Show) {
    let (content, _) = layout(Area::new(0, 0, 60, 20)).unwrap();
    let theme = Theme::dark();
    let ctx = RenderContext { theme: &theme, highlighter: highlighter(), image_sizes: None };
    let slide = &s.presentation.slides[s.player.shown_slide()];
    let rendered = render_slide(slide, &ctx, content.width as usize);
    s.player.revalidate(&rendered.columns);
    s.drawn = Some(rendered.columns);
}

fn press(s: &mut Show, key: Key) -> KeyAction {
    let cols = s.drawn.take().unwrap_or_default();
    let action = s.player.handle_key(KeyPress { key, ctrl: false }, &cols);
    s.drawn = Some(cols).filter(|c| !c.is_empty());
    action
}

#[test]
fn left_right_arrows_change_slides() {
    let mut s = show("# A\n---\n# B\n---\n# C\n");
    press(&mut s, Key::Right);
    assert_eq!(s.player.current, 1);
    press(&mut s, Key::Right);
    assert_eq!(s.player.current, 2);
    press(&mut s, Key::Left);
    assert_eq!(s.player.current, 1);
}

#[test]
fn down_arrow_highlights_lines_not_slides() {
    let mut s = show("a\n\nb\n\nc\n---\n# B\n");
    draw(&mut s);
    press(&mut s, Key::Down);
    assert_eq!(s.player.current, 0, "down must not change slides");
    assert_eq!(s.player.highlight, Some((0, 0)));
    press(&mut s, Key::Down);
    assert_eq!(s.player.highlight, Some((0, 1)));
    press(&mut s, Key::Up);
    assert_eq!(s.player.highlight, Some((0, 0)));
    press(&mut s, Key::Up);
    assert_eq!(s.player.highlight, Some((0, 0)), "clamps at the top");
}

#[test]
fn up_from_no_highlight_starts_at_last_line() {
    let mut s = show("a\n\nb\n\nc\n\nd\n");
    draw(&mut s);
    press(&mut s, Key::Up);
    assert_eq!(s.player.highlight, Some((0, 3)));
}

#[test]
fn highlight_clamps_at_bottom() {
    let mut s = show("a\n\nb\n");
    draw(&mut s);
    for _ in 0..5 {
        press(&mut s, Key::Down);
    }
    assert_eq!(s.player.highlight, Some((0, 1)));
}

#[test]
fn no_highlight_before_the_first_draw() {
    let mut s = show("# A\n");
    press(&mut s, Key::Down);
    assert_eq!(s.player.highlight, None);
}

#[test]
fn esc_clears_highlight_and_never_opens_outline() {
    let mut s = show("a\n\nb\n");
    draw(&mut s);
    press(&mut s, Key::Down);
    assert_eq!(s.player.highlight, Some((0, 0)));
    press(&mut s, Key::Esc);
    assert_eq!(s.player.highlight, None);
    assert_eq!(s.player.mode, Mode::Slides);
    press(&mut s, Key::Esc);
    assert_eq!(s.player.mode, Mode::Slides, "esc must not open the outline");
}

#[test]
fn only_o_toggles_the_outline() {
    let mut s = show("# A\n");
    press(&mut s, Key::Tab);
    assert_eq!(s.player.mode, Mode::Slides, "tab must not open the outline");
    press(&mut s, Key::Char('o'));
    assert_eq!(s.player.mode, Mode::Outline);
    press(&mut s, Key::Tab);
    assert_eq!(s.player.mode, Mode::Outline, "tab must not close it either");
    press(&mut s, Key::Char('o'));
    assert_eq!(s.player.mode, Mode::Slides);
}

#[test]
fn bang_requests_a_shell() {
    let mut s = show("# A\n");
    assert!(!s.player.shell_requested);
    press(&mut s, Key::Char('!'));
    assert!(s.player.shell_requested);
    s.player.shell_requested = false;
    s.player.mode = Mode::Outline;
    press(&mut s, Key::Char('!'));
    assert!(s.player.shell_requested);
}

#[test]
fn changing_slides_clears_highlight() {
    let mut s = show("aa\n\nbb\n---\n# B\n");
    draw(&mut s);
    press(&mut s, Key::Down);
    assert_eq!(s.player.highlight, Some((0, 0)));
    press(&mut s, Key::Right);
    assert_eq!(s.player.highlight, None);
}

#[test]
fn vim_keys_follow_arrow_semantics() {
    let mut s = show("# A\n---\n# B\n");
    draw(&mut s);
    press(&mut s, Key::Char('j'));
    assert_eq!(s.player.current, 0);
    assert_eq!(s.player.highlight, Some((0, 0)));
    press(&mut s, Key::Char('l'));
    assert_eq!(s.player.current, 1);
}

#[test]
fn draw_counts_highlightable_lines() {
    let mut s = show("# Title\n\none\n\ntwo\n");
    draw(&mut s);
    assert_eq!(s.drawn.as_ref().unwrap()[0].non_blank.len(), 4);
    assert_eq!(s.player.highlight, None, "drawing alone must not highlight");
}

#[test]
fn slide_transition_promotes_enter_after_exit() {
    let mut m = Metadata::default();
    m.transition = Transition::Slide;
    let mut s = show_with("# A\n---\n# B\n", m);
    press(&mut s, Key::Right);
    assert!(s.player.outgoing.is_some(), "exit effect starts on goto");
    assert!(s.player.pending_enter);
    assert!(!s.player.entering);
    s.player.exit_finished();
    assert!(s.player.outgoing.is_none(), "exit finished");
    assert!(s.player.entering, "enter effect promoted");
    assert!(!s.player.pending_enter);
    s.player.enter_finished();
    assert!(!s.player.entering, "enter finished");
}

#[test]
fn navigating_mid_animation_skips_the_exit_phase() {
    let mut m = Metadata::default();
    m.transition = Transition::Slide;
    let mut s = show_with("# A\n---\n# B\n---\n# C\n", m);
    press(&mut s, Key::Right);
    assert!(s.player.outgoing.is_some());
    press(&mut s, Key::Right);
    assert_eq!(s.player.current, 2);
    assert!(s.player.outgoing.is_none(), "second goto cancels the exit");
    assert!(s.player.entering, "and enters directly");
}

fn ten_slides() -> String {
    (1..=10).map(|i| format!("# Slide {i}\n")).collect::<Vec<_>>().join("---\n")
}

#[test]
fn typing_a_number_in_the_outline_selects_that_slide() {
    let mut s = show(&ten_slides());
    s.player.mode = Mode::Outline;
    press(&mut s, Key::Char('7'));
    assert_eq!(s.player.selected, 6);
    assert_eq!(s.player.outline_input, Some(7));
    press(&mut s, Key::Enter);
    assert_eq!(s.player.current, 6);
    assert_eq!(s.player.mode, Mode::Slides);
    assert_eq!(s.player.outline_input, None);
}

#[test]
fn multi_digit_numbers_extend_the_selection() {
    let mut s = show(&ten_slides());
    s.player.mode = Mode::Outline;
    press(&mut s, Key::Char('1'));
    assert_eq!(s.player.selected, 0, "first digit selects slide 1");
    press(&mut s, Key::Char('0'));
    assert_eq!(s.player.selected, 9, "second digit extends to slide 10");
    assert_eq!(s.player.outline_input, Some(10));
}

#[test]
fn out_of_range_numbers_clamp_to_the_last_slide() {
    let mut s = show(&ten_slides());
    s.player.mode = Mode::Outline;
    for c in ['9', '9'] {
        press(&mut s, Key::Char(c));
    }
    assert_eq!(s.player.selected, 9);
    assert_eq!(s.player.outline_input, Some(99));
}

#[test]
fn leading_zero_is_ignored() {
    let mut s = show(&ten_slides());
    s.player.mode = Mode::Outline;
    press(&mut s, Key::Char('0'));
    assert_eq!(s.player.outline_input, None);
    press(&mut s, Key::Char('3'));
    assert_eq!(s.player.selected, 2, "0 then 3 selects slide 3, not 03");
}

#[test]
fn arrows_and_esc_clear_the_pending_number() {
    let mut s = show(&ten_slides());
    s.player.mode = Mode::Outline;
    press(&mut s, Key::Char('5'));
    press(&mut s, Key::Down);
    assert_eq!(s.player.outline_input, None);
    assert_eq!(s.player.selected, 5, "down moves from the typed selection");
    press(&mut s, Key::Char('5'));
    press(&mut s, Key::Esc);
    assert_eq!(s.player.outline_input, None);
    assert_eq!(s.player.mode, Mode::Outline, "first esc only clears the number");
    press(&mut s, Key::Esc);
    assert_eq!(s.player.mode, Mode::Slides, "second esc leaves the outline");
}

#[test]
fn start_slide_clamps_to_bounds() {
    for (start, expected) in [(0, 0), (1, 0), (2, 1), (99, 1)] {
        let p = Player::new(2, start, Transition::Coalesce);
        assert_eq!(p.current, expected, "start_slide: {start}");
    }
}

#[test]
fn right_moves_the_highlight_to_the_next_column() {
    let mut s = show("aaa\n|||\nbbb\n---\n# Two\n");
    draw(&mut s);
    press(&mut s, Key::Down);
    assert_eq!(s.player.highlight, Some((0, 0)));
    press(&mut s, Key::Right);
    assert_eq!(s.player.highlight, Some((1, 0)), "into column 2, first line");
    assert_eq!(s.player.current, 0, "still the same slide");
}

#[test]
fn right_past_the_last_column_changes_slides() {
    let mut s = show("aaa\n|||\nbbb\n---\n# Two\n");
    draw(&mut s);
    press(&mut s, Key::Down);
    press(&mut s, Key::Right);
    press(&mut s, Key::Right);
    assert_eq!(s.player.current, 1, "walked off the right edge");
    assert_eq!(s.player.highlight, None, "highlight dropped on slide change");
}

#[test]
fn left_past_the_first_column_changes_slides() {
    let mut s = show("# One\n---\naaa\n|||\nbbb\n");
    draw(&mut s);
    press(&mut s, Key::Right);
    draw(&mut s);
    press(&mut s, Key::Down);
    assert_eq!(s.player.highlight, Some((0, 0)));
    press(&mut s, Key::Left);
    assert_eq!(s.player.current, 0, "walked off the left edge");
    assert_eq!(s.player.highlight, None);
}

#[test]
fn moving_between_columns_lands_on_the_first_line() {
    let mut s = show("a1\n\na2\n\na3\n|||\nb1\n\nb2\n");
    draw(&mut s);
    press(&mut s, Key::Down);
    press(&mut s, Key::Down);
    press(&mut s, Key::Down);
    assert_eq!(s.player.highlight, Some((0, 2)), "third line of column 1");
    press(&mut s, Key::Right);
    assert_eq!(s.player.highlight, Some((1, 0)), "first line of column 2");
}

#[test]
fn single_column_right_still_changes_slides_while_highlighting() {
    let mut s = show("# One\n\ntext\n---\n# Two\n");
    draw(&mut s);
    press(&mut s, Key::Down);
    assert!(s.player.highlight.is_some());
    press(&mut s, Key::Right);
    assert_eq!(s.player.current, 1, "exactly the pre-columns behavior");
    assert_eq!(s.player.highlight, None);
}

#[test]
fn quit_reload_and_help_keys() {
    let mut s = show("# A\n---\n# B\n");
    assert_eq!(press(&mut s, Key::Char('r')), KeyAction::Reload);
    assert_eq!(press(&mut s, Key::Char('q')), KeyAction::Quit);
    assert_eq!(press(&mut s, Key::Char('?')), KeyAction::Continue);
    assert!(s.player.help);
    assert_eq!(press(&mut s, Key::Right), KeyAction::Continue);
    assert!(!s.player.help, "any key closes the help");
    assert_eq!(s.player.current, 0, "and does nothing else");
    let cols = Vec::new();
    let a = s.player.handle_key(KeyPress { key: Key::Char('c'), ctrl: true }, &cols);
    assert_eq!(a, KeyAction::Quit);
}

#[test]
fn home_end_and_goto_clamp() {
    let mut s = show(&ten_slides());
    press(&mut s, Key::End);
    assert_eq!(s.player.current, 9);
    press(&mut s, Key::Right);
    assert_eq!(s.player.current, 9, "no slide past the last");
    press(&mut s, Key::Char('g'));
    assert_eq!(s.player.current, 0);
    s.player.goto(usize::MAX);
    assert_eq!(s.player.current, 9);
}

#[test]
fn reload_clamps_position_and_drops_animation() {
    let mut m = Metadata::default();
    m.transition = Transition::Slide;
    let mut s = show_with("# A\n---\n# B\n---\n# C\n", m);
    press(&mut s, Key::End);
    assert!(s.player.outgoing.is_some());
    s.player.reloaded(1, Transition::Fade);
    assert_eq!(s.player.current, 0);
    assert!(s.player.outgoing.is_none() && !s.player.entering && !s.player.pending_enter);
    assert_eq!(s.player.transition, Transition::Fade);
}

#[test]
fn instant_transition_has_no_effects() {
    assert!(Transition::Instant.enter(true).is_none());
    assert!(Transition::Instant.exit(true).is_none());
}

#[test]
fn slide_transition_has_exit_and_enter() {
    assert!(Transition::Slide.enter(true).is_some());
    assert!(Transition::Slide.exit(true).is_some());
}

#[test]
fn only_slide_has_an_exit_phase() {
    for t in [Transition::Coalesce, Transition::Fade, Transition::Sweep] {
        assert!(t.enter(true).is_some());
        assert!(t.exit(true).is_none());
    }
}

#[test]
fn push_direction_follows_navigation() {
    let fwd = Transition::Slide.exit(true).unwrap();
    assert_eq!(
        fwd.kind,
        EffectKind::SlideOut { motion: Motion::RightToLeft, gradient_length: 10, randomness: 0 }
    );
    assert_eq!(fwd.millis, 160);
    let back = Transition::Slide.enter(false).unwrap();
    assert_eq!(
        back.kind,
        EffectKind::SlideIn { motion: Motion::LeftToRight, gradient_length: 10, randomness: 0 }
    );
    assert_eq!(back.millis, 220);
    let sweep = Transition::Sweep.enter(true).unwrap();
    assert_eq!(
        sweep.kind,
        EffectKind::SweepIn { motion: Motion::LeftToRight, gradient_length: 10, randomness: 0 }
    );
    assert_eq!(Transition::Coalesce.enter(true).unwrap().millis, 300);
}
