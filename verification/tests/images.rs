use keynot::images::{fit, is_url};

#[test]
fn small_image_is_not_scaled_up() {
    assert_eq!(fit((10, 5), (80, 40)), (10, 5));
}

#[test]
fn wide_image_clamps_to_width_keeping_aspect() {
    assert_eq!(fit((100, 50), (50, 100)), (50, 25));
}

#[test]
fn tall_image_clamps_to_height_keeping_aspect() {
    assert_eq!(fit((50, 100), (100, 50)), (25, 50));
}

#[test]
fn both_axes_clamp_when_needed() {
    // Width clamps 200 -> 40 (rows 100 -> 20), then height fits.
    assert_eq!(fit((200, 100), (40, 30)), (40, 20));
    // Height is still too big after the width clamp.
    assert_eq!(fit((100, 200), (40, 30)), (15, 30));
}

#[test]
fn zero_dimensions_are_clamped_to_one() {
    assert_eq!(fit((0, 0), (10, 10)), (1, 1));
    assert_eq!(fit((10, 10), (0, 0)), (1, 1));
}

#[test]
fn extreme_aspect_never_returns_zero() {
    let (w, h) = fit((1000, 1), (10, 10));
    assert!(w >= 1 && h >= 1);
    let (w, h) = fit((1, 1000), (10, 10));
    assert!(w >= 1 && h >= 1);
}

#[test]
fn url_sources_are_recognized() {
    assert!(is_url("https://example.com/a.png"));
    assert!(is_url("http://example.com/a.png"));
    assert!(!is_url("a.png"));
    assert!(!is_url("./https/a.png"));
    assert!(!is_url("/abs/path/a.png"));
    assert!(!is_url("ftp://example.com/a.png"));
}

#[test]
fn fit_never_exceeds_the_box() {
    for natural in [(1u16, 1u16), (7, 300), (300, 7), (65535, 65535), (0, 9)] {
        for max in [(1u16, 1u16), (5, 80), (80, 5), (65535, 65535), (0, 0)] {
            let (w, h) = fit(natural, max);
            assert!(w >= 1 && h >= 1);
            assert!(w <= max.0.max(1) && h <= max.1.max(1));
            assert!(w <= natural.0.max(1) && h <= natural.1.max(1));
        }
    }
}

#[test]
fn url_prefix_must_be_complete() {
    assert!(!is_url("http:/x"));
    assert!(!is_url("https:"));
    assert!(!is_url(""));
    assert!(is_url("https://"));
}
