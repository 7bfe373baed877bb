//! Building themes from the frontmatter.

use keynot::markdown::metadata::{
    BackgroundSpec, CodeStyle, GradientDirection, GradientSpec, Metadata,
};
use keynot::theme::{parse_hex, Background, Color, ParsedColors, Theme, ThemeError};

fn with_theme(name: &str) -> Metadata {
    let mut m = Metadata::default();
    m.theme = Some(name.to_string());
    m
}

#[test]
fn default_is_dark() {
    let theme = Theme::from_metadata(&Metadata::default()).unwrap();
    assert_eq!(theme, Theme::dark());
}

#[test]
fn named_light_theme() {
    let theme = Theme::from_metadata(&with_theme("light")).unwrap();
    assert_eq!(theme, Theme::light());
}

#[test]
fn dark_theme_palette() {
    // VS Code Dark+.
    let theme = Theme::dark();
    assert_eq!(
        theme.background,
        Background::Gradient {
            stops: vec![(0x2d, 0x2d, 0x30), (0x18, 0x18, 0x18)],
            direction: GradientDirection::Vertical,
        }
    );
    assert_eq!(theme.heading, Color::Rgb(0x56, 0x9c, 0xd6));
    assert_eq!(theme.accent, Color::Rgb(0xdc, 0xdc, 0xaa));
}

#[test]
fn unknown_theme_errors() {
    let err = Theme::from_metadata(&with_theme("neon")).unwrap_err();
    assert!(matches!(err, ThemeError::UnknownTheme(name) if name == "neon"));
}

#[test]
fn hex_color_override() {
    let mut m = Metadata::default();
    m.colors.heading = Some("#ff0000".to_string());
    let theme = Theme::from_metadata(&m).unwrap();
    assert_eq!(theme.heading, Color::Rgb(255, 0, 0));
    // Other colors keep their base values.
    assert_eq!(theme.text, Theme::dark().text);
}

#[test]
fn named_color_override() {
    let mut m = Metadata::default();
    m.colors.accent = Some("red".to_string());
    let theme = Theme::from_metadata(&m).unwrap();
    assert_eq!(theme.accent, Color::Red);
}

fn gradient(stops: &[&str]) -> Metadata {
    let mut m = Metadata::default();
    m.colors.background = Some(BackgroundSpec::Gradient(GradientSpec {
        gradient: stops.iter().map(|s| s.to_string()).collect(),
        direction: GradientDirection::Vertical,
    }));
    m
}

#[test]
fn gradient_background_resolves() {
    let theme = Theme::from_metadata(&gradient(&["#000000", "#ffffff"])).unwrap();
    assert_eq!(
        theme.background,
        Background::Gradient {
            stops: vec![(0, 0, 0), (255, 255, 255)],
            direction: GradientDirection::Vertical,
        }
    );
    assert_eq!(theme.background.direction(), GradientDirection::Vertical);
}

#[test]
fn gradient_with_one_stop_errors() {
    assert!(matches!(
        Theme::from_metadata(&gradient(&["#000000"])),
        Err(ThemeError::GradientTooShort(1))
    ));
}

#[test]
fn gradient_stops_must_be_hex() {
    assert!(matches!(
        Theme::from_metadata(&gradient(&["red", "#ffffff"])),
        Err(ThemeError::GradientStopNotHex(_))
    ));
}

#[test]
fn invalid_color_errors_with_field_name() {
    let mut m = Metadata::default();
    m.colors.link = Some("notacolor".to_string());
    let err = Theme::from_metadata(&m).unwrap_err();
    match err {
        ThemeError::InvalidColor { field, value } => {
            assert_eq!(field, "link");
            assert_eq!(value, "notacolor");
        }
        other => panic!("unexpected error: {other:?}"),
    }
}

#[test]
fn code_theme_override() {
    let mut m = Metadata::default();
    m.code_theme = Some("Solarized (dark)".to_string());
    let theme = Theme::from_metadata(&m).unwrap();
    assert_eq!(theme.code_theme, "Solarized (dark)");
}

#[test]
fn overrides_compose_with_named_theme() {
    let mut m = with_theme("light");
    m.colors.background = Some(BackgroundSpec::Solid("#000000".to_string()));
    let theme = Theme::from_metadata(&m).unwrap();
    assert_eq!(theme.background, Background::Solid(Color::Rgb(0, 0, 0)));
    assert_eq!(theme.text, Theme::light().text);
}

#[test]
fn default_is_an_alias_of_dark() {
    assert_eq!(Theme::from_metadata(&with_theme("default")).unwrap(), Theme::dark());
}

#[test]
fn code_style_is_taken_over() {
    let mut m = Metadata::default();
    m.code_style = CodeStyle::Plain;
    assert_eq!(Theme::from_metadata(&m).unwrap().code_style, CodeStyle::Plain);
}

#[test]
fn theme_name_is_checked_before_colors() {
    let mut m = with_theme("neon");
    m.colors.text = Some("notacolor".to_string());
    assert!(matches!(
        Theme::from_metadata(&m),
        Err(ThemeError::UnknownTheme(_))
    ));
}

#[test]
fn indexed_and_named_colors_parse() {
    let mut m = Metadata::default();
    m.colors.text = Some("42".to_string());
    m.colors.link = Some("light cyan".to_string());
    let theme = Theme::from_metadata(&m).unwrap();
    assert_eq!(theme.text, Color::Indexed(42));
    assert_eq!(theme.link, Color::LightCyan);
}

#[test]
fn parse_hex_reads_rrggbb() {
    assert_eq!(parse_hex("#0a1B2c"), Some((0x0a, 0x1b, 0x2c)));
    assert_eq!(parse_hex("#fff"), None);
    assert_eq!(parse_hex("0a1b2c"), None);
    assert_eq!(parse_hex("#0a1b2g"), None);
    assert_eq!(parse_hex("#0a1b2c0"), None);
    // A leading sign is part of the number, as `from_str_radix` reads it.
    assert_eq!(parse_hex("#+fffff"), Some((0x0f, 0xff, 0xff)));
}

#[test]
fn theme_error_messages_read_as_sentences() {
    assert_eq!(
        ThemeError::UnknownTheme("neon".to_string()).message(),
        "unknown theme `neon` (available: dark, light)"
    );
    assert_eq!(
        ThemeError::InvalidColor {
            field: "link".to_string(),
            value: "nope".to_string()
        }
        .message(),
        "invalid color `nope` for `colors.link`"
    );
    assert_eq!(
        ThemeError::GradientTooShort(1).message(),
        "a background gradient needs at least 2 colors, got 1"
    );
    assert_eq!(
        ThemeError::GradientStopNotHex("red".to_string()).message(),
        "invalid gradient stop `red`: stops must be hex like `#rrggbb`"
    );
}

fn no_colors() -> ParsedColors {
    ParsedColors {
        background: None,
        text: None,
        heading: None,
        accent: None,
        link: None,
        blockquote: None,
        code_background: None,
        code_border: None,
    }
}

#[test]
fn parsed_override_replaces_the_slot() {
    let mut m = Metadata::default();
    m.colors.heading = Some("anything".to_string());
    let mut p = no_colors();
    p.heading = Some(Color::Rgb(1, 2, 3));
    let theme = Theme::from_parsed(&m, p).unwrap();
    assert_eq!(theme.heading, Color::Rgb(1, 2, 3));
    assert_eq!(theme.text, Theme::dark().text);
}

#[test]
fn parsed_value_that_is_no_color_errors() {
    let mut m = Metadata::default();
    m.colors.text = Some("nope".to_string());
    let err = Theme::from_parsed(&m, no_colors()).unwrap_err();
    assert_eq!(
        err,
        ThemeError::InvalidColor { field: "text".to_string(), value: "nope".to_string() }
    );
}

#[test]
fn parsed_color_without_a_value_is_ignored() {
    let mut p = no_colors();
    p.accent = Some(Color::Red);
    let theme = Theme::from_parsed(&Metadata::default(), p).unwrap();
    assert_eq!(theme, Theme::dark());
}

#[test]
fn parsed_solid_background() {
    let mut m = Metadata::default();
    m.colors.background = Some(BackgroundSpec::Solid("x".to_string()));
    let mut p = no_colors();
    p.background = Some(Color::Blue);
    let theme = Theme::from_parsed(&m, p).unwrap();
    assert_eq!(theme.background, Background::Solid(Color::Blue));
    let err = Theme::from_parsed(&m, no_colors()).unwrap_err();
    assert_eq!(
        err,
        ThemeError::InvalidColor { field: "background".to_string(), value: "x".to_string() }
    );
}
