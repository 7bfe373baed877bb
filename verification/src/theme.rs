//! Themes: the colors used to draw slides.
//!
//! A theme starts from a named base (`dark` or `light`) and is then
//! adjusted by the `colors:` overrides in the frontmatter. Color values
//! accept anything ratatui's color parser understands: hex strings
//! (`#rrggbb`), ANSI names (`red`, `lightcyan`), or indexed colors (`42`).
use vstd::prelude::*;

use std::str::FromStr;

use ratatui::style::Color as R;

use crate::markdown::builder_spec::decimal;
use crate::markdown::metadata::{BackgroundSpec, CodeStyle, ColorOverrides, GradientDirection, Metadata};
use crate::markdown::builder::push_decimal;
use crate::text::{append_str, chars_eq, chars_of, string_of};

verus! {

/// A terminal color: the sixteen ANSI colors, the terminal's default,
/// a 24-bit RGB color, or an index into the 256-color palette.
#[derive(Debug, Clone, Copy, PartialEq, Eq, Structural)]
pub enum Color {
    Reset,
    Black,
    Red,
    Green,
    Yellow,
    Blue,
    Magenta,
    Cyan,
    Gray,
    DarkGray,
    LightRed,
    LightGreen,
    LightYellow,
    LightBlue,
    LightMagenta,
    LightCyan,
    White,
    Rgb(u8, u8, u8),
    Indexed(u8),
}

/// ratatui's color type, carried opaquely.
#[verifier::external_type_specification]
#[verifier::external_body]
pub struct ExRatatuiColor(R);

/// What ratatui's `Color::from_str` makes of `s` (`None` when it rejects it).
pub uninterp spec fn ratatui_color(s: Seq<char>) -> Option<Color>;

/// The library's color for a ratatui color, variant for variant.
#[verifier::external_body]
fn color_from_ratatui(c: R) -> (r: Color) {
    match c {
        R::Reset => Color::Reset, R::Black => Color::Black, R::Red => Color::Red,
        R::Green => Color::Green, R::Yellow => Color::Yellow, R::Blue => Color::Blue,
        R::Magenta => Color::Magenta, R::Cyan => Color::Cyan, R::Gray => Color::Gray,
        R::DarkGray => Color::DarkGray, R::LightRed => Color::LightRed,
        R::LightGreen => Color::LightGreen, R::LightYellow => Color::LightYellow,
        R::LightBlue => Color::LightBlue, R::LightMagenta => Color::LightMagenta,
        R::LightCyan => Color::LightCyan, R::White => Color::White,
        R::Rgb(r, g, b) => Color::Rgb(r, g, b), R::Indexed(i) => Color::Indexed(i),
    }
}

/// Parses a color with ratatui's `Color::from_str` (names, hex, palette
/// indexes); the contract claims only that the result is the parser's
/// answer for `s`, `None` where it returns an error.
#[verifier::external_body]
fn parse_color(s: &str) -> (r: Option<Color>)
    ensures
        r == ratatui_color(s@),
{
    match R::from_str(s) {
        Ok(c) => Some(color_from_ratatui(c)),
        Err(_) => None,
    }
}

/// A resolved background: one color, or a gradient between RGB stops.
#[derive(Debug, Clone, PartialEq)]
pub enum Background {
    Solid(Color),
    Gradient {
        /// RGB stops, top/left/center first. Always at least two.
        stops: Vec<(u8, u8, u8)>,
        direction: GradientDirection,
    },
}

/// The model of a [`Background`].
pub enum SpecBackground {
    Solid(Color),
    Gradient { stops: Seq<(u8, u8, u8)>, direction: GradientDirection },
}

impl View for Background {
    type V = SpecBackground;

    open spec fn view(&self) -> SpecBackground {
        match self {
            Background::Solid(c) => SpecBackground::Solid(*c),
            Background::Gradient { stops, direction } => SpecBackground::Gradient {
                stops: stops@,
                direction: *direction,
            },
        }
    }
}

impl Background {
    /// Which way the background runs; a solid one counts as vertical.
    pub fn direction(&self) -> (r: GradientDirection)
        ensures
            r == (match self@ {
                SpecBackground::Solid(_) => GradientDirection::Vertical,
                SpecBackground::Gradient { direction, .. } => direction,
            }),
    {
        match self {
            Background::Solid(_) => GradientDirection::Vertical,
            Background::Gradient { direction, .. } => *direction,
        }
    }
}

/// Resolved colors and code theme for a presentation.
#[derive(Debug, Clone, PartialEq)]
pub struct Theme {
    pub background: Background,
    pub text: Color,
    pub heading: Color,
    pub accent: Color,
    pub link: Color,
    pub blockquote: Color,
    pub code_background: Color,
    /// The terminal-window border drawn around code blocks.
    pub code_border: Color,
    /// How code blocks are framed (`code_style:` in the frontmatter).
    pub code_style: CodeStyle,
    /// Syntect theme name for code highlighting.
    pub code_theme: String,
}

/// The model of a [`Theme`].
pub struct SpecTheme {
    pub background: SpecBackground,
    pub text: Color,
    pub heading: Color,
    pub accent: Color,
    pub link: Color,
    pub blockquote: Color,
    pub code_background: Color,
    pub code_border: Color,
    pub code_style: CodeStyle,
    pub code_theme: Seq<char>,
}

impl View for Theme {
    type V = SpecTheme;

    open spec fn view(&self) -> SpecTheme {
        SpecTheme {
            background: self.background@,
            text: self.text,
            heading: self.heading,
            accent: self.accent,
            link: self.link,
            blockquote: self.blockquote,
            code_background: self.code_background,
            code_border: self.code_border,
            code_style: self.code_style,
            code_theme: self.code_theme@,
        }
    }
}

/// Why a theme could not be built from the frontmatter.
#[derive(Debug, Clone, PartialEq)]
pub enum ThemeError {
    /// `theme:` names no known theme.
    UnknownTheme(String),
    /// A `colors.` value is no color; `field` is the sub-key.
    InvalidColor { field: String, value: String },
    /// A background gradient with fewer than two stops (the count).
    GradientTooShort(usize),
    /// A gradient stop that is not `#rrggbb`.
    GradientStopNotHex(String),
}

/// The model of a [`ThemeError`].
pub enum SpecThemeError {
    UnknownTheme(Seq<char>),
    InvalidColor { field: Seq<char>, value: Seq<char> },
    GradientTooShort(int),
    GradientStopNotHex(Seq<char>),
}

impl View for ThemeError {
    type V = SpecThemeError;

    open spec fn view(&self) -> SpecThemeError {
        match self {
            ThemeError::UnknownTheme(n) => SpecThemeError::UnknownTheme(n@),
            ThemeError::InvalidColor { field, value } => SpecThemeError::InvalidColor {
                field: field@,
                value: value@,
            },
            ThemeError::GradientTooShort(n) => SpecThemeError::GradientTooShort(*n as int),
            ThemeError::GradientStopNotHex(v) => SpecThemeError::GradientStopNotHex(v@),
        }
    }
}

/// The message an error reads as.
pub open spec fn theme_error_message(e: SpecThemeError) -> Seq<char> {
    match e {
        SpecThemeError::UnknownTheme(n) => "unknown theme `"@ + n + "` (available: dark, light)"@,
        SpecThemeError::InvalidColor { field, value } => "invalid color `"@ + value
            + "` for `colors."@ + field + "`"@,
        SpecThemeError::GradientTooShort(n) => "a background gradient needs at least 2 colors, got "@
            + decimal(n as nat),
        SpecThemeError::GradientStopNotHex(v) => "invalid gradient stop `"@ + v
            + "`: stops must be hex like `#rrggbb`"@,
    }
}

impl ThemeError {
    /// The error as a sentence for the user.
    pub fn message(&self) -> (r: String)
        ensures
            r@ == theme_error_message(self@),
    {
        let mut out: Vec<char> = Vec::new();
        match self {
            ThemeError::UnknownTheme(n) => {
                append_str(&mut out, "unknown theme `");
                append_str(&mut out, n.as_str());
                append_str(&mut out, "` (available: dark, light)");
            },
            ThemeError::InvalidColor { field, value } => {
                append_str(&mut out, "invalid color `");
                append_str(&mut out, value.as_str());
                append_str(&mut out, "` for `colors.");
                append_str(&mut out, field.as_str());
                append_str(&mut out, "`");
            },
            ThemeError::GradientTooShort(n) => {
                append_str(&mut out, "a background gradient needs at least 2 colors, got ");
                push_decimal(&mut out, *n as u128);
            },
            ThemeError::GradientStopNotHex(v) => {
                append_str(&mut out, "invalid gradient stop `");
                append_str(&mut out, v.as_str());
                append_str(&mut out, "`: stops must be hex like `#rrggbb`");
            },
        }
        string_of(out.as_slice())
    }
}

/// The VS Code Dark+ palette.
pub open spec fn dark_theme() -> SpecTheme {
    SpecTheme {
        background: SpecBackground::Gradient {
            stops: seq![(0x2du8, 0x2du8, 0x30u8), (0x18u8, 0x18u8, 0x18u8)],
            direction: GradientDirection::Vertical,
        },
        text: Color::Rgb(0xd4, 0xd4, 0xd4),
        heading: Color::Rgb(0x56, 0x9c, 0xd6),
        accent: Color::Rgb(0xdc, 0xdc, 0xaa),
        link: Color::Rgb(0x37, 0x94, 0xff),
        blockquote: Color::Rgb(0x6a, 0x99, 0x55),
        code_background: Color::Rgb(0x14, 0x14, 0x14),
        code_border: Color::Rgb(0x45, 0x45, 0x45),
        code_style: CodeStyle::Window,
        code_theme: seq!['D', 'a', 'r', 'k', '+'],
    }
}

/// The light palette (One Light family).
pub open spec fn light_theme() -> SpecTheme {
    SpecTheme {
        background: SpecBackground::Solid(Color::Rgb(0xfa, 0xfa, 0xfa)),
        text: Color::Rgb(0x38, 0x3a, 0x42),
        heading: Color::Rgb(0x05, 0x50, 0xae),
        accent: Color::Rgb(0xa6, 0x26, 0xa4),
        link: Color::Rgb(0x09, 0x69, 0xda),
        blockquote: Color::Rgb(0x50, 0xa1, 0x4f),
        code_background: Color::Rgb(0xea, 0xea, 0xeb),
        code_border: Color::Rgb(0xc4, 0xc4, 0xc8),
        code_style: CodeStyle::Window,
        code_theme: seq![
            'I', 'n', 's', 'p', 'i', 'r', 'e', 'd', 'G', 'i', 't', 'H', 'u', 'b'
        ],
    }
}

/// `dark`.
pub open spec fn name_dark() -> Seq<char> {
    seq!['d', 'a', 'r', 'k']
}

/// `default`.
pub open spec fn name_default() -> Seq<char> {
    seq!['d', 'e', 'f', 'a', 'u', 'l', 't']
}

/// `light`.
pub open spec fn name_light() -> Seq<char> {
    seq!['l', 'i', 'g', 'h', 't']
}

/// The base theme a `theme:` name selects, if any.
pub open spec fn spec_named(name: Seq<char>) -> Option<SpecTheme> {
    if name == name_dark() || name == name_default() {
        Some(dark_theme())
    } else if name == name_light() {
        Some(light_theme())
    } else {
        None
    }
}

/// The value of hex digit `c` (`0-9`, `a-f`, `A-F`).
pub open spec fn hex_value(c: char) -> int {
    if '0' <= c && c <= '9' {
        c as int - '0' as int
    } else if 'a' <= c && c <= 'f' {
        c as int - 'a' as int + 10
    } else {
        c as int - 'A' as int + 10
    }
}

/// `c` is a hex digit.
pub open spec fn is_hex(c: char) -> bool {
    ('0' <= c && c <= '9') || ('a' <= c && c <= 'f') || ('A' <= c && c <= 'F')
}

/// Every character of `s` is a hex digit.
pub open spec fn all_hex(s: Seq<char>) -> bool {
    forall|i: int| 0 <= i < s.len() ==> is_hex(#[trigger] s[i])
}

/// The byte written by the two hex digits at `i` and `i + 1`.
pub open spec fn hex_pair(s: Seq<char>, i: int) -> u8 {
    (hex_value(s[i]) * 16 + hex_value(s[i + 1])) as u8
}

/// `#rrggbb` as RGB components. The six characters after `#` are read as
/// one base-16 number, which, as in `u32::from_str_radix`, may also be a
/// `+` sign and five digits (then the red component is the first digit).
pub open spec fn spec_parse_hex(s: Seq<char>) -> Option<(u8, u8, u8)> {
    if s.len() == 7 && s[0] == '#' {
        let h = s.subrange(1, 7);
        if all_hex(h) {
            Some((hex_pair(h, 0), hex_pair(h, 2), hex_pair(h, 4)))
        } else if h[0] == '+' && all_hex(h.subrange(1, 6)) {
            Some((hex_value(h[1]) as u8, hex_pair(h, 2), hex_pair(h, 4)))
        } else {
            None
        }
    } else {
        None
    }
}

/// A frontmatter `colors.` key that takes one color.
#[derive(Debug, Clone, Copy, PartialEq, Eq, Structural)]
pub enum ColorField {
    Background,
    Text,
    Heading,
    Accent,
    Link,
    Blockquote,
    CodeBackground,
    CodeBorder,
}

/// The key's name as written in the frontmatter.
pub open spec fn field_name(f: ColorField) -> Seq<char> {
    match f {
        ColorField::Background => seq!['b', 'a', 'c', 'k', 'g', 'r', 'o', 'u', 'n', 'd'],
        ColorField::Text => seq!['t', 'e', 'x', 't'],
        ColorField::Heading => seq!['h', 'e', 'a', 'd', 'i', 'n', 'g'],
        ColorField::Accent => seq!['a', 'c', 'c', 'e', 'n', 't'],
        ColorField::Link => seq!['l', 'i', 'n', 'k'],
        ColorField::Blockquote => seq!['b', 'l', 'o', 'c', 'k', 'q', 'u', 'o', 't', 'e'],
        ColorField::CodeBackground => seq![
            'c', 'o', 'd', 'e', '_', 'b', 'a', 'c', 'k', 'g', 'r', 'o', 'u', 'n', 'd'
        ],
        ColorField::CodeBorder => seq![
            'c', 'o', 'd', 'e', '_', 'b', 'o', 'r', 'd', 'e', 'r'
        ],
    }
}

/// What the color parser made of each `colors:` value: the color, or
/// `None` where the value is no color (or absent). For the background,
/// only a solid color is parsed this way.
#[derive(Debug, Clone, Copy, PartialEq, Eq, Structural)]
pub struct ParsedColors {
    pub background: Option<Color>,
    pub text: Option<Color>,
    pub heading: Option<Color>,
    pub accent: Option<Color>,
    pub link: Option<Color>,
    pub blockquote: Option<Color>,
    pub code_background: Option<Color>,
    pub code_border: Option<Color>,
}

/// ratatui's reading of an optional color value.
pub open spec fn parsed_value(value: Option<String>) -> Option<Color> {
    match value {
        Some(v) => ratatui_color(v@),
        None => None,
    }
}

/// ratatui's reading of every color value of the overrides.
pub open spec fn parsed_colors(c: ColorOverrides) -> ParsedColors {
    ParsedColors {
        background: match c.background {
            Some(BackgroundSpec::Solid(v)) => ratatui_color(v@),
            _ => None,
        },
        text: parsed_value(c.text),
        heading: parsed_value(c.heading),
        accent: parsed_value(c.accent),
        link: parsed_value(c.link),
        blockquote: parsed_value(c.blockquote),
        code_background: parsed_value(c.code_background),
        code_border: parsed_value(c.code_border),
    }
}

/// The color an override leaves in a slot that held `base`, where the
/// value read as `parsed`.
pub open spec fn overridden_with(base: Color, value: Option<String>, parsed: Option<Color>) -> Color {
    match value {
        Some(_) => match parsed {
            Some(c) => c,
            None => base,
        },
        None => base,
    }
}

/// The error an override raises when its value read as no color.
pub open spec fn override_error_with(field: ColorField, value: Option<String>, parsed: Option<Color>) -> Option<
    SpecThemeError,
> {
    match value {
        Some(v) => if parsed is None {
            Some(SpecThemeError::InvalidColor { field: field_name(field), value: v@ })
        } else {
            None
        },
        None => None,
    }
}

/// The color an override leaves in a slot that held `base`.
pub open spec fn overridden(base: Color, value: Option<String>) -> Color {
    overridden_with(base, value, parsed_value(value))
}

/// The error an override raises, if its value is no color.
pub open spec fn override_error(field: ColorField, value: Option<String>) -> Option<
    SpecThemeError,
> {
    override_error_with(field, value, parsed_value(value))
}

/// The first gradient stop from `i` on that is not hex.
pub open spec fn first_bad_stop(stops: Seq<String>, i: int) -> Option<Seq<char>>
    decreases stops.len() - i,
{
    if i < 0 || i >= stops.len() {
        None
    } else if spec_parse_hex(stops[i]@) is None {
        Some(stops[i]@)
    } else {
        first_bad_stop(stops, i + 1)
    }
}

/// The RGB stops of an all-hex gradient.
pub open spec fn parsed_stops(stops: Seq<String>) -> Seq<(u8, u8, u8)> {
    stops.map_values(|s: String| spec_parse_hex(s@).unwrap())
}

/// What a background spec resolves to: a solid color (full color syntax)
/// or a gradient of at least two hex stops.
pub open spec fn spec_resolve_background(spec: BackgroundSpec) -> Result<
    SpecBackground,
    SpecThemeError,
> {
    resolve_background_with(
        spec,
        match spec {
            BackgroundSpec::Solid(v) => ratatui_color(v@),
            _ => None,
        },
    )
}

/// What a background spec resolves to, where a solid color's value read
/// as `parsed`.
pub open spec fn resolve_background_with(spec: BackgroundSpec, parsed: Option<Color>) -> Result<
    SpecBackground,
    SpecThemeError,
> {
    match spec {
        BackgroundSpec::Solid(v) => match parsed {
            Some(c) => Ok(SpecBackground::Solid(c)),
            None => Err(
                SpecThemeError::InvalidColor { field: field_name(ColorField::Background), value: v@ },
            ),
        },
        BackgroundSpec::Gradient(g) => if g.gradient@.len() < 2 {
            Err(SpecThemeError::GradientTooShort(g.gradient@.len() as int))
        } else {
            match first_bad_stop(g.gradient@, 0) {
                Some(bad) => Err(SpecThemeError::GradientStopNotHex(bad)),
                None => Ok(
                    SpecBackground::Gradient {
                        stops: parsed_stops(g.gradient@),
                        direction: g.direction,
                    },
                ),
            }
        },
    }
}

/// The first problem with the frontmatter's theme settings, checked in
/// this order: the theme name, the background, then each color key.
pub open spec fn theme_error(m: Metadata) -> Option<SpecThemeError> {
    theme_error_with(m, parsed_colors(m.colors))
}

/// The theme the frontmatter asks for, when [`theme_error`] finds nothing
/// wrong: the named base (dark by default), each override applied, the
/// code theme and code style taken over.
pub open spec fn themed(m: Metadata) -> SpecTheme {
    themed_with(m, parsed_colors(m.colors))
}

/// [`theme_error`] where the color values read as `p`.
pub open spec fn theme_error_with(m: Metadata, p: ParsedColors) -> Option<SpecThemeError> {
    let c = m.colors;
    let named = match m.theme {
        Some(n) => if spec_named(n@) is None {
            Some(SpecThemeError::UnknownTheme(n@))
        } else {
            None
        },
        None => None,
    };
    let background = match c.background {
        Some(b) => match resolve_background_with(b, p.background) {
            Err(e) => Some(e),
            Ok(_) => None,
        },
        None => None,
    };
    if named is Some {
        named
    } else if background is Some {
        background
    } else if override_error_with(ColorField::Text, c.text, p.text) is Some {
        override_error_with(ColorField::Text, c.text, p.text)
    } else if override_error_with(ColorField::Heading, c.heading, p.heading) is Some {
        override_error_with(ColorField::Heading, c.heading, p.heading)
    } else if override_error_with(ColorField::Accent, c.accent, p.accent) is Some {
        override_error_with(ColorField::Accent, c.accent, p.accent)
    } else if override_error_with(ColorField::Link, c.link, p.link) is Some {
        override_error_with(ColorField::Link, c.link, p.link)
    } else if override_error_with(ColorField::Blockquote, c.blockquote, p.blockquote) is Some {
        override_error_with(ColorField::Blockquote, c.blockquote, p.blockquote)
    } else if override_error_with(ColorField::CodeBackground, c.code_background, p.code_background) is Some {
        override_error_with(ColorField::CodeBackground, c.code_background, p.code_background)
    } else {
        override_error_with(ColorField::CodeBorder, c.code_border, p.code_border)
    }
}

/// [`themed`] where the color values read as `p`.
pub open spec fn themed_with(m: Metadata, p: ParsedColors) -> SpecTheme {
    let c = m.colors;
    let base = match m.theme {
        Some(n) => spec_named(n@).unwrap(),
        None => dark_theme(),
    };
    SpecTheme {
        background: match c.background {
            Some(b) => resolve_background_with(b, p.background)->Ok_0,
            None => base.background,
        },
        text: overridden_with(base.text, c.text, p.text),
        heading: overridden_with(base.heading, c.heading, p.heading),
        accent: overridden_with(base.accent, c.accent, p.accent),
        link: overridden_with(base.link, c.link, p.link),
        blockquote: overridden_with(base.blockquote, c.blockquote, p.blockquote),
        code_background: overridden_with(base.code_background, c.code_background, p.code_background),
        code_border: overridden_with(base.code_border, c.code_border, p.code_border),
        code_style: m.code_style,
        code_theme: match m.code_theme {
            Some(t) => t@,
            None => base.code_theme,
        },
    }
}

/// The characters of a color key's name.
fn field_string(f: ColorField) -> (r: String)
    ensures
        r@ == field_name(f),
{
    let v = match f {
        ColorField::Background => vec!['b', 'a', 'c', 'k', 'g', 'r', 'o', 'u', 'n', 'd'],
        ColorField::Text => vec!['t', 'e', 'x', 't'],
        ColorField::Heading => vec!['h', 'e', 'a', 'd', 'i', 'n', 'g'],
        ColorField::Accent => vec!['a', 'c', 'c', 'e', 'n', 't'],
        ColorField::Link => vec!['l', 'i', 'n', 'k'],
        ColorField::Blockquote => vec!['b', 'l', 'o', 'c', 'k', 'q', 'u', 'o', 't', 'e'],
        ColorField::CodeBackground => vec![
            'c', 'o', 'd', 'e', '_', 'b', 'a', 'c', 'k', 'g', 'r', 'o', 'u', 'n', 'd'
        ],
        ColorField::CodeBorder => vec!['c', 'o', 'd', 'e', '_', 'b', 'o', 'r', 'd', 'e', 'r'],
    };
    proof {
        assert(v@ =~= field_name(f));
    }
    string_of(v.as_slice())
}

/// A copy of a string.
fn copy_string(s: &String) -> (r: String)
    ensures
        r@ == s@,
{
    let v = chars_of(s.as_str());
    string_of(v.as_slice())
}

/// Executable `hex_value`, for a hex digit.
fn hex_digit(c: char) -> (r: u8)
    requires
        is_hex(c),
    ensures
        r as int == hex_value(c),
        r < 16,
{
    if '0' <= c && c <= '9' {
        (c as u32 - '0' as u32) as u8
    } else if 'a' <= c && c <= 'f' {
        (c as u32 - 'a' as u32 + 10) as u8
    } else {
        (c as u32 - 'A' as u32 + 10) as u8
    }
}

/// Executable `is_hex`.
fn is_hex_digit(c: char) -> (r: bool)
    ensures
        r == is_hex(c),
{
    ('0' <= c && c <= '9') || ('a' <= c && c <= 'f') || ('A' <= c && c <= 'F')
}

/// Whether `s[from..to]` is all hex digits.
fn all_hex_range(s: &Vec<char>, from: usize, to: usize) -> (r: bool)
    requires
        from <= to <= s@.len(),
    ensures
        r == all_hex(s@.subrange(from as int, to as int)),
{
    let mut i = from;
    while i < to
        invariant
            from <= i <= to <= s@.len(),
            forall|j: int| from <= j < i ==> is_hex(#[trigger] s@[j]),
        decreases to - i,
    {
        if !is_hex_digit(s[i]) {
            assert(!is_hex(s@.subrange(from as int, to as int)[i - from]));
            return false;
        }
        i = i + 1;
    }
    assert forall|j: int| 0 <= j < to - from implies is_hex(
        #[trigger] s@.subrange(from as int, to as int)[j],
    ) by {
        assert(s@.subrange(from as int, to as int)[j] == s@[from + j]);
    }
    true
}

/// Parse `#rrggbb` into RGB components.
pub fn parse_hex(value: &str) -> (r: Option<(u8, u8, u8)>)
    ensures
        r == spec_parse_hex(value@),
{
    let s = chars_of(value);
    if s.len() != 7 || s[0] != '#' {
        return None;
    }
    let ghost h = s@.subrange(1, 7);
    if all_hex_range(&s, 1, 7) {
        assert(h[0] == s@[1] && h[1] == s@[2] && h[2] == s@[3]);
        assert(h[3] == s@[4] && h[4] == s@[5] && h[5] == s@[6]);
        let r = hex_digit(s[1]) * 16 + hex_digit(s[2]);
        let g = hex_digit(s[3]) * 16 + hex_digit(s[4]);
        let b = hex_digit(s[5]) * 16 + hex_digit(s[6]);
        return Some((r, g, b));
    }
    if s[1] == '+' && all_hex_range(&s, 2, 7) {
        assert forall|k: int| 2 <= k < 7 implies is_hex(s@[k]) by {
            assert(s@.subrange(2, 7)[k - 2] == s@[k]);
        }
        assert(h.subrange(1, 6) =~= s@.subrange(2, 7));
        assert(h[1] == s@[2] && h[2] == s@[3]);
        assert(h[3] == s@[4] && h[4] == s@[5] && h[5] == s@[6]);
        let r = hex_digit(s[2]);
        let g = hex_digit(s[3]) * 16 + hex_digit(s[4]);
        let b = hex_digit(s[5]) * 16 + hex_digit(s[6]);
        return Some((r, g, b));
    }
    assert(h[0] == s@[1]);
    assert(h.subrange(1, 6) =~= s@.subrange(2, 7));
    None
}

impl Theme {
    /// The VS Code Dark+ palette: charcoal background, keyword-blue
    /// headings, function-yellow accents, comment-green quote bars. The
    /// background is a vertical gradient through the Dark+ grays (menu
    /// gray down to near-black); code blocks sit on a darker panel with
    /// a terminal-window border so they stand out against it.
    pub fn dark() -> (t: Theme)
        ensures
            t@ == dark_theme(),
    {
        let stops = vec![(0x2du8, 0x2du8, 0x30u8), (0x18u8, 0x18u8, 0x18u8)];
        let name = vec!['D', 'a', 'r', 'k', '+'];
        let t = Theme {
            background: Background::Gradient { stops, direction: GradientDirection::Vertical },
            text: Color::Rgb(0xd4, 0xd4, 0xd4),
            heading: Color::Rgb(0x56, 0x9c, 0xd6),
            accent: Color::Rgb(0xdc, 0xdc, 0xaa),
            link: Color::Rgb(0x37, 0x94, 0xff),
            blockquote: Color::Rgb(0x6a, 0x99, 0x55),
            code_background: Color::Rgb(0x14, 0x14, 0x14),
            code_border: Color::Rgb(0x45, 0x45, 0x45),
            code_style: CodeStyle::Window,
            code_theme: string_of(name.as_slice()),
        };
        assert(t@.background == dark_theme().background);
        assert(t@.code_theme =~= dark_theme().code_theme);
        t
    }

    /// The light palette: near-white background, blue headings, purple
    /// accents, and a light code panel.
    pub fn light() -> (t: Theme)
        ensures
            t@ == light_theme(),
    {
        let name = vec!['I', 'n', 's', 'p', 'i', 'r', 'e', 'd', 'G', 'i', 't', 'H', 'u', 'b'];
        let t = Theme {
            background: Background::Solid(Color::Rgb(0xfa, 0xfa, 0xfa)),
            text: Color::Rgb(0x38, 0x3a, 0x42),
            heading: Color::Rgb(0x05, 0x50, 0xae),
            accent: Color::Rgb(0xa6, 0x26, 0xa4),
            link: Color::Rgb(0x09, 0x69, 0xda),
            blockquote: Color::Rgb(0x50, 0xa1, 0x4f),
            code_background: Color::Rgb(0xea, 0xea, 0xeb),
            code_border: Color::Rgb(0xc4, 0xc4, 0xc8),
            code_style: CodeStyle::Window,
            code_theme: string_of(name.as_slice()),
        };
        assert(t@.code_theme =~= light_theme().code_theme);
        t
    }

    /// The base theme called `name`: `dark` (also `default`) or `light`.
    pub fn named(name: &str) -> (r: Result<Theme, ThemeError>)
        ensures
            match r {
                Ok(t) => spec_named(name@) == Some(t@),
                Err(e) => spec_named(name@) is None && e@ == SpecThemeError::UnknownTheme(name@),
            },
    {
        let n = chars_of(name);
        let dark = vec!['d', 'a', 'r', 'k'];
        let default = vec!['d', 'e', 'f', 'a', 'u', 'l', 't'];
        let light = vec!['l', 'i', 'g', 'h', 't'];
        assert(dark@ =~= name_dark());
        assert(default@ =~= name_default());
        assert(light@ =~= name_light());
        if chars_eq(&n, &dark) || chars_eq(&n, &default) {
            Ok(Theme::dark())
        } else if chars_eq(&n, &light) {
            Ok(Theme::light())
        } else {
            Err(ThemeError::UnknownTheme(string_of(n.as_slice())))
        }
    }

    /// Build the effective theme for a presentation: named base theme plus
    /// any color overrides from the frontmatter. The first problem found
    /// (theme name, background, then each color key in turn) is the error.
    pub fn from_metadata(metadata: &Metadata) -> (r: Result<Theme, ThemeError>)
        ensures
            match r {
                Ok(t) => theme_error(*metadata) is None && t@ == themed(*metadata),
                Err(e) => theme_error(*metadata) == Some(e@),
            },
    {
        let c = &metadata.colors;
        let parsed = ParsedColors {
            background: match &c.background {
                Some(BackgroundSpec::Solid(v)) => parse_color(v.as_str()),
                _ => None,
            },
            text: parse_value(&c.text),
            heading: parse_value(&c.heading),
            accent: parse_value(&c.accent),
            link: parse_value(&c.link),
            blockquote: parse_value(&c.blockquote),
            code_background: parse_value(&c.code_background),
            code_border: parse_value(&c.code_border),
        };
        assert(parsed == parsed_colors(*c));
        Theme::from_parsed(metadata, parsed)
    }

    /// Resolve a theme from the frontmatter, where its color values read
    /// as `parsed` (the colors the parser found, `None` for a value that is
    /// no color): the named base, then the background, then each override.
    pub fn from_parsed(metadata: &Metadata, parsed: ParsedColors) -> (r: Result<Theme, ThemeError>)
        ensures
            match r {
                Ok(t) => theme_error_with(*metadata, parsed) is None && t@ == themed_with(*metadata, parsed),
                Err(e) => theme_error_with(*metadata, parsed) == Some(e@),
            },
    {
        let mut theme = match &metadata.theme {
            Some(name) => match Theme::named(name.as_str()) {
                Ok(t) => t,
                Err(e) => {
                    return Err(e);
                },
            },
            None => Theme::dark(),
        };
        let ghost base = theme@;
        let colors = &metadata.colors;
        match &colors.background {
            Some(spec) => match resolve_background_parsed(spec, parsed.background) {
                Ok(b) => {
                    theme.background = b;
                },
                Err(e) => {
                    return Err(e);
                },
            },
            None => {},
        }
        apply_parsed(&mut theme.text, ColorField::Text, &colors.text, parsed.text)?;
        apply_parsed(&mut theme.heading, ColorField::Heading, &colors.heading, parsed.heading)?;
        apply_parsed(&mut theme.accent, ColorField::Accent, &colors.accent, parsed.accent)?;
        apply_parsed(&mut theme.link, ColorField::Link, &colors.link, parsed.link)?;
        apply_parsed(&mut theme.blockquote, ColorField::Blockquote, &colors.blockquote, parsed.blockquote)?;
        apply_parsed(
            &mut theme.code_background,
            ColorField::CodeBackground,
            &colors.code_background,
            parsed.code_background,
        )?;
        apply_parsed(&mut theme.code_border, ColorField::CodeBorder, &colors.code_border, parsed.code_border)?;
        match &metadata.code_theme {
            Some(code_theme) => {
                theme.code_theme = copy_string(code_theme);
            },
            None => {},
        }
        theme.code_style = metadata.code_style;
        Ok(theme)
    }
}

/// ratatui's reading of an optional color value.
fn parse_value(value: &Option<String>) -> (r: Option<Color>)
    ensures
        r == parsed_value(*value),
{
    match value {
        Some(v) => parse_color(v.as_str()),
        None => None,
    }
}

/// Resolve the frontmatter background spec: a solid color (full color
/// syntax) or a gradient (hex-only stops: ANSI names and palette indexes
/// have no fixed RGB to interpolate).
pub fn resolve_background(spec: &BackgroundSpec) -> (r: Result<Background, ThemeError>)
    ensures
        match r {
            Ok(b) => spec_resolve_background(*spec) == Ok::<SpecBackground, SpecThemeError>(b@),
            Err(e) => spec_resolve_background(*spec) == Err::<SpecBackground, SpecThemeError>(
                e@,
            ),
        },
{
    let parsed = match spec {
        BackgroundSpec::Solid(value) => parse_color(value.as_str()),
        _ => None,
    };
    resolve_background_parsed(spec, parsed)
}

/// Resolve a background spec where a solid color's value read as
/// `parsed`.
pub fn resolve_background_parsed(spec: &BackgroundSpec, parsed: Option<Color>) -> (r: Result<Background, ThemeError>)
    ensures
        match r {
            Ok(b) => resolve_background_with(*spec, parsed) == Ok::<SpecBackground, SpecThemeError>(b@),
            Err(e) => resolve_background_with(*spec, parsed) == Err::<SpecBackground, SpecThemeError>(e@),
        },
{
    match spec {
        BackgroundSpec::Solid(value) => match parsed {
            Some(c) => Ok(Background::Solid(c)),
            None => Err(
                ThemeError::InvalidColor {
                    field: field_string(ColorField::Background),
                    value: copy_string(value),
                },
            ),
        },
        BackgroundSpec::Gradient(g) => {
            let n = g.gradient.len();
            if n < 2 {
                return Err(ThemeError::GradientTooShort(n));
            }
            let mut stops: Vec<(u8, u8, u8)> = Vec::new();
            let mut i: usize = 0;
            while i < n
                invariant
                    n == g.gradient@.len(),
                    n >= 2,
                    *spec == BackgroundSpec::Gradient(*g),
                    i <= n,
                    first_bad_stop(g.gradient@, 0) == first_bad_stop(g.gradient@, i as int),
                    stops@ == parsed_stops(g.gradient@).take(i as int),
                decreases n - i,
            {
                match parse_hex(g.gradient[i].as_str()) {
                    Some(rgb) => {
                        let ghost before = stops@;
                        stops.push(rgb);
                        i = i + 1;
                        assert(parsed_stops(g.gradient@).take(i as int) =~= before.push(rgb));
                    },
                    None => {
                        assert(first_bad_stop(g.gradient@, i as int) == Some(g.gradient@[i as int]@));
                        return Err(ThemeError::GradientStopNotHex(copy_string(&g.gradient[i])));
                    },
                }
            }
            assert(parsed_stops(g.gradient@).take(n as int) =~= parsed_stops(g.gradient@));
            Ok(Background::Gradient { stops, direction: g.direction })
        },
    }
}

/// Set `slot` to the color `value` names, when there is one; a value that
/// is no color is an error naming the field.
pub fn apply(slot: &mut Color, field: ColorField, value: &Option<String>) -> (r: Result<
    (),
    ThemeError,
>)
    ensures
        *final(slot) == overridden(*old(slot), *value),
        match r {
            Ok(_) => override_error(field, *value) is None,
            Err(e) => override_error(field, *value) == Some(e@),
        },
{
    let parsed = parse_value(value);
    apply_parsed(slot, field, value, parsed)
}

/// Set `slot` to the color `value` read as (`parsed`), when there is one;
/// a value that read as no color is an error naming the field.
pub fn apply_parsed(slot: &mut Color, field: ColorField, value: &Option<String>, parsed: Option<Color>) -> (r: Result<
    (),
    ThemeError,
>)
    ensures
        *final(slot) == overridden_with(*old(slot), *value, parsed),
        match r {
            Ok(_) => override_error_with(field, *value, parsed) is None,
            Err(e) => override_error_with(field, *value, parsed) == Some(e@),
        },
{
    match value {
        Some(v) => match parsed {
            Some(c) => {
                *slot = c;
                Ok(())
            },
            None => Err(ThemeError::InvalidColor { field: field_string(field), value: copy_string(v) }),
        },
        None => Ok(()),
    }
}

/// The theme a frontmatter starts from: the named one, dark by default.
pub open spec fn base_of(m: Metadata) -> SpecTheme {
    match m.theme {
        Some(n) => spec_named(n@).unwrap(),
        None => dark_theme(),
    }
}

/// Every color value that reads as a color lands in its own slot of the
/// resolved theme; a slot without a value keeps the base theme's color;
/// a solid background that reads as a color becomes the background.
pub proof fn law_color_values_land_in_their_slots(m: Metadata, p: ParsedColors)
    ensures
        (m.colors.text is Some && p.text is Some) ==> themed_with(m, p).text == p.text->0,
        (m.colors.heading is Some && p.heading is Some) ==> themed_with(m, p).heading == p.heading->0,
        (m.colors.accent is Some && p.accent is Some) ==> themed_with(m, p).accent == p.accent->0,
        (m.colors.link is Some && p.link is Some) ==> themed_with(m, p).link == p.link->0,
        (m.colors.blockquote is Some && p.blockquote is Some) ==> themed_with(m, p).blockquote == p.blockquote->0,
        (m.colors.code_background is Some && p.code_background is Some) ==> themed_with(m, p).code_background == p.code_background->0,
        (m.colors.code_border is Some && p.code_border is Some) ==> themed_with(m, p).code_border == p.code_border->0,
        m.colors.text is None ==> themed_with(m, p).text == base_of(m).text,
        m.colors.heading is None ==> themed_with(m, p).heading == base_of(m).heading,
        m.colors.accent is None ==> themed_with(m, p).accent == base_of(m).accent,
        m.colors.link is None ==> themed_with(m, p).link == base_of(m).link,
        m.colors.blockquote is None ==> themed_with(m, p).blockquote == base_of(m).blockquote,
        m.colors.code_background is None ==> themed_with(m, p).code_background == base_of(m).code_background,
        m.colors.code_border is None ==> themed_with(m, p).code_border == base_of(m).code_border,
        (m.colors.background matches Some(BackgroundSpec::Solid(_)) && p.background is Some)
            ==> themed_with(m, p).background == SpecBackground::Solid(p.background->0),
        m.colors.background is None ==> themed_with(m, p).background == base_of(m).background,
{
}

/// As read from the frontmatter: a color value ratatui reads as color `c`
/// gives its slot `c`.
pub proof fn law_parsed_colors_take_effect(m: Metadata)
    ensures
        (m.colors.text matches Some(v) && ratatui_color(v@) is Some) ==> themed(m).text == ratatui_color(m.colors.text->0@)->0,
        (m.colors.heading matches Some(v) && ratatui_color(v@) is Some) ==> themed(m).heading == ratatui_color(m.colors.heading->0@)->0,
        (m.colors.accent matches Some(v) && ratatui_color(v@) is Some) ==> themed(m).accent == ratatui_color(m.colors.accent->0@)->0,
        (m.colors.link matches Some(v) && ratatui_color(v@) is Some) ==> themed(m).link == ratatui_color(m.colors.link->0@)->0,
        (m.colors.blockquote matches Some(v) && ratatui_color(v@) is Some) ==> themed(m).blockquote == ratatui_color(m.colors.blockquote->0@)->0,
        (m.colors.code_background matches Some(v) && ratatui_color(v@) is Some) ==> themed(m).code_background == ratatui_color(m.colors.code_background->0@)->0,
        (m.colors.code_border matches Some(v) && ratatui_color(v@) is Some) ==> themed(m).code_border == ratatui_color(m.colors.code_border->0@)->0,
        (m.colors.background matches Some(BackgroundSpec::Solid(v)) && ratatui_color(v@) is Some)
            ==> themed(m).background == SpecBackground::Solid(ratatui_color(m.colors.background->0->Solid_0@)->0),
{
    law_color_values_land_in_their_slots(m, parsed_colors(m.colors));
}

} // verus!
