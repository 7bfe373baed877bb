//! Presentation-wide metadata from the YAML frontmatter.
//!
//! All fields are optional. Unrecognized keys are not dropped but kept by
//! name: `keynot check` errors on them (a typoed key that silently did
//! nothing would be the harder bug to spot), while `keynot play` ignores
//! them so a deck written for a newer keynot still plays on an older one.
use vstd::prelude::*;

use crate::text::{add_key, chars_before, chars_of, extend_chars, in_order, string_of, texts};

verus! {

/// The frontmatter keys keynot understands, in the order of the
/// [`Metadata`] fields.
pub const KNOWN_KEYS: [&'static str; 10] = [
    "title",
    "author",
    "date",
    "theme",
    "colors",
    "code_theme",
    "code_style",
    "transition",
    "highlight",
    "footer",
];

/// The `colors:` sub-keys keynot understands (see [`ColorOverrides`]).
pub const KNOWN_COLOR_KEYS: [&'static str; 8] = [
    "background",
    "text",
    "heading",
    "accent",
    "link",
    "blockquote",
    "code_background",
    "code_border",
];

/// Slide transition style, the `transition:` frontmatter key.
#[derive(Debug, Clone, Copy, PartialEq, Eq, Structural)]
pub enum Transition {
    /// Characters dissolve into place (the default).
    Coalesce,
    /// Push: the old slide slides out, the new one slides in.
    Slide,
    /// Fade in from the background color.
    Fade,
    /// Wipe across in the direction of navigation.
    Sweep,
    /// Instant switch (`transition: none`).
    Instant,
}

impl Default for Transition {
    fn default() -> (r: Transition)
        ensures
            r == Transition::Coalesce,
    {
        Transition::Coalesce
    }
}

/// How the speaker's line highlight is drawn, the `highlight:` key.
#[derive(Debug, Clone, Copy, PartialEq, Eq, Structural)]
pub enum HighlightStyle {
    /// An accent-colored bar behind the line (the default).
    Bar,
    /// The highlighted line keeps full brightness; everything else dims.
    Dim,
}

impl Default for HighlightStyle {
    fn default() -> (r: HighlightStyle)
        ensures
            r == HighlightStyle::Bar,
    {
        HighlightStyle::Bar
    }
}

/// How fenced code blocks are drawn, the `code_style:` key.
#[derive(Debug, Clone, Copy, PartialEq, Eq, Structural)]
pub enum CodeStyle {
    /// A little terminal window: rounded border, traffic-light dots, the
    /// language named in the bottom edge (the default).
    Window,
    /// Just the padded panel, no frame.
    Plain,
}

impl Default for CodeStyle {
    fn default() -> (r: CodeStyle)
        ensures
            r == CodeStyle::Window,
    {
        CodeStyle::Window
    }
}

/// Which way a background gradient runs.
#[derive(Debug, Clone, Copy, PartialEq, Eq, Structural)]
pub enum GradientDirection {
    /// Top to bottom (the default).
    Vertical,
    /// Left to right.
    Horizontal,
    /// Center outward to the corners.
    Radial,
}

impl Default for GradientDirection {
    fn default() -> (r: GradientDirection)
        ensures
            r == GradientDirection::Vertical,
    {
        GradientDirection::Vertical
    }
}

/// The `colors.background` value: a solid color string, or a gradient.
#[derive(Debug, Clone, PartialEq)]
pub enum BackgroundSpec {
    /// One color.
    Solid(String),
    /// A gradient between hex stops.
    Gradient(GradientSpec),
}

/// The explicit form of a background gradient.
#[derive(Debug, Clone, PartialEq)]
pub struct GradientSpec {
    /// Color stops, top/left/center first. At least two.
    pub gradient: Vec<String>,
    pub direction: GradientDirection,
}

/// Optional color overrides. Values accept hex (`"#rrggbb"`), ANSI names
/// (`"red"`, `"lightcyan"`), or indexed colors (`"42"`); gradient stops
/// must be hex.
#[derive(Debug, Clone, PartialEq)]
pub struct ColorOverrides {
    pub background: Option<BackgroundSpec>,
    pub text: Option<String>,
    pub heading: Option<String>,
    pub accent: Option<String>,
    pub link: Option<String>,
    pub blockquote: Option<String>,
    pub code_background: Option<String>,
    pub code_border: Option<String>,
    /// Sub-keys keynot does not recognize, sorted, each once.
    pub unknown: Vec<String>,
}

/// Metadata from the frontmatter at the top of a `.keynot` file.
#[derive(Debug, Clone, PartialEq)]
pub struct Metadata {
    /// Presentation title, shown in the footer.
    pub title: Option<String>,
    /// Author name, shown in the footer.
    pub author: Option<String>,
    /// Free-form date string, shown in the footer next to the author.
    pub date: Option<String>,
    /// Base theme name: `dark` (default) or `light`.
    pub theme: Option<String>,
    /// Per-element color overrides applied on top of the base theme.
    pub colors: ColorOverrides,
    /// Syntect theme used for code blocks (e.g. `base16-ocean.dark`).
    pub code_theme: Option<String>,
    /// How fenced code blocks are framed.
    pub code_style: CodeStyle,
    /// How slides change.
    pub transition: Transition,
    /// How the speaker's line highlight (up/down keys) is drawn.
    pub highlight: HighlightStyle,
    /// Whether to draw the footer (title, author, slide counter).
    pub footer: Option<bool>,
    /// Top-level keys keynot does not recognize, sorted, each once.
    pub unknown: Vec<String>,
}

/// Every field unset, the defaults for the enums.
pub open spec fn is_default_metadata(m: Metadata) -> bool {
    &&& m.title is None
    &&& m.author is None
    &&& m.date is None
    &&& m.theme is None
    &&& m.colors.background is None
    &&& m.colors.text is None
    &&& m.colors.heading is None
    &&& m.colors.accent is None
    &&& m.colors.link is None
    &&& m.colors.blockquote is None
    &&& m.colors.code_background is None
    &&& m.colors.code_border is None
    &&& m.colors.unknown@.len() == 0
    &&& m.code_theme is None
    &&& m.code_style == CodeStyle::Window
    &&& m.transition == Transition::Coalesce
    &&& m.highlight == HighlightStyle::Bar
    &&& m.footer is None
    &&& m.unknown@.len() == 0
}

impl Default for ColorOverrides {
    fn default() -> (c: ColorOverrides)
        ensures
            c.background is None,
            c.text is None,
            c.heading is None,
            c.accent is None,
            c.link is None,
            c.blockquote is None,
            c.code_background is None,
            c.code_border is None,
            c.unknown@.len() == 0,
            in_order(texts(c.unknown@)),
    {
        ColorOverrides {
            background: None,
            text: None,
            heading: None,
            accent: None,
            link: None,
            blockquote: None,
            code_background: None,
            code_border: None,
            unknown: Vec::new(),
        }
    }
}

impl Default for Metadata {
    fn default() -> (m: Metadata)
        ensures
            is_default_metadata(m),
            unknown_in_order(m),
    {
        Metadata {
            title: None,
            author: None,
            date: None,
            theme: None,
            colors: ColorOverrides::default(),
            code_theme: None,
            code_style: CodeStyle::Window,
            transition: Transition::Coalesce,
            highlight: HighlightStyle::Bar,
            footer: None,
            unknown: Vec::new(),
        }
    }
}

/// `colors.`.
pub open spec fn colors_prefix() -> Seq<char> {
    seq!['c', 'o', 'l', 'o', 'r', 's', '.']
}

/// The unknown keys as `keynot check` lists them: top-level keys first,
/// then `colors.` sub-keys with that prefix.
pub open spec fn spec_unknown_keys(top: Seq<Seq<char>>, colors: Seq<Seq<char>>) -> Seq<Seq<char>> {
    top + colors.map_values(|k: Seq<char>| colors_prefix() + k)
}

/// The unrecognized keys are kept as a sorted map keeps its keys: each
/// group sorted, each key once.
pub open spec fn unknown_in_order(m: Metadata) -> bool {
    in_order(texts(m.unknown@)) && in_order(texts(m.colors.unknown@))
}

/// A shared prefix does not change which of two texts comes first.
proof fn lemma_prefix_keeps_order(p: Seq<char>, a: Seq<char>, b: Seq<char>)
    ensures
        chars_before(p + a, p + b) == chars_before(a, b),
    decreases p.len(),
{
    if p.len() > 0 {
        assert((p + a).skip(1) =~= p.skip(1) + a);
        assert((p + b).skip(1) =~= p.skip(1) + b);
        lemma_prefix_keeps_order(p.skip(1), a, b);
    } else {
        assert(p + a =~= a);
        assert(p + b =~= b);
    }
}

impl ColorOverrides {
    /// Record an unrecognized `colors:` sub-key, keeping the keys sorted
    /// and each once.
    pub fn add_unknown_key(&mut self, key: String)
        requires
            in_order(texts(old(self).unknown@)),
        ensures
            in_order(texts(final(self).unknown@)),
            forall|x: Seq<char>|
                texts(final(self).unknown@).contains(x) <==> (texts(old(self).unknown@).contains(x) || x == key@),
            *final(self) == (ColorOverrides { unknown: final(self).unknown, ..*old(self) }),
    {
        add_key(&mut self.unknown, key);
    }
}

impl Metadata {
    /// Record an unrecognized top-level key, keeping the keys sorted and
    /// each once.
    pub fn add_unknown_key(&mut self, key: String)
        requires
            unknown_in_order(*old(self)),
        ensures
            unknown_in_order(*final(self)),
            forall|x: Seq<char>|
                texts(final(self).unknown@).contains(x) <==> (texts(old(self).unknown@).contains(x) || x == key@),
            *final(self) == (Metadata { unknown: final(self).unknown, ..*old(self) }),
    {
        add_key(&mut self.unknown, key);
    }

    /// Frontmatter keys that were present but not recognized: top-level
    /// keys first, then `colors.` sub-keys, each group sorted. `keynot
    /// check` errors when this is non-empty; `keynot play` never looks.
    pub fn unknown_keys(&self) -> (r: Vec<String>)
        ensures
            r@.map_values(|s: String| s@) == spec_unknown_keys(
                self.unknown@.map_values(|s: String| s@),
                self.colors.unknown@.map_values(|s: String| s@),
            ),
            unknown_in_order(*self) ==> in_order(texts(r@).take(self.unknown@.len() as int))
                && in_order(texts(r@).skip(self.unknown@.len() as int)),
    {
        let ghost want = spec_unknown_keys(
            self.unknown@.map_values(|s: String| s@),
            self.colors.unknown@.map_values(|s: String| s@),
        );
        let mut out: Vec<String> = Vec::new();
        let mut i: usize = 0;
        while i < self.unknown.len()
            invariant
                i <= self.unknown@.len(),
                out@.map_values(|s: String| s@) == want.take(i as int),
                want == spec_unknown_keys(
                    self.unknown@.map_values(|s: String| s@),
                    self.colors.unknown@.map_values(|s: String| s@),
                ),
            decreases self.unknown@.len() - i,
        {
            let ghost prev = out@.map_values(|s: String| s@);
            let k = self.unknown[i].clone();
            out.push(k);
            assert(out@.map_values(|s: String| s@) =~= prev.push(k@));
            i = i + 1;
            assert(want.take(i as int) =~= prev.push(k@));
        }
        let prefix = vec!['c', 'o', 'l', 'o', 'r', 's', '.'];
        assert(prefix@ =~= colors_prefix());
        let n = self.unknown.len();
        let mut j: usize = 0;
        while j < self.colors.unknown.len()
            invariant
                j <= self.colors.unknown@.len(),
                n == self.unknown@.len(),
                prefix@ == colors_prefix(),
                out@.map_values(|s: String| s@) == want.take(n + j),
                want == spec_unknown_keys(
                    self.unknown@.map_values(|s: String| s@),
                    self.colors.unknown@.map_values(|s: String| s@),
                ),
            decreases self.colors.unknown@.len() - j,
        {
            let ghost prev = out@.map_values(|s: String| s@);
            let mut key = copy_of(&prefix);
            let rest = chars_of(self.colors.unknown[j].as_str());
            extend_chars(&mut key, &rest);
            let k = string_of(key.as_slice());
            out.push(k);
            assert(out@.map_values(|s: String| s@) =~= prev.push(k@));
            j = j + 1;
            assert(want.take(n + j) =~= prev.push(k@));
        }
        assert(want.take(n + self.colors.unknown@.len()) =~= want);
        proof {
            let r = texts(out@);
            let top = texts(self.unknown@);
            let col = texts(self.colors.unknown@);
            assert(r == want);
            assert(r.take(n as int) =~= top);
            assert(r.skip(n as int) =~= col.map_values(|k: Seq<char>| colors_prefix() + k));
            if unknown_in_order(*self) {
                assert forall|i: int, j: int| 0 <= i < j < r.skip(n as int).len() implies chars_before(
                    #[trigger] r.skip(n as int)[i],
                    #[trigger] r.skip(n as int)[j],
                ) by {
                    lemma_prefix_keeps_order(colors_prefix(), col[i], col[j]);
                }
            }
        }
        out
    }
}

/// A copy of `v`.
fn copy_of(v: &Vec<char>) -> (r: Vec<char>)
    ensures
        r@ == v@,
{
    let mut r: Vec<char> = Vec::new();
    extend_chars(&mut r, v);
    r
}

} // verus!
