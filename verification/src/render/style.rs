//! Styled terminal text: colors and modifiers, spans of text in one style,
//! and lines of spans, with their display widths.
//!
//! Widths come from the `unicode-width` crate: a character's width is
//! what `UnicodeWidthChar::width` says (control characters count as
//! zero), and a span's width is what `UnicodeWidthStr::width` says of its
//! text, as ratatui measures it.
use vstd::prelude::*;

use unicode_width::{UnicodeWidthChar, UnicodeWidthStr};

use crate::text::{chars_of, extend_chars, lines, split_lines, string_of, views};
use crate::theme::Color;

verus! {

/// Text attributes a style switches on.
#[derive(Debug, Clone, Copy, PartialEq, Eq, Structural)]
pub struct Modifiers {
    pub bold: bool,
    pub dim: bool,
    pub italic: bool,
    pub underlined: bool,
    pub crossed_out: bool,
}

/// No attributes.
pub open spec fn no_modifiers() -> Modifiers {
    Modifiers { bold: false, dim: false, italic: false, underlined: false, crossed_out: false }
}

/// The attributes of either.
pub open spec fn union_modifiers(a: Modifiers, b: Modifiers) -> Modifiers {
    Modifiers {
        bold: a.bold || b.bold,
        dim: a.dim || b.dim,
        italic: a.italic || b.italic,
        underlined: a.underlined || b.underlined,
        crossed_out: a.crossed_out || b.crossed_out,
    }
}

/// A foreground color, a background color and attributes; `None` colors
/// leave whatever is underneath.
#[derive(Debug, Clone, Copy, PartialEq, Eq, Structural)]
pub struct Style {
    pub fg: Option<Color>,
    pub bg: Option<Color>,
    pub add_modifier: Modifiers,
}

/// The style that changes nothing.
pub open spec fn default_style() -> Style {
    Style { fg: None, bg: None, add_modifier: no_modifiers() }
}

/// `b` laid over `a`: `b`'s colors where it has them, both's attributes.
pub open spec fn patched(a: Style, b: Style) -> Style {
    Style {
        fg: if b.fg is Some {
            b.fg
        } else {
            a.fg
        },
        bg: if b.bg is Some {
            b.bg
        } else {
            a.bg
        },
        add_modifier: union_modifiers(a.add_modifier, b.add_modifier),
    }
}

/// `s` with attribute `m` added.
pub open spec fn with_modifiers(s: Style, m: Modifiers) -> Style {
    Style { add_modifier: union_modifiers(s.add_modifier, m), ..s }
}

/// Only bold.
pub open spec fn bold_only() -> Modifiers {
    Modifiers { bold: true, ..no_modifiers() }
}

/// Only dim.
pub open spec fn dim_only() -> Modifiers {
    Modifiers { dim: true, ..no_modifiers() }
}

/// Only italic.
pub open spec fn italic_only() -> Modifiers {
    Modifiers { italic: true, ..no_modifiers() }
}

/// Only underlined.
pub open spec fn underlined_only() -> Modifiers {
    Modifiers { underlined: true, ..no_modifiers() }
}

/// Only crossed out.
pub open spec fn crossed_out_only() -> Modifiers {
    Modifiers { crossed_out: true, ..no_modifiers() }
}

impl Modifiers {
    /// No attributes.
    pub fn none() -> (r: Modifiers)
        ensures
            r == no_modifiers(),
    {
        Modifiers { bold: false, dim: false, italic: false, underlined: false, crossed_out: false }
    }

    /// The attributes of either.
    pub fn union(self, other: Modifiers) -> (r: Modifiers)
        ensures
            r == union_modifiers(self, other),
    {
        Modifiers {
            bold: self.bold || other.bold,
            dim: self.dim || other.dim,
            italic: self.italic || other.italic,
            underlined: self.underlined || other.underlined,
            crossed_out: self.crossed_out || other.crossed_out,
        }
    }
}

impl Style {
    /// The style that changes nothing.
    pub fn new() -> (r: Style)
        ensures
            r == default_style(),
    {
        Style { fg: None, bg: None, add_modifier: Modifiers::none() }
    }

    /// This style with foreground `c`.
    pub fn fg(self, c: Color) -> (r: Style)
        ensures
            r == (Style { fg: Some(c), ..self }),
    {
        Style { fg: Some(c), ..self }
    }

    /// This style with background `c`.
    pub fn bg(self, c: Color) -> (r: Style)
        ensures
            r == (Style { bg: Some(c), ..self }),
    {
        Style { bg: Some(c), ..self }
    }

    /// This style with the attributes of `m` added.
    pub fn add(self, m: Modifiers) -> (r: Style)
        ensures
            r == with_modifiers(self, m),
    {
        Style { add_modifier: self.add_modifier.union(m), ..self }
    }

    /// This style, bold.
    pub fn bold(self) -> (r: Style)
        ensures
            r == with_modifiers(self, bold_only()),
    {
        self.add(Modifiers { bold: true, ..Modifiers::none() })
    }

    /// This style, dim.
    pub fn dim(self) -> (r: Style)
        ensures
            r == with_modifiers(self, dim_only()),
    {
        self.add(Modifiers { dim: true, ..Modifiers::none() })
    }

    /// This style, italic.
    pub fn italic(self) -> (r: Style)
        ensures
            r == with_modifiers(self, italic_only()),
    {
        self.add(Modifiers { italic: true, ..Modifiers::none() })
    }

    /// This style, underlined.
    pub fn underlined(self) -> (r: Style)
        ensures
            r == with_modifiers(self, underlined_only()),
    {
        self.add(Modifiers { underlined: true, ..Modifiers::none() })
    }

    /// This style, crossed out.
    pub fn crossed_out(self) -> (r: Style)
        ensures
            r == with_modifiers(self, crossed_out_only()),
    {
        self.add(Modifiers { crossed_out: true, ..Modifiers::none() })
    }

    /// `other` laid over this style.
    pub fn patch(self, other: Style) -> (r: Style)
        ensures
            r == patched(self, other),
    {
        Style {
            fg: if other.fg.is_some() {
                other.fg
            } else {
                self.fg
            },
            bg: if other.bg.is_some() {
                other.bg
            } else {
                self.bg
            },
            add_modifier: self.add_modifier.union(other.add_modifier),
        }
    }
}

/// Text in one style.
#[derive(Debug, Clone, PartialEq)]
pub struct Span {
    pub content: String,
    pub style: Style,
}

/// The model of a [`Span`].
pub struct StyledRun {
    pub text: Seq<char>,
    pub style: Style,
}

impl View for Span {
    type V = StyledRun;

    open spec fn view(&self) -> StyledRun {
        StyledRun { text: self.content@, style: self.style }
    }
}

/// One row of styled text; the line's own style lies under its spans'.
#[derive(Debug, Clone, PartialEq)]
pub struct Line {
    pub spans: Vec<Span>,
    pub style: Style,
}

/// The model of a [`Line`].
pub struct StyledLine {
    pub spans: Seq<StyledRun>,
    pub style: Style,
}

/// The models of a run of spans.
pub open spec fn runs(s: Seq<Span>) -> Seq<StyledRun> {
    s.map_values(|x: Span| x@)
}

impl View for Line {
    type V = StyledLine;

    open spec fn view(&self) -> StyledLine {
        StyledLine { spans: runs(self.spans@), style: self.style }
    }
}

/// The models of a run of lines.
pub open spec fn line_models(s: Seq<Line>) -> Seq<StyledLine> {
    s.map_values(|x: Line| x@)
}

/// A run of text `t` in style `s`.
pub open spec fn run(t: Seq<char>, s: Style) -> StyledRun {
    StyledRun { text: t, style: s }
}

/// A line of the given runs in the default style.
pub open spec fn line_of(spans: Seq<StyledRun>) -> StyledLine {
    StyledLine { spans, style: default_style() }
}

/// The line ratatui's `Line::styled` makes of `t`: one unstyled run per
/// line of `t`, with the line style `s`.
pub open spec fn styled_line(t: Seq<char>, s: Style) -> StyledLine {
    StyledLine { spans: lines(t).map_values(|l: Seq<char>| run(l, default_style())), style: s }
}

// ---------------------------------------------------------------------
// Widths
/// What `UnicodeWidthChar::width` says of `c`.
pub uninterp spec fn unicode_char_width(c: char) -> Option<usize>;

/// What `UnicodeWidthStr::width` says of the text `s`.
pub uninterp spec fn unicode_str_width(s: Seq<char>) -> usize;

/// Calls `UnicodeWidthChar::width`. As its source shows: printable ASCII is
/// one column, the C0 control characters have no width (`None`), and no
/// character is wider than three columns.
#[verifier::external_body]
fn unicode_width_of_char(c: char) -> (r: Option<usize>)
    ensures
        r == unicode_char_width(c),
        (' ' <= c && c <= '~') ==> r == Some(1usize),
        c < ' ' ==> r is None,
        r matches Some(w) ==> w <= 3,
{
    UnicodeWidthChar::width(c)
}

/// Calls `UnicodeWidthStr::width`. As its source shows, it sums a width
/// per character, and printable ASCII characters count one each: text
/// made of them is as wide as it is long (the empty text is zero wide).
#[verifier::external_body]
fn unicode_width_of_str(s: &str) -> (r: usize)
    ensures
        r == unicode_str_width(s@),
        s@.len() == 0 ==> r == 0,
        (forall|i: int| 0 <= i < s@.len() ==> ' ' <= #[trigger] s@[i] <= '~') ==> r == s@.len(),
{
    UnicodeWidthStr::width(s)
}

/// The columns a text takes as ratatui measures it.
pub fn str_width(s: &str) -> (r: usize)
    ensures
        r == unicode_str_width(s@),
        (forall|i: int| 0 <= i < s@.len() ==> ' ' <= #[trigger] s@[i] <= '~') ==> r == s@.len(),
{
    unicode_width_of_str(s)
}

/// The columns `c` takes: its Unicode width (one column for printable
/// ASCII), zero for control characters.
pub open spec fn cells(c: char) -> nat {
    if ' ' <= c && c <= '~' {
        1
    } else {
        match unicode_char_width(c) {
            Some(w) => w as nat,
            None => 0,
        }
    }
}

/// `x`, capped at `usize::MAX`.
pub open spec fn capped(x: int) -> nat {
    if x > usize::MAX {
        usize::MAX as nat
    } else if x < 0 {
        0
    } else {
        x as nat
    }
}

/// The columns a text takes, character by character (summed without
/// exceeding `usize::MAX`).
pub open spec fn display_width(s: Seq<char>) -> nat
    decreases s.len(),
{
    if s.len() == 0 {
        0
    } else {
        capped(display_width(s.drop_last()) + cells(s.last()) as int)
    }
}

/// The columns a span takes, as ratatui measures it.
pub open spec fn run_width(r: StyledRun) -> nat {
    unicode_str_width(r.text) as nat
}

/// The columns a run of spans takes.
pub open spec fn runs_width(s: Seq<StyledRun>) -> nat
    decreases s.len(),
{
    if s.len() == 0 {
        0
    } else {
        capped(runs_width(s.drop_last()) + run_width(s.last()) as int)
    }
}

/// The columns a line takes.
pub open spec fn line_width(l: StyledLine) -> nat {
    runs_width(l.spans)
}

/// The columns `c` takes.
pub fn char_cells(c: char) -> (r: usize)
    ensures
        r == cells(c),
        r <= 3,
        (' ' <= c && c <= '~') ==> r == 1,
        c < ' ' ==> r == 0,
{
    match unicode_width_of_char(c) {
        Some(w) => w,
        None => 0,
    }
}

/// The columns a text takes, character by character.
pub fn text_width(s: &Vec<char>) -> (r: usize)
    ensures
        r == display_width(s@),
{
    let mut w: usize = 0;
    let mut i: usize = 0;
    while i < s.len()
        invariant
            i <= s@.len(),
            w == display_width(s@.take(i as int)),
        decreases s@.len() - i,
    {
        let c = char_cells(s[i]);
        assert(s@.take(i + 1).drop_last() =~= s@.take(i as int));
        w = w.saturating_add(c);
        i = i + 1;
    }
    assert(s@.take(s@.len() as int) =~= s@);
    w
}

/// The columns a string takes, character by character.
pub fn str_display_width(s: &str) -> (r: usize)
    ensures
        r == display_width(s@),
{
    let v = chars_of(s);
    text_width(&v)
}

impl Span {
    /// Text in the default style.
    pub fn raw(content: String) -> (r: Span)
        ensures
            r@ == run(content@, default_style()),
    {
        Span { content, style: Style::new() }
    }

    /// Text in style `style`.
    pub fn styled(content: String, style: Style) -> (r: Span)
        ensures
            r@ == run(content@, style),
    {
        Span { content, style }
    }

    /// The span's text.
    pub fn text(&self) -> (r: &str)
        ensures
            r@ == self.content@,
    {
        self.content.as_str()
    }

    /// The columns the span takes.
    pub fn width(&self) -> (r: usize)
        ensures
            r == run_width(self@),
    {
        unicode_width_of_str(self.content.as_str())
    }

    /// A copy of the span.
    pub fn copy(&self) -> (r: Span)
        ensures
            r@ == self@,
    {
        Span { content: self.content.clone(), style: self.style }
    }
}

/// A copy of a run of spans.
pub fn copy_spans(spans: &Vec<Span>) -> (r: Vec<Span>)
    ensures
        runs(r@) == runs(spans@),
{
    let mut out: Vec<Span> = Vec::new();
    let mut i: usize = 0;
    while i < spans.len()
        invariant
            i <= spans@.len(),
            runs(out@) == runs(spans@).take(i as int),
        decreases spans@.len() - i,
    {
        let s = spans[i].copy();
        let ghost before = runs(out@);
        out.push(s);
        assert(runs(out@) =~= before.push(s@));
        i = i + 1;
        assert(runs(spans@).take(i as int) =~= before.push(s@));
    }
    assert(runs(spans@).take(spans@.len() as int) =~= runs(spans@));
    out
}

/// The columns a run of spans takes, as ratatui measures each span.
pub fn measured_width(spans: &Vec<Span>) -> (r: usize)
    ensures
        r == runs_width(runs(spans@)),
{
    let mut w: usize = 0;
    let mut i: usize = 0;
    while i < spans.len()
        invariant
            i <= spans@.len(),
            w == runs_width(runs(spans@).take(i as int)),
        decreases spans@.len() - i,
    {
        let sw = spans[i].width();
        assert(runs(spans@).take(i + 1).drop_last() =~= runs(spans@).take(i as int));
        w = w.saturating_add(sw);
        i = i + 1;
    }
    assert(runs(spans@).take(spans@.len() as int) =~= runs(spans@));
    w
}

/// The columns a run of spans takes, character by character.
pub open spec fn runs_display_width(s: Seq<StyledRun>) -> nat
    decreases s.len(),
{
    if s.len() == 0 {
        0
    } else {
        capped(runs_display_width(s.drop_last()) + display_width(s.last().text) as int)
    }
}

/// Total display width of styled spans, character by character.
pub fn spans_width(spans: &Vec<Span>) -> (r: usize)
    ensures
        r == runs_display_width(runs(spans@)),
{
    let mut w: usize = 0;
    let mut i: usize = 0;
    while i < spans.len()
        invariant
            i <= spans@.len(),
            w == runs_display_width(runs(spans@).take(i as int)),
        decreases spans@.len() - i,
    {
        let sw = str_display_width(spans[i].content.as_str());
        assert(runs(spans@).take(i + 1).drop_last() =~= runs(spans@).take(i as int));
        w = w.saturating_add(sw);
        i = i + 1;
    }
    assert(runs(spans@).take(spans@.len() as int) =~= runs(spans@));
    w
}

/// The characters a line shows: its spans' texts, each without its line
/// breaks, as ratatui prints a line.
pub open spec fn shown_text(spans: Seq<StyledRun>) -> Seq<char>
    decreases spans.len(),
{
    if spans.len() == 0 {
        Seq::empty()
    } else {
        shown_text(spans.drop_last()) + lines(spans.last().text).flatten()
    }
}

impl Line {
    /// A line of `spans` in the default style.
    pub fn from_spans(spans: Vec<Span>) -> (r: Line)
        ensures
            r@ == line_of(runs(spans@)),
    {
        Line { spans, style: Style::new() }
    }

    /// An empty line.
    pub fn blank() -> (r: Line)
        ensures
            r@ == line_of(Seq::empty()),
    {
        let r = Line { spans: Vec::new(), style: Style::new() };
        assert(runs(r.spans@) =~= Seq::<StyledRun>::empty());
        r
    }

    /// ratatui's `Line::styled`: one unstyled span per line of `text`,
    /// with the line style `style`.
    pub fn styled(text: &Vec<char>, style: Style) -> (r: Line)
        ensures
            r@ == styled_line(text@, style),
    {
        let parts = split_lines(text);
        let ghost want = lines(text@).map_values(|l: Seq<char>| run(l, default_style()));
        let mut spans: Vec<Span> = Vec::new();
        let mut i: usize = 0;
        while i < parts.len()
            invariant
                i <= parts@.len(),
                views(parts@) == lines(text@),
                want == lines(text@).map_values(|l: Seq<char>| run(l, default_style())),
                runs(spans@) == want.take(i as int),
            decreases parts@.len() - i,
        {
            let s = Span::raw(string_of(parts[i].as_slice()));
            let ghost before = runs(spans@);
            spans.push(s);
            assert(runs(spans@) =~= before.push(s@));
            i = i + 1;
            assert(views(parts@)[i - 1] == parts@[i - 1]@);
            assert(want.take(i as int) =~= before.push(s@));
        }
        assert(want.take(parts@.len() as int) =~= want);
        Line { spans, style }
    }

    /// The columns the line takes.
    pub fn width(&self) -> (r: usize)
        ensures
            r == line_width(self@),
    {
        measured_width(&self.spans)
    }

    /// The text the line shows, without styles.
    pub fn plain_text(&self) -> (r: String)
        ensures
            r@ == shown_text(self@.spans),
    {
        let mut out: Vec<char> = Vec::new();
        let mut i: usize = 0;
        while i < self.spans.len()
            invariant
                i <= self.spans@.len(),
                out@ == shown_text(runs(self.spans@).take(i as int)),
            decreases self.spans@.len() - i,
        {
            let chars = chars_of(self.spans[i].content.as_str());
            let parts = split_lines(&chars);
            let ghost before = out@;
            let mut k: usize = 0;
            while k < parts.len()
                invariant
                    k <= parts@.len(),
                    views(parts@) == lines(chars@),
                    out@ == before + views(parts@).take(k as int).flatten(),
                decreases parts@.len() - k,
            {
                let ghost mid = out@;
                extend_chars(&mut out, &parts[k]);
                proof {
                    let p = views(parts@).take(k as int);
                    let x = parts@[k as int]@;
                    p.lemma_flatten_push(x);
                    assert(views(parts@).take(k + 1) =~= p.push(x));
                    assert(out@ =~= before + (p.flatten() + x));
                }
                k = k + 1;
            }
            assert(views(parts@).take(parts@.len() as int) =~= views(parts@));
            assert(runs(self.spans@).take(i + 1).drop_last() =~= runs(self.spans@).take(i as int));
            i = i + 1;
        }
        assert(runs(self.spans@).take(self.spans@.len() as int) =~= runs(self.spans@));
        string_of(out.as_slice())
    }
}

} // verus!
