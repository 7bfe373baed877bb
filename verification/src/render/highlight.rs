//! Syntax highlighting for code blocks, backed by syntect.
//!
//! syntect does the highlighting; this module decides what happens
//! around it: tabs become spaces, an unknown language is highlighted as
//! plain text, an unknown code theme falls back to plain lines, a line
//! syntect fails on stays plain, and each highlighted piece becomes a
//! styled span. Besides syntect's default themes, the built-in `Dark+`
//! theme is loaded.
use vstd::prelude::*;

use syntect::easy::HighlightLines;
use syntect::highlighting::ThemeSet;
use syntect::parsing::SyntaxSet;
use syntect::util::LinesWithEndings;

use super::style::{
    default_style, line_models, run, runs, styled_line, Line, Modifiers, Span, Style, StyledLine,
    StyledRun,
};
use crate::markdown::builder::expand_tabs_vec;
use crate::markdown::builder_spec::expand_tabs;
use super::dark_plus::{DARK_PLUS, DARK_PLUS_NAME};
use crate::text::{chars_before, chars_of, string_of};
use crate::theme::Color;

verus! {

/// syntect's loaded syntax definitions, carried opaquely.
#[verifier::external_type_specification]
#[verifier::external_body]
pub struct ExSyntaxSet(SyntaxSet);

/// syntect's loaded color themes, carried opaquely.
#[verifier::external_type_specification]
#[verifier::external_body]
pub struct ExThemeSet(ThemeSet);

/// Loaded syntax and theme sets: syntect's default syntaxes, and its
/// default themes with the built-in `Dark+` theme, the same every time
/// one is made. Construct once and share; loading is relatively
/// expensive.
pub struct Highlighter {
    syntaxes: SyntaxSet,
    themes: ThemeSet,
}

/// One line of code as syntect highlighted it: the line's text (with its
/// line ending), and its pieces as (red, green, blue, font-style bits,
/// text), or `None` where syntect reported an error for the line.
pub struct HighlightedLine {
    pub text: String,
    pub segments: Option<Vec<(u8, u8, u8, u8, String)>>,
}

/// The model of a highlighted piece.
pub open spec fn segment_model(s: (u8, u8, u8, u8, String)) -> (u8, u8, u8, u8, Seq<char>) {
    (s.0, s.1, s.2, s.3, s.4@)
}

/// The model of a [`HighlightedLine`].
pub open spec fn highlighted_model(h: HighlightedLine) -> (Seq<char>, Option<
    Seq<(u8, u8, u8, u8, Seq<char>)>,
>) {
    (
        h.text@,
        match h.segments {
            Some(v) => Some(v@.map_values(|s: (u8, u8, u8, u8, String)| segment_model(s))),
            None => None,
        },
    )
}

/// The models of highlighted lines.
pub open spec fn highlighted_models(v: Seq<HighlightedLine>) -> Seq<
    (Seq<char>, Option<Seq<(u8, u8, u8, u8, Seq<char>)>>),
> {
    v.map_values(|h: HighlightedLine| highlighted_model(h))
}

/// Whether the loaded theme set (syntect's defaults and the built-in
/// `Dark+`) holds a theme called `name`.
pub uninterp spec fn default_theme_known(name: Seq<char>) -> bool;

/// Whether syntect's default syntax set has a syntax for the language
/// token `token` (`find_syntax_by_token`).
pub uninterp spec fn default_syntax_known(token: Seq<char>) -> bool;

/// What syntect makes of `code` under theme `theme`, line by line, with
/// the syntax for token `syntax`, or the plain-text syntax for `None`.
pub uninterp spec fn syntect_lines(
    code: Seq<char>,
    syntax: Option<Seq<char>>,
    theme: Seq<char>,
) -> Seq<(Seq<char>, Option<Seq<(u8, u8, u8, u8, Seq<char>)>>)>;

/// The syntax code is highlighted with: the language's when syntect
/// knows that token, else plain text (`None`).
pub open spec fn chosen_syntax(language: Option<Seq<char>>) -> Option<Seq<char>> {
    match language {
        Some(l) => if default_syntax_known(l) {
            Some(l)
        } else {
            None
        },
        None => None,
    }
}

/// The characters of an optional string.
pub open spec fn opt_str(o: Option<&str>) -> Option<Seq<char>> {
    match o {
        Some(s) => Some(s@),
        None => None,
    }
}

/// Asks syntect's `find_syntax_by_token` whether it has a syntax for
/// the language token `token`.
#[verifier::external_body]
fn syntax_known(h: &Highlighter, token: &str) -> (r: bool)
    ensures
        r == default_syntax_known(token@),
{
    h.syntaxes.find_syntax_by_token(token).is_some()
}

/// Runs syntect: the syntax `find_syntax_by_token` gives for the token
/// `syntax` (`find_syntax_plain_text` for `None`), a `HighlightLines` for
/// the theme, and `highlight_line` on each line `LinesWithEndings`
/// yields. The contract claims only that the result is syntect's answer
/// for these arguments.
#[verifier::external_body]
fn syntect_highlight(h: &Highlighter, code: &str, syntax: Option<&str>, theme: &str) -> (r: Vec<
    HighlightedLine,
>)
    requires
        default_theme_known(theme@),
        syntax matches Some(t) ==> default_syntax_known(t@),
    ensures
        highlighted_models(r@) == syntect_lines(code@, opt_str(syntax), theme@),
{
    let syntax = match syntax {
        Some(t) => h.syntaxes.find_syntax_by_token(t).unwrap(),
        None => h.syntaxes.find_syntax_plain_text(),
    };
    let mut lines = HighlightLines::new(syntax, &h.themes.themes[theme]);
    LinesWithEndings::from(code).map(|line| HighlightedLine {
        text: line.to_string(),
        segments: lines.highlight_line(line, &h.syntaxes).ok().map(|ranges| ranges.into_iter().map(
            |(s, t)| (s.foreground.r, s.foreground.g, s.foreground.b, s.font_style.bits(), t.to_string()),
        ).collect()),
    }).collect()
}

/// Loads syntect's default syntaxes (newline-terminated flavor); nothing
/// is claimed of what they hold.
#[verifier::external_body]
fn load_syntaxes() -> SyntaxSet {
    SyntaxSet::load_defaults_newlines()
}

/// Loads syntect's default themes (`ThemeSet::load_defaults`) and adds
/// the theme parsed from the TextMate text `tm_theme`
/// (`ThemeSet::load_from_reader`) under `name`; when that text does not
/// parse, only the defaults are loaded. Nothing is claimed of what the
/// set holds.
#[verifier::external_body]
fn load_themes(name: &str, tm_theme: &str) -> ThemeSet {
    let mut themes = ThemeSet::load_defaults();
    if let Ok(theme) = ThemeSet::load_from_reader(&mut std::io::Cursor::new(tm_theme.as_bytes())) {
        themes.themes.insert(name.to_string(), theme);
    }
    themes
}

/// `s` without its trailing `'\n'` characters.
pub open spec fn strip_newlines(s: Seq<char>) -> Seq<char>
    decreases s.len(),
{
    if s.len() > 0 && s.last() == '\n' {
        strip_newlines(s.drop_last())
    } else {
        s
    }
}

/// `s` split at each `'\n'` (`str::split`): an empty text is one empty
/// piece.
pub open spec fn split_newline(s: Seq<char>) -> Seq<Seq<char>>
    decreases s.len(),
{
    if s.len() == 0 {
        seq![Seq::empty()]
    } else {
        let p = split_newline(s.drop_last());
        if s.last() == '\n' {
            p.push(Seq::empty())
        } else {
            p.drop_last().push(p.last().push(s.last()))
        }
    }
}

pub proof fn lemma_split_newline_nonempty(s: Seq<char>)
    ensures
        split_newline(s).len() >= 1,
    decreases s.len(),
{
    if s.len() > 0 {
        lemma_split_newline_nonempty(s.drop_last());
    }
}

/// Code shown without highlighting: one plain line per source line.
pub open spec fn plain_code_lines(code: Seq<char>) -> Seq<StyledLine> {
    split_newline(strip_newlines(code)).map_values(|l: Seq<char>| styled_line(l, default_style()))
}

/// A highlighted piece follows syntect's font-style bits, counted from
/// the lowest: the first (BOLD) makes it bold, the second (UNDERLINE)
/// underlined, the third (ITALIC) italic; it is never dimmed or crossed
/// out, and takes the piece's color on no background.
pub proof fn law_font_bits_become_attributes(r: u8, g: u8, b: u8, font: u8)
    ensures
        segment_style(r, g, b, font).add_modifier.bold == (font % 2 == 1),
        segment_style(r, g, b, font).add_modifier.underlined == ((font / 2) % 2 == 1),
        segment_style(r, g, b, font).add_modifier.italic == ((font / 4) % 2 == 1),
        !segment_style(r, g, b, font).add_modifier.dim,
        !segment_style(r, g, b, font).add_modifier.crossed_out,
        segment_style(r, g, b, font).fg == Some(Color::Rgb(r, g, b)),
        segment_style(r, g, b, font).bg is None,
{
    assert((font & 1u8 != 0) == (font % 2 == 1)) by (bit_vector);
    assert((font & 2u8 != 0) == ((font / 2) % 2 == 1)) by (bit_vector);
    assert((font & 4u8 != 0) == ((font / 4) % 2 == 1)) by (bit_vector);
}

/// The style of a highlighted piece: its color, and bold, italic and
/// underline from syntect's font-style bits.
pub open spec fn segment_style(r: u8, g: u8, b: u8, font: u8) -> Style {
    Style {
        fg: Some(Color::Rgb(r, g, b)),
        bg: None,
        add_modifier: Modifiers {
            bold: font & 1u8 != 0,
            dim: false,
            italic: font & 4u8 != 0,
            underlined: font & 2u8 != 0,
            crossed_out: false,
        },
    }
}

/// The spans of highlighted pieces: each without trailing line breaks,
/// empty ones dropped.
pub open spec fn segment_runs(segs: Seq<(u8, u8, u8, u8, Seq<char>)>) -> Seq<StyledRun>
    decreases segs.len(),
{
    if segs.len() == 0 {
        Seq::empty()
    } else {
        let s = segs.last();
        let t = strip_newlines(s.4);
        if t.len() == 0 {
            segment_runs(segs.drop_last())
        } else {
            segment_runs(segs.drop_last()).push(run(t, segment_style(s.0, s.1, s.2, s.3)))
        }
    }
}

/// Every span of highlighted pieces is one of the pieces, its line breaks
/// dropped, drawn in that piece's own style; pieces keep their order.
pub proof fn law_pieces_keep_their_style(segs: Seq<(u8, u8, u8, u8, Seq<char>)>)
    ensures
        segment_runs(segs).len() <= segs.len(),
        forall|j: int|
            0 <= j < segment_runs(segs).len() ==> exists|i: int|
                0 <= i < segs.len() && #[trigger] segment_runs(segs)[j] == run(
                    strip_newlines(segs[i].4),
                    segment_style(segs[i].0, segs[i].1, segs[i].2, segs[i].3),
                ),
    decreases segs.len(),
{
    if segs.len() > 0 {
        let p = segs.drop_last();
        law_pieces_keep_their_style(p);
        let rs = segment_runs(segs);
        let rp = segment_runs(p);
        assert forall|j: int| 0 <= j < rs.len() implies exists|i: int|
            0 <= i < segs.len() && #[trigger] rs[j] == run(
                strip_newlines(segs[i].4),
                segment_style(segs[i].0, segs[i].1, segs[i].2, segs[i].3),
            ) by {
            if j < rp.len() {
                assert(rs[j] == rp[j]);
                let i = choose|i: int|
                    0 <= i < p.len() && #[trigger] rp[j] == run(
                        strip_newlines(p[i].4),
                        segment_style(p[i].0, p[i].1, p[i].2, p[i].3),
                    );
                assert(p[i] == segs[i]);
            } else {
                assert(segs[segs.len() - 1] == segs.last());
            }
        }
    }
}

/// One highlighted line as a styled line; a line syntect failed on is
/// plain text.
pub open spec fn highlighted_line(h: (Seq<char>, Option<Seq<(u8, u8, u8, u8, Seq<char>)>>)) -> StyledLine {
    match h.1 {
        None => styled_line(strip_newlines(h.0), default_style()),
        Some(segs) => StyledLine { spans: segment_runs(segs), style: default_style() },
    }
}

/// Code highlighted as `language` under code theme `theme`: tabs become
/// four spaces; an unknown theme gives plain lines; otherwise one line
/// per line syntect returns for the chosen syntax (plain text for an
/// unknown language), and one empty line for no code at all.
pub open spec fn spec_highlight(code: Seq<char>, language: Option<Seq<char>>, theme: Seq<char>) -> Seq<
    StyledLine,
> {
    let code = expand_tabs(code);
    if !default_theme_known(theme) {
        plain_code_lines(code)
    } else {
        styled_highlights(syntect_lines(code, chosen_syntax(language), theme))
    }
}

/// Highlighted lines as styled lines, one per line, and one empty line
/// where there are none.
pub open spec fn styled_highlights(hs: Seq<(Seq<char>, Option<Seq<(u8, u8, u8, u8, Seq<char>)>>)>) -> Seq<
    StyledLine,
> {
    let ls = hs.map_values(
        |h: (Seq<char>, Option<Seq<(u8, u8, u8, u8, Seq<char>)>>)| highlighted_line(h),
    );
    if ls.len() == 0 {
        seq![StyledLine { spans: Seq::empty(), style: default_style() }]
    } else {
        ls
    }
}

/// `s` without trailing `'\n'` characters, computed.
fn strip_newlines_vec(s: &Vec<char>) -> (r: Vec<char>)
    ensures
        r@ == strip_newlines(s@),
{
    let mut n = s.len();
    assert(s@.take(n as int) =~= s@);
    while n > 0 && s[n - 1] == '\n'
        invariant
            n <= s@.len(),
            strip_newlines(s@) == strip_newlines(s@.take(n as int)),
        decreases n,
    {
        assert(s@.take(n as int).drop_last() =~= s@.take(n - 1));
        n = n - 1;
    }
    proof {
        lemma_strip_done(s@.take(n as int));
    }
    let mut r: Vec<char> = Vec::new();
    let mut k: usize = 0;
    while k < n
        invariant
            k <= n <= s@.len(),
            r@ == s@.take(k as int),
        decreases n - k,
    {
        r.push(s[k]);
        k = k + 1;
        assert(r@ =~= s@.take(k as int));
    }
    r
}

/// `strip_newlines` of a prefix that does not end in a line break is
/// the prefix itself.
proof fn lemma_strip_done(s: Seq<char>)
    requires
        s.len() == 0 || s.last() != '\n',
    ensures
        strip_newlines(s) == s,
{
}

/// `split_newline` computed.
fn split_newline_vec(s: &Vec<char>) -> (r: Vec<Vec<char>>)
    ensures
        r@.map_values(|l: Vec<char>| l@) == split_newline(s@),
{
    let mut out: Vec<Vec<char>> = Vec::new();
    let mut cur: Vec<char> = Vec::new();
    let mut i: usize = 0;
    while i < s.len()
        invariant
            i <= s@.len(),
            out@.map_values(|l: Vec<char>| l@).push(cur@) == split_newline(s@.take(i as int)),
        decreases s@.len() - i,
    {
        let ghost before = out@.map_values(|l: Vec<char>| l@);
        assert(s@.take(i + 1).drop_last() =~= s@.take(i as int));
        proof {
            lemma_split_newline_nonempty(s@.take(i as int));
        }
        if s[i] == '\n' {
            let mut done: Vec<char> = Vec::new();
            std::mem::swap(&mut done, &mut cur);
            let ghost d = done@;
            out.push(done);
            assert(out@.map_values(|l: Vec<char>| l@) =~= before.push(d));
            assert(cur@ =~= Seq::<char>::empty());
        } else {
            cur.push(s[i]);
        }
        i = i + 1;
        assert(out@.map_values(|l: Vec<char>| l@).push(cur@) =~= split_newline(s@.take(i as int)));
    }
    assert(s@.take(s@.len() as int) =~= s@);
    let ghost before = out@.map_values(|l: Vec<char>| l@);
    let ghost c = cur@;
    out.push(cur);
    assert(out@.map_values(|l: Vec<char>| l@) =~= before.push(c));
    out
}

/// Code shown without highlighting: one plain line per source line.
fn plain_lines(code: &Vec<char>) -> (r: Vec<Line>)
    ensures
        line_models(r@) == plain_code_lines(code@),
{
    let trimmed = strip_newlines_vec(code);
    let parts = split_newline_vec(&trimmed);
    let ghost want = plain_code_lines(code@);
    let mut out: Vec<Line> = Vec::new();
    let mut i: usize = 0;
    while i < parts.len()
        invariant
            i <= parts@.len(),
            parts@.map_values(|l: Vec<char>| l@) == split_newline(strip_newlines(code@)),
            want == plain_code_lines(code@),
            line_models(out@) == want.take(i as int),
        decreases parts@.len() - i,
    {
        let line = Line::styled(&parts[i], Style::new());
        let ghost before = line_models(out@);
        out.push(line);
        assert(line_models(out@) =~= before.push(line@));
        assert(parts@.map_values(|l: Vec<char>| l@)[i as int] == parts@[i as int]@);
        i = i + 1;
        assert(want.take(i as int) =~= before.push(line@));
    }
    assert(want.take(parts@.len() as int) =~= want);
    out
}

/// Executable `segment_style`.
fn style_of_segment(r: u8, g: u8, b: u8, font: u8) -> (s: Style)
    ensures
        s == segment_style(r, g, b, font),
{
    Style {
        fg: Some(Color::Rgb(r, g, b)),
        bg: None,
        add_modifier: Modifiers {
            bold: font & 1u8 != 0,
            dim: false,
            italic: font & 4u8 != 0,
            underlined: font & 2u8 != 0,
            crossed_out: false,
        },
    }
}

/// One highlighted line as a styled line.
fn line_of_highlight(h: &HighlightedLine) -> (r: Line)
    ensures
        r@ == highlighted_line(highlighted_model(*h)),
{
    match &h.segments {
        None => {
            let chars = chars_of(h.text.as_str());
            let t = strip_newlines_vec(&chars);
            Line::styled(&t, Style::new())
        },
        Some(segs) => {
            let ghost m = segs@.map_values(|s: (u8, u8, u8, u8, String)| segment_model(s));
            let mut spans: Vec<Span> = Vec::new();
            let mut i: usize = 0;
            while i < segs.len()
                invariant
                    i <= segs@.len(),
                    m == segs@.map_values(|s: (u8, u8, u8, u8, String)| segment_model(s)),
                    runs(spans@) == segment_runs(m.take(i as int)),
                decreases segs@.len() - i,
            {
                let seg = &segs[i];
                assert(m.take(i + 1).drop_last() =~= m.take(i as int));
                assert(m[i as int] == segment_model(segs@[i as int]));
                let chars = chars_of(seg.4.as_str());
                let t = strip_newlines_vec(&chars);
                if t.len() > 0 {
                    let s = Span::styled(string_of(t.as_slice()), style_of_segment(seg.0, seg.1, seg.2, seg.3));
                    let ghost before = runs(spans@);
                    spans.push(s);
                    assert(runs(spans@) =~= before.push(s@));
                }
                i = i + 1;
            }
            assert(m.take(segs@.len() as int) =~= m);
            Line::from_spans(spans)
        },
    }
}

impl Highlighter {
    /// Loads syntect's default syntaxes, and its default themes with the
    /// built-in `Dark+` theme.
    pub fn new() -> (h: Highlighter) {
        Highlighter { syntaxes: load_syntaxes(), themes: load_themes(DARK_PLUS_NAME, DARK_PLUS) }
    }

    /// Whether a code theme of that name is loaded (a lookup in syntect's
    /// theme map).
    #[verifier::external_body]
    pub fn has_theme(&self, name: &str) -> (r: bool)
        ensures
            r == default_theme_known(name@),
    {
        self.themes.themes.contains_key(name)
    }

    /// The names of the loaded code themes: the keys of syntect's theme
    /// map (a `BTreeMap`), so every loaded theme once, in sorted order.
    #[verifier::external_body]
    pub fn available_themes(&self) -> (r: Vec<String>)
        ensures
            forall|i: int| 0 <= i < r@.len() ==> default_theme_known(#[trigger] r@[i]@),
            forall|name: Seq<char>|
                #[trigger] default_theme_known(name) ==> exists|i: int| 0 <= i < r@.len() && r@[i]@ == name,
            forall|i: int, j: int| 0 <= i < j < r@.len() ==> chars_before(#[trigger] r@[i]@, #[trigger] r@[j]@),
    {
        self.themes.themes.keys().cloned().collect()
    }

    /// Highlight `code` as `language`, returning one line per code line.
    /// Unknown languages or themes fall back to plain text. Tabs are
    /// expanded to spaces: terminal cells have no tab stops, and the
    /// wrapping/clipping math counts a tab as zero columns.
    pub fn highlight(&self, code: &str, language: Option<&str>, theme_name: &str) -> (r: Vec<Line>)
        ensures
            line_models(r@) == spec_highlight(code@, opt_str(language), theme_name@),
    {
        let raw = chars_of(code);
        let expanded = expand_tabs_vec(&raw);
        if !self.has_theme(theme_name) {
            return plain_lines(&expanded);
        }
        let text = string_of(expanded.as_slice());
        let syntax = match language {
            Some(l) => if syntax_known(self, l) {
                Some(l)
            } else {
                None
            },
            None => None,
        };
        assert(opt_str(syntax) == chosen_syntax(opt_str(language)));
        let hl = syntect_highlight(self, text.as_str(), syntax, theme_name);
        highlighted_lines(&hl)
    }
}

/// Turns syntect's highlighted lines into styled lines: each colored
/// piece becomes a span (newlines dropped, empty pieces skipped), a line
/// without pieces becomes plain text, and no lines at all become one
/// empty line.
pub fn highlighted_lines(hl: &Vec<HighlightedLine>) -> (r: Vec<Line>)
    ensures
        line_models(r@) == styled_highlights(highlighted_models(hl@)),
{
    let ghost src = highlighted_models(hl@);
    let ghost want = src.map_values(
        |h: (Seq<char>, Option<Seq<(u8, u8, u8, u8, Seq<char>)>>)| highlighted_line(h),
    );
    let mut out: Vec<Line> = Vec::new();
    let mut i: usize = 0;
    while i < hl.len()
        invariant
            i <= hl@.len(),
            src == highlighted_models(hl@),
            want == src.map_values(
                |h: (Seq<char>, Option<Seq<(u8, u8, u8, u8, Seq<char>)>>)| highlighted_line(h),
            ),
            line_models(out@) == want.take(i as int),
        decreases hl@.len() - i,
    {
        let line = line_of_highlight(&hl[i]);
        let ghost before = line_models(out@);
        out.push(line);
        assert(line_models(out@) =~= before.push(line@));
        i = i + 1;
        assert(want.take(i as int) =~= before.push(line@));
    }
    assert(want.take(hl@.len() as int) =~= want);
    if out.len() == 0 {
        let blank = Line::blank();
        out.push(blank);
        assert(line_models(out@) =~= seq![blank@]);
    }
    out
}

} // verus!
