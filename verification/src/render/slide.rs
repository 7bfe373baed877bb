//! Turns a parsed slide into styled terminal text.
use vstd::prelude::*;

use super::highlight::{opt_str, spec_highlight, Highlighter};
use super::style::{
    capped, bold_only, default_style, no_modifiers, union_modifiers, Modifiers, dim_only, italic_only, line_models, line_of, line_width, patched,
    run, runs, runs_display_width, spans_width, str_width, styled_line, underlined_only,
    unicode_str_width, with_modifiers, crossed_out_only, Line, Span, Style, StyledLine, StyledRun,
};
use super::wrap::{spaces, spec_wrap, split_runs, split_spans_at, wrap_spans};
use super::table::{render_table, table_lines};
use crate::markdown::builder::push_decimal;
use crate::markdown::builder_spec::decimal;
use crate::markdown::slide::{
    Slide, alert_label, opt_chars, AlertKind, Block, DefinitionItem, Footnote, InlineSpan, ListBlock,
    ListItem,
};
use crate::theme::Color;
use crate::text::{all_ws, is_blank, append_str, chars_of, push_repeat, repeat, repeat_string, str_eq, string_of};
use crate::theme::Theme;

verus! {

// ---------------------------------------------------------------------
// Inline spans
/// The style of an inline span: text color, then code (accent on the
/// code panel), footnote reference (accent), link (link color,
/// underlined), and the emphasis attributes.
pub open spec fn inline_style(s: InlineSpan, t: Theme) -> Style {
    let st0 = Style { fg: Some(t.text), ..default_style() };
    let st1 = if s.style.code {
        Style { fg: Some(t.accent), bg: Some(t.code_background), ..st0 }
    } else {
        st0
    };
    let st2 = if s.style.footnote_ref {
        Style { fg: Some(t.accent), ..st1 }
    } else {
        st1
    };
    let st3 = if s.link is Some {
        with_modifiers(Style { fg: Some(t.link), ..st2 }, underlined_only())
    } else {
        st2
    };
    let st4 = if s.style.bold {
        with_modifiers(st3, bold_only())
    } else {
        st3
    };
    let st5 = if s.style.italic {
        with_modifiers(st4, italic_only())
    } else {
        st4
    };
    let st6 = if s.style.strikethrough {
        with_modifiers(st5, crossed_out_only())
    } else {
        st5
    };
    if s.style.underline {
        with_modifiers(st6, underlined_only())
    } else {
        st6
    }
}

/// Each emphasis flag of an inline span shows as its terminal attribute:
/// bold as bold, italic as italic, strikethrough as crossed out, and
/// underline (or a link) as underlined; nothing is dimmed. The text takes
/// the link color in a link, else the accent for code and footnote
/// references, else the text color; only code sits on the code panel.
pub proof fn law_inline_flags_become_attributes(s: InlineSpan, t: Theme)
    ensures
        inline_style(s, t).add_modifier.bold == s.style.bold,
        inline_style(s, t).add_modifier.italic == s.style.italic,
        inline_style(s, t).add_modifier.crossed_out == s.style.strikethrough,
        inline_style(s, t).add_modifier.underlined == (s.style.underline || s.link is Some),
        !inline_style(s, t).add_modifier.dim,
        inline_style(s, t).fg == Some(
            if s.link is Some {
                t.link
            } else if s.style.code || s.style.footnote_ref {
                t.accent
            } else {
                t.text
            },
        ),
        inline_style(s, t).bg == if s.style.code {
            Some(t.code_background)
        } else {
            None
        },
{
}

/// A text span is drawn in its own inline style (an image's placeholder
/// adds italic and dim to it).
pub proof fn law_spans_are_drawn_in_their_style(spans: Seq<InlineSpan>, i: int, t: Theme)
    requires
        0 <= i < spans.len(),
    ensures
        spans[i].image is None ==> convert_one(spans, i, t)[0] == run(spans[i].text@, inline_style(spans[i], t)),
        spans[i].image is Some ==> convert_one(spans, i, t)[0].style.add_modifier == union_modifiers(
            inline_style(spans[i], t).add_modifier,
            Modifiers { italic: true, dim: true, ..no_modifiers() },
        ),
{
}

/// `[image: label]`, the placeholder text of a picture.
pub open spec fn image_label(label: Seq<char>) -> Seq<char> {
    "[image: "@ + label + "]"@
}

/// The spans inline span `i` becomes: its text (an image's placeholder
/// label, italic and dim), then, after the last span of a link whose text
/// is not the URL itself, the destination in parentheses.
pub open spec fn convert_one(spans: Seq<InlineSpan>, i: int, t: Theme) -> Seq<StyledRun> {
    let s = spans[i];
    let st = inline_style(s, t);
    let main = if s.image is Some {
        run(image_label(s.text@), with_modifiers(with_modifiers(st, italic_only()), dim_only()))
    } else {
        run(s.text@, st)
    };
    match s.link {
        Some(url) => {
            let last_of_link = i + 1 >= spans.len() || opt_chars(spans[i + 1].link) != Some(url@);
            if last_of_link && s.text@ != url@ {
                seq![
                    main,
                    run(
                        " ("@ + url@ + ")"@,
                        with_modifiers(Style { fg: Some(t.link), ..default_style() }, dim_only()),
                    ),
                ]
            } else {
                seq![main]
            }
        },
        None => seq![main],
    }
}

/// The spans the first `n` inline spans become.
pub open spec fn convert_upto(spans: Seq<InlineSpan>, n: int, t: Theme) -> Seq<StyledRun>
    decreases n,
{
    if n <= 0 {
        Seq::empty()
    } else {
        convert_upto(spans, n - 1, t) + convert_one(spans, n - 1, t)
    }
}

/// Inline spans as styled spans.
pub open spec fn spec_convert(spans: Seq<InlineSpan>, t: Theme) -> Seq<StyledRun> {
    convert_upto(spans, spans.len() as int, t)
}

/// Executable `inline_style`.
fn inline_style_of(s: &InlineSpan, t: &Theme) -> (r: Style)
    ensures
        r == inline_style(*s, *t),
{
    let mut st = Style::new().fg(t.text);
    if s.style.code {
        st = st.fg(t.accent).bg(t.code_background);
    }
    if s.style.footnote_ref {
        st = st.fg(t.accent);
    }
    if s.link.is_some() {
        st = st.fg(t.link).underlined();
    }
    if s.style.bold {
        st = st.bold();
    }
    if s.style.italic {
        st = st.italic();
    }
    if s.style.strikethrough {
        st = st.crossed_out();
    }
    if s.style.underline {
        st = st.underlined();
    }
    st
}

/// Whether an optional link is exactly `url`.
fn link_is(link: &Option<String>, url: &String) -> (r: bool)
    ensures
        r == (opt_chars(*link) == Some(url@)),
{
    match link {
        Some(l) => str_eq(l.as_str(), url.as_str()),
        None => false,
    }
}

/// Convert inline spans to styled spans.
pub fn convert_inline(spans: &Vec<InlineSpan>, theme: &Theme) -> (r: Vec<Span>)
    ensures
        runs(r@) == spec_convert(spans@, *theme),
{
    let mut out: Vec<Span> = Vec::new();
    let mut i: usize = 0;
    while i < spans.len()
        invariant
            i <= spans@.len(),
            runs(out@) == convert_upto(spans@, i as int, *theme),
        decreases spans@.len() - i,
    {
        let span = &spans[i];
        let style = inline_style_of(span, theme);
        let ghost before = runs(out@);
        let main = if span.image.is_some() {
            let mut label: Vec<char> = Vec::new();
            append_str(&mut label, "[image: ");
            append_str(&mut label, span.text.as_str());
            append_str(&mut label, "]");
            Span::styled(string_of(label.as_slice()), style.italic().dim())
        } else {
            Span::styled(span.text.clone(), style)
        };
        let ghost m = main@;
        out.push(main);
        assert(runs(out@) =~= before.push(m));
        match &span.link {
            Some(url) => {
                let last_of_link = i + 1 >= spans.len() || !link_is(&spans[i + 1].link, url);
                if last_of_link && !str_eq(span.text.as_str(), url.as_str()) {
                    let mut shown: Vec<char> = Vec::new();
                    append_str(&mut shown, " (");
                    append_str(&mut shown, url.as_str());
                    append_str(&mut shown, ")");
                    let extra = Span::styled(string_of(shown.as_slice()), Style::new().fg(theme.link).dim());
                    let ghost mid = runs(out@);
                    out.push(extra);
                    assert(runs(out@) =~= mid.push(extra@));
                    assert(runs(out@) =~= before + seq![m, extra@]);
                } else {
                    assert(runs(out@) =~= before + seq![m]);
                }
            },
            None => {
                assert(runs(out@) =~= before + seq![m]);
            },
        }
        i = i + 1;
    }
    out
}

// ---------------------------------------------------------------------
// Line helpers
/// A line made of `prefix` and then `l`'s spans (in the default style).
pub open spec fn prefixed(prefix: StyledRun, l: StyledLine) -> StyledLine {
    line_of(seq![prefix] + l.spans)
}

/// A line truncated to `width` columns, dropping what overflows.
pub open spec fn clipped(l: StyledLine, width: int) -> StyledLine {
    if line_width(l) <= width {
        l
    } else {
        StyledLine { spans: split_runs(l.spans, width).left, style: l.style }
    }
}

/// Lines without the empty ones at the end.
pub open spec fn trim_blank_lines(ls: Seq<StyledLine>) -> Seq<StyledLine>
    decreases ls.len(),
{
    if ls.len() > 0 && line_width(ls.last()) == 0 {
        trim_blank_lines(ls.drop_last())
    } else {
        ls
    }
}

/// `prefix` before `line`'s spans.
pub fn prefix_line(prefix: Span, line: Line) -> (r: Line)
    ensures
        r@ == prefixed(prefix@, line@),
{
    let mut spans: Vec<Span> = Vec::new();
    let ghost p = prefix@;
    spans.push(prefix);
    let mut rest = line.spans;
    let ghost tail = runs(rest@);
    spans.append(&mut rest);
    assert(runs(spans@) =~= seq![p] + tail);
    Line::from_spans(spans)
}

/// Truncate a line to `width` display columns, dropping what overflows.
pub fn clip_line(line: Line, width: usize) -> (r: Line)
    ensures
        r@ == clipped(line@, width as int),
{
    if line.width() <= width {
        return line;
    }
    let style = line.style;
    let (left, _right) = split_spans_at(line.spans, width);
    Line { spans: left, style }
}

/// Drop empty lines from the end.
pub fn trim_trailing_blanks(lines: &mut Vec<Line>)
    ensures
        line_models(final(lines)@) == trim_blank_lines(line_models(old(lines)@)),
{
    let ghost want = trim_blank_lines(line_models(lines@));
    while lines.len() > 0 && lines[lines.len() - 1].width() == 0
        invariant
            trim_blank_lines(line_models(lines@)) == want,
            want == trim_blank_lines(line_models(old(lines)@)),
        decreases lines@.len(),
    {
        let ghost before = line_models(lines@);
        lines.pop();
        assert(line_models(lines@) =~= before.drop_last());
    }
}

/// Append `more` to `out`.
pub fn append_lines(out: &mut Vec<Line>, more: Vec<Line>)
    ensures
        line_models(final(out)@) == line_models(old(out)@) + line_models(more@),
{
    let mut m = more;
    let ghost a = line_models(out@);
    let ghost b = line_models(m@);
    out.append(&mut m);
    assert(line_models(out@) =~= a + b);
}

// ---------------------------------------------------------------------
// Headings, rules, pictures, code
/// The style heading text takes: headings of level one and two in the
/// heading color, the rest in the text color, all bold.
pub open spec fn heading_style(level: u8, t: Theme) -> Style {
    if level == 1 || level == 2 {
        with_modifiers(Style { fg: Some(t.heading), ..default_style() }, bold_only())
    } else {
        with_modifiers(Style { fg: Some(t.text), ..default_style() }, bold_only())
    }
}

/// Spans with `style` laid over each.
pub open spec fn patch_runs(rs: Seq<StyledRun>, style: Style) -> Seq<StyledRun> {
    rs.map_values(|r: StyledRun| run(r.text, patched(r.style, style)))
}

/// The accent color, dimmed: rules and heading underlines.
pub open spec fn rule_style(t: Theme) -> Style {
    with_modifiers(Style { fg: Some(t.accent), ..default_style() }, dim_only())
}

/// A heading: its text wrapped in the heading style; a level-one heading
/// is underlined by a rule exactly as wide as its title (at least one
/// column, at most the width).
pub open spec fn heading_lines(level: u8, content: Seq<InlineSpan>, t: Theme, width: int) -> Seq<
    StyledLine,
> {
    let spans = patch_runs(spec_convert(content, t), heading_style(level, t));
    let tw = runs_display_width(spans) as int;
    let title_width = if tw < width {
        tw
    } else {
        width
    };
    let lines = spec_wrap(spans, width);
    if level == 1 {
        lines.push(
            styled_line(
                repeat(
                    '-',
                    if title_width < 1 {
                        1
                    } else {
                        title_width
                    },
                ),
                rule_style(t),
            ),
        )
    } else {
        lines
    }
}

/// A thematic break: a dim accent rule across the width.
pub open spec fn rule_line(t: Theme, width: int) -> StyledLine {
    styled_line(repeat('-', width), rule_style(t))
}

/// The placeholder a picture shows where it cannot be drawn.
pub open spec fn placeholder_line(alt: Seq<char>, t: Theme) -> StyledLine {
    styled_line(
        image_label(alt),
        with_modifiers(with_modifiers(Style { fg: Some(t.text), ..default_style() }, italic_only()), dim_only()),
    )
}

fn render_heading(level: u8, content: &Vec<InlineSpan>, theme: &Theme, width: usize, out: &mut Vec<Line>)
    ensures
        line_models(final(out)@) == line_models(old(out)@) + heading_lines(level, content@, *theme, width as int),
{
    let style = if level == 1 || level == 2 {
        Style::new().fg(theme.heading).bold()
    } else {
        Style::new().fg(theme.text).bold()
    };
    let converted = convert_inline(content, theme);
    let ghost conv = runs(converted@);
    let mut spans: Vec<Span> = Vec::new();
    let mut i: usize = 0;
    while i < converted.len()
        invariant
            i <= converted@.len(),
            conv == runs(converted@),
            runs(spans@) == patch_runs(conv, style).take(i as int),
        decreases converted@.len() - i,
    {
        let s = Span::styled(converted[i].content.clone(), converted[i].style.patch(style));
        let ghost before = runs(spans@);
        spans.push(s);
        assert(runs(spans@) =~= before.push(s@));
        i = i + 1;
        assert(patch_runs(conv, style).take(i as int) =~= before.push(s@));
    }
    assert(patch_runs(conv, style).take(converted@.len() as int) =~= patch_runs(conv, style));
    let tw = spans_width(&spans);
    let title_width = if tw < width {
        tw
    } else {
        width
    };
    let mut lines = wrap_spans(spans, width);
    if level == 1 {
        let mut rule: Vec<char> = Vec::new();
        push_repeat(&mut rule, '-', if title_width < 1 { 1 } else { title_width });
        assert(rule@ =~= repeat('-', if title_width < 1 { 1 } else { title_width as int }));
        let l = Line::styled(&rule, Style::new().fg(theme.accent).dim());
        let ghost before = line_models(lines@);
        lines.push(l);
        assert(line_models(lines@) =~= before.push(l@));
    }
    append_lines(out, lines);
}

fn render_rule(theme: &Theme, width: usize, out: &mut Vec<Line>)
    ensures
        line_models(final(out)@) == line_models(old(out)@).push(rule_line(*theme, width as int)),
{
    let mut rule: Vec<char> = Vec::new();
    push_repeat(&mut rule, '-', width);
    assert(rule@ =~= repeat('-', width as int));
    let l = Line::styled(&rule, Style::new().fg(theme.accent).dim());
    let ghost before = line_models(out@);
    out.push(l);
    assert(line_models(out@) =~= before.push(l@));
}

fn render_placeholder(alt: &String, theme: &Theme, out: &mut Vec<Line>)
    ensures
        line_models(final(out)@) == line_models(old(out)@).push(placeholder_line(alt@, *theme)),
{
    let mut label: Vec<char> = Vec::new();
    append_str(&mut label, "[image: ");
    append_str(&mut label, alt.as_str());
    append_str(&mut label, "]");
    let l = Line::styled(&label, Style::new().fg(theme.text).italic().dim());
    let ghost before = line_models(out@);
    out.push(l);
    assert(line_models(out@) =~= before.push(l@));
}

/// The widest of some lines (zero for none).
pub open spec fn max_line_width(ls: Seq<StyledLine>) -> int
    decreases ls.len(),
{
    if ls.len() == 0 {
        0
    } else {
        let m = max_line_width(ls.drop_last());
        let w = line_width(ls.last()) as int;
        if w > m {
            w
        } else {
            m
        }
    }
}

/// The code panel: the code panel color behind everything.
pub open spec fn panel_style(t: Theme) -> Style {
    Style { bg: Some(t.code_background), ..default_style() }
}

/// The window frame: border color on the code panel.
pub open spec fn border_style(t: Theme) -> Style {
    Style { fg: Some(t.code_border), bg: Some(t.code_background), ..default_style() }
}

/// One code line in a plain panel `box_width` wide: a space, the line
/// clipped to fit, and padding to the panel's width.
pub open spec fn plain_code_row(l: StyledLine, t: Theme, box_width: int) -> StyledLine {
    let line = clipped(l, box_width - 2);
    let pad = box_width - (line_width(line) + 1);
    StyledLine {
        spans: seq![run(" "@, default_style())] + line.spans + seq![
            run(spaces(if pad < 0 { 0 } else { pad }), default_style()),
        ],
        style: panel_style(t),
    }
}

/// One code line in a window `inner` columns wide inside its borders.
pub open spec fn window_code_row(l: StyledLine, t: Theme, inner: int) -> StyledLine {
    let line = clipped(l, inner - 2);
    let pad0 = inner - (line_width(line) + 1);
    let pad = if pad0 < 1 {
        1
    } else {
        pad0
    };
    StyledLine {
        spans: seq![run("\u{2502}"@, border_style(t)), run(" "@, default_style())] + line.spans + seq![
            run(spaces(pad), default_style()),
            run("\u{2502}"@, border_style(t)),
        ],
        style: panel_style(t),
    }
}

/// The bottom edge of a code window: the language as a label near the
/// right corner when it fits.
pub open spec fn window_bottom(language: Option<Seq<char>>, t: Theme, inner: int) -> StyledLine {
    let b = border_style(t);
    let middle = match language {
        Some(lang) => if unicode_str_width(lang) + 6 <= inner {
            seq![
                run(repeat('\u{2500}', inner - unicode_str_width(lang) - 4), b),
                run(" "@ + lang + " "@, b),
                run(repeat('\u{2500}', 2), b),
            ]
        } else {
            seq![run(repeat('\u{2500}', inner), b)]
        },
        None => seq![run(repeat('\u{2500}', inner), b)],
    };
    line_of(seq![run("\u{2570}"@, b)] + middle + seq![run("\u{256f}"@, b)])
}

/// A code block. By default a little framed window: a rounded border
/// with the language named in the bottom edge, on the code panel;
/// `code_style: plain` keeps just the panel. Lines are highlighted,
/// then clipped (never wrapped) to the box.
pub open spec fn code_lines(language: Option<Seq<char>>, code: Seq<char>, t: Theme, width: int) -> Seq<
    StyledLine,
> {
    let hl = spec_highlight(code, language, t.code_theme@);
    let content_width = max_line_width(hl);
    if t.code_style == crate::markdown::metadata::CodeStyle::Plain {
        let b0 = if content_width + 2 < width {
            content_width + 2
        } else {
            width
        };
        let box_width = if b0 < 4 {
            4
        } else {
            b0
        };
        hl.map_values(|l: StyledLine| plain_code_row(l, t, box_width))
    } else {
        let b0 = if content_width + 4 < width {
            content_width + 4
        } else {
            width
        };
        let box_width = if b0 < 12 {
            12
        } else {
            b0
        };
        let inner = box_width - 2;
        let b = border_style(t);
        let top = line_of(
            seq![
                run("\u{256d}"@, b),
                run(repeat('\u{2500}', box_width - 2), b),
                run("\u{256e}"@, b),
            ],
        );
        seq![top] + hl.map_values(|l: StyledLine| window_code_row(l, t, inner)) + seq![
            window_bottom(language, t, inner),
        ]
    }
}

/// A string of the given characters.
pub fn text_of(s: &str) -> (r: String)
    ensures
        r@ == s@,
{
    let v = chars_of(s);
    string_of(v.as_slice())
}

/// The widest of some lines.
fn widest(ls: &Vec<Line>) -> (r: usize)
    ensures
        r as int == max_line_width(line_models(ls@)),
{
    let mut m: usize = 0;
    let mut i: usize = 0;
    while i < ls.len()
        invariant
            i <= ls@.len(),
            m as int == max_line_width(line_models(ls@).take(i as int)),
        decreases ls@.len() - i,
    {
        let w = ls[i].width();
        assert(line_models(ls@).take(i + 1).drop_last() =~= line_models(ls@).take(i as int));
        if w > m {
            m = w;
        }
        i = i + 1;
    }
    assert(line_models(ls@).take(ls@.len() as int) =~= line_models(ls@));
    m
}

/// One code line in a plain panel.
fn plain_row(l: &Line, theme: &Theme, box_width: usize) -> (r: Line)
    requires
        box_width >= 4,
    ensures
        r@ == plain_code_row(l@, *theme, box_width as int),
{
    let line = clip_line(copy_line(l), box_width - 2);
    let lw = line.width();
    let pad = box_width.saturating_sub(lw.saturating_add(1));
    let ghost cs = runs(line.spans@);
    let ghost lm = line@;
    let first = Span::raw(text_of(" "));
    let last = Span::raw(repeat_string(' ', pad));
    let ghost f = first@;
    let ghost z = last@;
    let mut spans: Vec<Span> = Vec::new();
    spans.push(first);
    let mut content = line.spans;
    spans.append(&mut content);
    spans.push(last);
    assert(runs(spans@) =~= seq![f] + cs + seq![z]);
    assert(repeat(' ', pad as int) =~= spaces(pad as int));
    assert(pad as int == (if box_width - (line_width(lm) + 1) < 0 { 0 } else { box_width - (line_width(lm) + 1) }));
    let row = Line { spans, style: Style::new().bg(theme.code_background) };
    assert(row@.spans == plain_code_row(l@, *theme, box_width as int).spans);
    row
}

/// One code line in a window.
fn window_row(l: &Line, theme: &Theme, inner: usize) -> (r: Line)
    requires
        inner >= 10,
    ensures
        r@ == window_code_row(l@, *theme, inner as int),
{
    let border = Style::new().fg(theme.code_border).bg(theme.code_background);
    let line = clip_line(copy_line(l), inner - 2);
    let lw = line.width();
    let pad0 = inner.saturating_sub(lw.saturating_add(1));
    let pad = if pad0 < 1 {
        1
    } else {
        pad0
    };
    let ghost cs = runs(line.spans@);
    let ghost lm = line@;
    let s1 = Span::styled(text_of("\u{2502}"), border);
    let s2 = Span::raw(text_of(" "));
    let s3 = Span::raw(repeat_string(' ', pad));
    let s4 = Span::styled(text_of("\u{2502}"), border);
    let ghost (m1, m2, m3, m4) = (s1@, s2@, s3@, s4@);
    let mut spans: Vec<Span> = Vec::new();
    spans.push(s1);
    spans.push(s2);
    let mut content = line.spans;
    spans.append(&mut content);
    spans.push(s3);
    spans.push(s4);
    assert(runs(spans@) =~= seq![m1, m2] + cs + seq![m3, m4]);
    assert(repeat(' ', pad as int) =~= spaces(pad as int));
    assert(pad0 as int == (if inner - (line_width(lm) + 1) < 0 { 0 } else { inner - (line_width(lm) + 1) }));
    let row = Line { spans, style: Style::new().bg(theme.code_background) };
    assert(row@.spans == window_code_row(l@, *theme, inner as int).spans);
    row
}

/// The top edge of a code window.
fn window_top(theme: &Theme, box_width: usize) -> (r: Line)
    requires
        box_width >= 12,
    ensures
        r@ == line_of(
            seq![
                run("\u{256d}"@, border_style(*theme)),
                run(repeat('\u{2500}', box_width - 2), border_style(*theme)),
                run("\u{256e}"@, border_style(*theme)),
            ],
        ),
{
    let border = Style::new().fg(theme.code_border).bg(theme.code_background);
    let s1 = Span::styled(text_of("\u{256d}"), border);
    let s2 = Span::styled(repeat_string('\u{2500}', box_width - 2), border);
    let s3 = Span::styled(text_of("\u{256e}"), border);
    let ghost (m1, m2, m3) = (s1@, s2@, s3@);
    let mut top: Vec<Span> = Vec::new();
    top.push(s1);
    top.push(s2);
    top.push(s3);
    assert(runs(top@) =~= seq![m1, m2, m3]);
    Line::from_spans(top)
}

/// The bottom edge of a code window.
fn window_bottom_line(lang: Option<&str>, theme: &Theme, inner: usize) -> (r: Line)
    requires
        inner >= 10,
    ensures
        r@ == window_bottom(opt_str(lang), *theme, inner as int),
{
    let border = Style::new().fg(theme.code_border).bg(theme.code_background);
    let corner_l = Span::styled(text_of("\u{2570}"), border);
    let corner_r = Span::styled(text_of("\u{256f}"), border);
    let ghost (cl, cr) = (corner_l@, corner_r@);
    let mut middle: Vec<Span> = Vec::new();
    let mut labelled = false;
    match lang {
        Some(l) => {
            let lw = str_width(l);
            if inner >= 6 && lw <= inner - 6 {
                let a = Span::styled(repeat_string('\u{2500}', inner - lw - 4), border);
                let mut label: Vec<char> = Vec::new();
                append_str(&mut label, " ");
                append_str(&mut label, l);
                append_str(&mut label, " ");
                let b = Span::styled(string_of(label.as_slice()), border);
                let c = Span::styled(repeat_string('\u{2500}', 2), border);
                let ghost (ma, mb, mc) = (a@, b@, c@);
                middle.push(a);
                middle.push(b);
                middle.push(c);
                assert(runs(middle@) =~= seq![ma, mb, mc]);
                labelled = true;
            }
        },
        None => {},
    }
    if !labelled {
        let a = Span::styled(repeat_string('\u{2500}', inner), border);
        let ghost ma = a@;
        middle.push(a);
        assert(runs(middle@) =~= seq![ma]);
    }
    let ghost mm = runs(middle@);
    let mut bottom: Vec<Span> = Vec::new();
    bottom.push(corner_l);
    bottom.append(&mut middle);
    bottom.push(corner_r);
    assert(runs(bottom@) =~= seq![cl] + mm + seq![cr]);
    Line::from_spans(bottom)
}

#[verifier::rlimit(30)]
fn render_code(language: &Option<String>, code: &String, ctx: &RenderContext, width: usize, out: &mut Vec<Line>)
    ensures
        line_models(final(out)@) == line_models(old(out)@) + code_lines(
            opt_chars(*language),
            code@,
            *ctx.theme,
            width as int,
        ),
{
    let theme = ctx.theme;
    let lang: Option<&str> = match language {
        Some(l) => Some(l.as_str()),
        None => None,
    };
    assert(opt_str(lang) == opt_chars(*language));
    let hl = ctx.highlighter.highlight(code.as_str(), lang, theme.code_theme.as_str());
    let ghost hm = line_models(hl@);
    let content_width = widest(&hl);
    let ghost want = code_lines(opt_chars(*language), code@, *theme, width as int);
    let ghost base = line_models(out@);
    if theme.code_style == crate::markdown::metadata::CodeStyle::Plain {
        let b0 = if content_width.saturating_add(2) < width {
            content_width + 2
        } else {
            width
        };
        let box_width = if b0 < 4 {
            4
        } else {
            b0
        };
        let ghost rows = hm.map_values(|l: StyledLine| plain_code_row(l, *theme, box_width as int));
        let mut k: usize = 0;
        while k < hl.len()
            invariant
                k <= hl@.len(),
                hm == line_models(hl@),
                box_width >= 4,
                rows == hm.map_values(|l: StyledLine| plain_code_row(l, *theme, box_width as int)),
                line_models(out@) == base + rows.take(k as int),
            decreases hl@.len() - k,
        {
            let row = plain_row(&hl[k], theme, box_width);
            let ghost rm = row@;
            let ghost before = line_models(out@);
            out.push(row);
            assert(line_models(out@) =~= before.push(rm));
            k = k + 1;
            assert(rows.take(k as int) =~= rows.take(k - 1).push(rm));
        }
        assert(rows.take(hl@.len() as int) =~= rows);
        assert(want == rows);
        return;
    }
    let b0 = if content_width.saturating_add(4) < width {
        content_width + 4
    } else {
        width
    };
    let box_width = if b0 < 12 {
        12
    } else {
        b0
    };
    let inner = box_width - 2;
    let top_line = window_top(theme, box_width);
    let ghost tl = top_line@;
    out.push(top_line);
    assert(line_models(out@) =~= base + seq![tl]);
    let ghost rows = hm.map_values(|l: StyledLine| window_code_row(l, *theme, inner as int));
    let mut k: usize = 0;
    while k < hl.len()
        invariant
            k <= hl@.len(),
            hm == line_models(hl@),
            inner >= 10,
            rows == hm.map_values(|l: StyledLine| window_code_row(l, *theme, inner as int)),
            line_models(out@) == base + seq![tl] + rows.take(k as int),
        decreases hl@.len() - k,
    {
        let row = window_row(&hl[k], theme, inner);
        let ghost rm = row@;
        let ghost before = line_models(out@);
        out.push(row);
        assert(line_models(out@) =~= before.push(rm));
        k = k + 1;
        assert(rows.take(k as int) =~= rows.take(k - 1).push(rm));
    }
    assert(rows.take(hl@.len() as int) =~= rows);
    let bottom_line = window_bottom_line(lang, theme, inner);
    let ghost bm = bottom_line@;
    let ghost before = line_models(out@);
    out.push(bottom_line);
    assert(line_models(out@) =~= before.push(bm));
    assert(want =~= seq![tl] + rows + seq![bm]);
    assert(line_models(out@) =~= base + want);
}

/// A copy of a line.
pub fn copy_line(l: &Line) -> (r: Line)
    ensures
        r@ == l@,
{
    Line { spans: super::style::copy_spans(&l.spans), style: l.style }
}

// ---------------------------------------------------------------------
// Rendering context
/// The cell size a picture is drawn at.
#[derive(Debug, Clone, PartialEq, Eq)]
pub struct SizedImage {
    /// The picture's source, as written in the slide.
    pub source: String,
    pub cols: u16,
    pub rows: u16,
}

/// The size of the first entry for `source`, if any.
pub open spec fn size_of(sizes: Seq<SizedImage>, source: Seq<char>) -> Option<(u16, u16)>
    decreases sizes.len(),
{
    if sizes.len() == 0 {
        None
    } else if sizes[0].source@ == source {
        Some((sizes[0].cols, sizes[0].rows))
    } else {
        size_of(sizes.drop_first(), source)
    }
}

/// Everything needed to render slides.
pub struct RenderContext<'a> {
    pub theme: &'a Theme,
    pub highlighter: &'a Highlighter,
    /// The cell size of each picture that can be drawn. `None` (e.g. when
    /// the terminal supports no graphics) disables image layout entirely,
    /// and a picture with no size shows its placeholder.
    pub image_sizes: Option<&'a Vec<SizedImage>>,
}

// ---------------------------------------------------------------------
// Blocks
/// The bar color of a quote: plain quotes and tips in the quote color,
/// notes in the link color, important alerts in the heading color,
/// warnings in the accent color, and cautions in the terminal's red.
pub open spec fn quote_color(kind: Option<AlertKind>, t: Theme) -> Color {
    match kind {
        None => t.blockquote,
        Some(AlertKind::Note) => t.link,
        Some(AlertKind::Tip) => t.blockquote,
        Some(AlertKind::Important) => t.heading,
        Some(AlertKind::Warning) => t.accent,
        Some(AlertKind::Caution) => Color::LightRed,
    }
}

/// A line's spans made italic (in the default line style).
pub open spec fn italicized(l: StyledLine) -> StyledLine {
    line_of(patch_runs(l.spans, with_modifiers(default_style(), italic_only())))
}

/// The bar in front of a quote's lines.
pub open spec fn quote_bar(kind: Option<AlertKind>, t: Theme) -> StyledRun {
    run("| "@, Style { fg: Some(quote_color(kind, t)), ..default_style() })
}

/// The first line of an alert: the bar and the alert's label in bold;
/// plain quotes have none.
pub open spec fn quote_head(kind: Option<AlertKind>, t: Theme) -> Seq<StyledLine> {
    match kind {
        Some(k) => seq![
            line_of(
                seq![
                    quote_bar(kind, t),
                    run(
                        alert_label(k),
                        with_modifiers(Style { fg: Some(quote_color(kind, t)), ..default_style() }, bold_only()),
                    ),
                ],
            ),
        ],
        None => Seq::empty(),
    }
}

/// A quote: alerts open with a bold label line; every line of the body
/// (rendered two columns narrower) hangs behind a `| ` bar, and the
/// body of a plain quote is italic.
pub open spec fn quote_lines(kind: Option<AlertKind>, body: Seq<StyledLine>, t: Theme) -> Seq<StyledLine> {
    quote_head(kind, t) + body.map_values(
        |l: StyledLine| prefixed(
            quote_bar(kind, t),
            if kind is Some {
                l
            } else {
                italicized(l)
            },
        ),
    )
}

/// `w` less `d`, but at least one.
pub open spec fn narrower(w: int, d: int) -> int {
    if w - d < 1 {
        1
    } else {
        w - d
    }
}

/// How wide the numbers of an ordered list are: the digits of its last
/// number.
pub open spec fn number_width(ordered: bool, start: u64, count: int) -> int {
    if ordered {
        decimal((start + count - 1) as nat).len() as int
    } else {
        1
    }
}

/// The marker of item `i` of a list: a checkbox for task items, else the
/// item's number right-aligned to `nw` columns, else a dash.
pub open spec fn marker_text(ordered: bool, start: u64, nw: int, i: int, task: Option<bool>) -> Seq<char> {
    match task {
        Some(true) => "[x] "@,
        Some(false) => "[ ] "@,
        None => if ordered {
            let d = decimal((start + i) as nat);
            repeat(' ', nw - d.len()) + d + ". "@
        } else {
            "- "@
        },
    }
}

/// The marker's style: checked boxes in bold accent, open ones in dim
/// text, numbers and dashes in accent.
pub open spec fn marker_style(task: Option<bool>, t: Theme) -> Style {
    match task {
        Some(true) => with_modifiers(Style { fg: Some(t.accent), ..default_style() }, bold_only()),
        Some(false) => with_modifiers(Style { fg: Some(t.text), ..default_style() }, dim_only()),
        None => Style { fg: Some(t.accent), ..default_style() },
    }
}

/// Lines hanging behind a marker: the first line gets the marker, the
/// rest are indented as far.
pub open spec fn hanging(ls: Seq<StyledLine>, first: StyledRun, indent: int) -> Seq<StyledLine> {
    Seq::new(
        ls.len(),
        |j: int| prefixed(
            if j == 0 {
                first
            } else {
                run(spaces(indent), default_style())
            },
            ls[j],
        ),
    )
}

/// The separator after each block of a spaced run: one empty line.
pub open spec fn blank_line() -> StyledLine {
    line_of(Seq::empty())
}

/// The rule that opens a footnote section: dim, at most twelve columns.
pub open spec fn footnote_rule(t: Theme, width: int) -> StyledLine {
    styled_line(
        repeat(
            '\u{2500}',
            if width < 12 {
                width
            } else {
                12
            },
        ),
        Style { fg: Some(t.code_border), ..default_style() },
    )
}

/// The marker of footnote `n`: `[n] `.
pub open spec fn footnote_marker_text(n: usize) -> Seq<char> {
    "["@ + decimal(n as nat) + "] "@
}

/// One block's lines (a picture always shows its placeholder here).
pub open spec fn block_lines(b: Block, t: Theme, width: int) -> Seq<StyledLine>
    decreases b, 0int,
{
    match b {
        Block::Heading { level, content } => heading_lines(level, content@, t, width),
        Block::Paragraph(spans) => spec_wrap(spec_convert(spans@, t), width),
        Block::List(list) => items_lines(
            list.ordered,
            list.start,
            number_width(list.ordered, list.start, list.items@.len() as int),
            list.items@,
            t,
            width,
        ),
        Block::CodeBlock { language, code } => code_lines(opt_chars(language), code@, t, width),
        Block::BlockQuote { kind, blocks } => quote_lines(
            kind,
            trim_blank_lines(blocks_lines(blocks@, t, narrower(width, 2), true)),
            t,
        ),
        Block::Image { source, alt } => seq![placeholder_line(alt@, t)],
        Block::Table(tb) => table_lines(tb, t, width),
        Block::DefinitionList(items) => def_items_lines(items@, t, width),
        Block::Footnotes(notes) => seq![footnote_rule(t, width)] + footnote_lines(notes@, t, width),
        Block::Rule => seq![rule_line(t, width)],
    }
}

/// Blocks one after the other, each followed by an empty line when
/// `spaced`.
pub open spec fn blocks_lines(bs: Seq<Block>, t: Theme, width: int, spaced: bool) -> Seq<StyledLine>
    decreases bs,
{
    if bs.len() == 0 {
        Seq::empty()
    } else {
        blocks_lines(bs.drop_last(), t, width, spaced) + block_lines(bs[bs.len() - 1], t, width) + if spaced {
            seq![blank_line()]
        } else {
            Seq::<StyledLine>::empty()
        }
    }
}

/// List items: each item's blocks rendered tight at the width less its
/// marker, trailing blanks trimmed, hanging behind the marker.
pub open spec fn items_lines(
    ordered: bool,
    start: u64,
    nw: int,
    items: Seq<ListItem>,
    t: Theme,
    width: int,
) -> Seq<StyledLine>
    decreases items,
{
    if items.len() == 0 {
        Seq::empty()
    } else {
        let i = items.len() - 1;
        let item = items[i];
        let marker = marker_text(ordered, start, nw, i, item.task);
        let indent = marker.len() as int;
        let ls = trim_blank_lines(blocks_lines(item.blocks@, t, narrower(width, indent), false));
        items_lines(ordered, start, nw, items.drop_last(), t, width) + hanging(
            ls,
            run(marker, marker_style(item.task, t)),
            indent,
        )
    }
}

/// The definitions of one term, each rendered two columns narrower and
/// indented by two.
pub open spec fn defs_lines(defs: Seq<Vec<Block>>, t: Theme, width: int) -> Seq<StyledLine>
    decreases defs,
{
    if defs.len() == 0 {
        Seq::empty()
    } else {
        let ls = trim_blank_lines(blocks_lines(defs[defs.len() - 1]@, t, narrower(width, 2), true));
        defs_lines(defs.drop_last(), t, width) + ls.map_values(
            |l: StyledLine| prefixed(run("  "@, default_style()), l),
        )
    }
}

/// Definition lists: bold terms with their definitions indented below,
/// an empty line between items.
pub open spec fn def_items_lines(items: Seq<DefinitionItem>, t: Theme, width: int) -> Seq<StyledLine>
    decreases items,
{
    if items.len() == 0 {
        Seq::empty()
    } else {
        let item = items[items.len() - 1];
        let term = super::table::embolden(spec_convert(item.term@, t));
        def_items_lines(items.drop_last(), t, width) + (if items.len() > 1 {
            seq![blank_line()]
        } else {
            Seq::<StyledLine>::empty()
        }) + spec_wrap(term, width) + defs_lines(item.definitions@, t, width)
    }
}

/// Footnotes: each note's blocks behind its accent `[n]` marker, later
/// lines indented as far as the marker is wide.
pub open spec fn footnote_lines(notes: Seq<Footnote>, t: Theme, width: int) -> Seq<StyledLine>
    decreases notes,
{
    if notes.len() == 0 {
        Seq::empty()
    } else {
        let note = notes[notes.len() - 1];
        let marker = footnote_marker_text(note.number);
        let indent = unicode_str_width(marker) as int;
        let ls = trim_blank_lines(blocks_lines(note.blocks@, t, narrower(width, indent), true));
        footnote_lines(notes.drop_last(), t, width) + hanging(
            ls,
            run(marker, Style { fg: Some(t.accent), ..default_style() }),
            indent,
        )
    }
}

/// The spans of `lines`, each behind `first` (the first line) or an
/// indent of `indent` spaces, appended to `out`.
fn push_hanging(lines: &Vec<Line>, first: &Span, indent: usize, out: &mut Vec<Line>)
    ensures
        line_models(final(out)@) == line_models(old(out)@) + hanging(line_models(lines@), first@, indent as int),
{
    let ghost lm = line_models(lines@);
    let ghost want = hanging(lm, first@, indent as int);
    let ghost base = line_models(out@);
    let mut j: usize = 0;
    while j < lines.len()
        invariant
            j <= lines@.len(),
            lm == line_models(lines@),
            want == hanging(lm, first@, indent as int),
            line_models(out@) == base + want.take(j as int),
        decreases lines@.len() - j,
    {
        let prefix = if j == 0 {
            first.copy()
        } else {
            let p = Span::raw(repeat_string(' ', indent));
            assert(repeat(' ', indent as int) =~= spaces(indent as int));
            p
        };
        let l = prefix_line(prefix, copy_line(&lines[j]));
        let ghost m = l@;
        let ghost before = line_models(out@);
        out.push(l);
        assert(line_models(out@) =~= before.push(m));
        j = j + 1;
        assert(want.take(j as int) =~= want.take(j - 1).push(m));
    }
    assert(want.take(lines@.len() as int) =~= want);
}

/// Render blocks, optionally separated by blank lines.
fn render_blocks(bs: &Vec<Block>, ctx: &RenderContext, width: usize, spaced: bool, out: &mut Vec<Line>)
    ensures
        line_models(final(out)@) == line_models(old(out)@) + blocks_lines(bs@, *ctx.theme, width as int, spaced),
    decreases bs@, 0int,
{
    let ghost base = line_models(out@);
    let mut i: usize = 0;
    assert(bs@.take(0) =~= Seq::<Block>::empty());
    assert(line_models(out@) =~= base + blocks_lines(bs@.take(0), *ctx.theme, width as int, spaced));
    while i < bs.len()
        invariant
            i <= bs@.len(),
            line_models(out@) == base + blocks_lines(bs@.take(i as int), *ctx.theme, width as int, spaced),
        decreases bs@.len() - i,
    {
        let ghost before = line_models(out@);
        assert(bs@.take(i + 1).drop_last() =~= bs@.take(i as int));
        assert(bs@.take(i + 1)[i as int] == bs@[i as int]);
        render_block(&bs[i], ctx, width, out);
        if spaced {
            let blank = Line::blank();
            let ghost bm = blank@;
            let ghost mid = line_models(out@);
            out.push(blank);
            assert(line_models(out@) =~= mid.push(bm));
        }
        i = i + 1;
        assert(line_models(out@) =~= base + blocks_lines(bs@.take(i as int), *ctx.theme, width as int, spaced));
    }
    assert(bs@.take(bs@.len() as int) =~= bs@);
}

/// Render one block.
fn render_block(b: &Block, ctx: &RenderContext, width: usize, out: &mut Vec<Line>)
    ensures
        line_models(final(out)@) == line_models(old(out)@) + block_lines(*b, *ctx.theme, width as int),
    decreases b,
{
    let theme = ctx.theme;
    match b {
        Block::Heading { level, content } => render_heading(*level, content, theme, width, out),
        Block::Paragraph(spans) => {
            let lines = wrap_spans(convert_inline(spans, theme), width);
            append_lines(out, lines);
        },
        Block::List(list) => render_list(list, ctx, width, out),
        Block::CodeBlock { language, code } => render_code(language, code, ctx, width, out),
        Block::BlockQuote { kind, blocks } => render_quote(*kind, blocks, ctx, width, out),
        Block::Image { source: _, alt } => {
            let ghost before = line_models(out@);
            render_placeholder(alt, theme, out);
            assert(line_models(out@) =~= before + seq![placeholder_line(alt@, *theme)]);
        },
        Block::Table(t) => render_table(t, theme, width, out),
        Block::DefinitionList(items) => render_definitions(items, ctx, width, out),
        Block::Footnotes(notes) => {
            let ghost before = line_models(out@);
            let rule_len = if width < 12 {
                width
            } else {
                12
            };
            let mut rule: Vec<char> = Vec::new();
            push_repeat(&mut rule, '\u{2500}', rule_len);
            assert(rule@ =~= repeat('\u{2500}', rule_len as int));
            let l = Line::styled(&rule, Style::new().fg(theme.code_border));
            let ghost lm = l@;
            out.push(l);
            assert(line_models(out@) =~= before.push(lm));
            render_footnotes(notes, ctx, width, out);
            assert(line_models(out@) =~= before + (seq![footnote_rule(*theme, width as int)] + footnote_lines(notes@, *theme, width as int)));
        },
        Block::Rule => {
            let ghost before = line_models(out@);
            render_rule(theme, width, out);
            assert(line_models(out@) =~= before + seq![rule_line(*theme, width as int)]);
        },
    }
}

/// Lists: markers right-aligned for ordered lists so item text stays in
/// one column across 9 -> 10; task items show their checkbox instead.
fn render_list(list: &ListBlock, ctx: &RenderContext, width: usize, out: &mut Vec<Line>)
    ensures
        line_models(final(out)@) == line_models(old(out)@) + items_lines(
            list.ordered,
            list.start,
            number_width(list.ordered, list.start, list.items@.len() as int),
            list.items@,
            *ctx.theme,
            width as int,
        ),
    decreases list.items@, 0int,
{
    let n = list.items.len();
    let ghost nw_spec = number_width(list.ordered, list.start, n as int);
    let ghost base = line_models(out@);
    if n == 0 {
        assert(line_models(out@) =~= base + Seq::<StyledLine>::empty());
        return;
    }
    let nw: usize = if list.ordered {
        let mut last: Vec<char> = Vec::new();
        push_decimal(&mut last, list.start as u128 + n as u128 - 1);
        assert(last@ =~= decimal((list.start + n - 1) as nat));
        last.len()
    } else {
        1
    };
    assert(nw as int == nw_spec);
    let theme = ctx.theme;
    let mut i: usize = 0;
    assert(list.items@.take(0) =~= Seq::<ListItem>::empty());
    assert(line_models(out@) =~= base + items_lines(list.ordered, list.start, nw_spec, list.items@.take(0), *theme, width as int));
    while i < n
        invariant
            i <= n == list.items@.len(),
            nw as int == nw_spec,
            theme == ctx.theme,
            line_models(out@) == base + items_lines(list.ordered, list.start, nw_spec, list.items@.take(i as int), *theme, width as int),
        decreases n - i,
    {
        let item = &list.items[i];
        let ghost items_i = list.items@.take(i + 1);
        assert(items_i.drop_last() =~= list.items@.take(i as int));
        assert(items_i[i as int] == list.items@[i as int]);
        let mut marker: Vec<char> = Vec::new();
        let mstyle = match item.task {
            Some(true) => {
                append_str(&mut marker, "[x] ");
                Style::new().fg(theme.accent).bold()
            },
            Some(false) => {
                append_str(&mut marker, "[ ] ");
                Style::new().fg(theme.text).dim()
            },
            None => {
                if list.ordered {
                    let mut d: Vec<char> = Vec::new();
                    push_decimal(&mut d, list.start as u128 + i as u128);
                    assert(d@ =~= decimal((list.start + i) as nat));
                    let pad = if d.len() < nw {
                        nw - d.len()
                    } else {
                        0
                    };
                    push_repeat(&mut marker, ' ', pad);
                    assert(repeat(' ', pad as int) =~= repeat(' ', nw - d@.len()));
                    super::super::text::extend_chars(&mut marker, &d);
                    append_str(&mut marker, ". ");
                } else {
                    append_str(&mut marker, "- ");
                }
                Style::new().fg(theme.accent)
            },
        };
        assert(marker@ =~= marker_text(list.ordered, list.start, nw_spec, i as int, item.task));
        assert(mstyle == marker_style(item.task, *theme));
        let indent = marker.len();
        let inner = if width > indent && width - indent >= 1 {
            width - indent
        } else {
            1
        };
        let mut item_lines: Vec<Line> = Vec::new();
        assert(decreases_to!(list.items@ => list.items@[i as int].blocks@));
        render_blocks(&item.blocks, ctx, inner, false, &mut item_lines);
        trim_trailing_blanks(&mut item_lines);
        let first = Span::styled(string_of(marker.as_slice()), mstyle);
        push_hanging(&item_lines, &first, indent, out);
        i = i + 1;
        assert(line_models(out@) =~= base + items_lines(list.ordered, list.start, nw_spec, list.items@.take(i as int), *theme, width as int));
    }
    assert(list.items@.take(n as int) =~= list.items@);
}

/// Plain quotes: italic behind a `| ` bar. GFM alerts get a colored bar
/// and a bold label line instead, and their body stays upright.
fn render_quote(kind: Option<AlertKind>, inner: &Vec<Block>, ctx: &RenderContext, width: usize, out: &mut Vec<Line>)
    ensures
        line_models(final(out)@) == line_models(old(out)@) + quote_lines(
            kind,
            trim_blank_lines(blocks_lines(inner@, *ctx.theme, narrower(width as int, 2), true)),
            *ctx.theme,
        ),
    decreases inner@, 1int,
{
    let theme = ctx.theme;
    let color = match kind {
        None => theme.blockquote,
        Some(AlertKind::Note) => theme.link,
        Some(AlertKind::Tip) => theme.blockquote,
        Some(AlertKind::Important) => theme.heading,
        Some(AlertKind::Warning) => theme.accent,
        Some(AlertKind::Caution) => Color::LightRed,
    };
    let bar = Span::styled(text_of("| "), Style::new().fg(color));
    assert(color == quote_color(kind, *theme));
    let ghost spec_bar = quote_bar(kind, *theme);
    assert(bar@ == spec_bar);
    let ghost head = quote_head(kind, *theme);
    let ghost base = line_models(out@);
    match kind {
        Some(k) => {
            let label = Span::styled(text_of(k.label()), Style::new().fg(color).bold());
            let mut spans: Vec<Span> = Vec::new();
            let ghost (bm, lm) = (bar@, label@);
            spans.push(bar.copy());
            spans.push(label);
            assert(runs(spans@) =~= seq![bm, lm]);
            let l = Line::from_spans(spans);
            let ghost m = l@;
            out.push(l);
            assert(line_models(out@) =~= base.push(m));
            assert(lm == run(alert_label(k), with_modifiers(Style { fg: Some(quote_color(kind, *theme)), ..default_style() }, bold_only())));
            assert(m == line_of(seq![spec_bar, lm]));
            assert(head == quote_head(Some(k), *theme));
            assert(head.len() == 1);
            assert(head[0].spans[0] == spec_bar);
            assert(head[0].spans[1] == lm);
            assert(head[0].spans =~= seq![spec_bar, lm]);
            assert(head =~= seq![line_of(seq![spec_bar, lm])]);
            assert(line_models(out@) =~= base + head);
        },
        None => {
            assert(line_models(out@) =~= base + head);
        },
    }
    assert(line_models(out@) =~= base + head);
    let ghost head_done = line_models(out@);
    let inner_width = if width > 2 && width - 2 >= 1 {
        width - 2
    } else {
        1
    };
    let mut lines: Vec<Line> = Vec::new();
    render_blocks(inner, ctx, inner_width, true, &mut lines);
    assert(line_models(lines@) =~= Seq::<StyledLine>::empty() + blocks_lines(inner@, *theme, narrower(width as int, 2), true));
    trim_trailing_blanks(&mut lines);
    let ghost body = line_models(lines@);
    let ghost bar_m = bar@;
    let ghost want = body.map_values(
        |l: StyledLine| prefixed(bar_m, if kind is Some { l } else { italicized(l) }),
    );
    let mut j: usize = 0;
    while j < lines.len()
        invariant
            j <= lines@.len(),
            body == line_models(lines@),
            bar@ == bar_m,
            want == body.map_values(
                |l: StyledLine| prefixed(bar_m, if kind is Some { l } else { italicized(l) }),
            ),
            line_models(out@) == head_done + want.take(j as int),
        decreases lines@.len() - j,
    {
        let line = copy_line(&lines[j]);
        let styled = if kind.is_some() {
            line
        } else {
            let ghost lm = line@;
            let italic = Style::new().italic();
            let mut spans: Vec<Span> = Vec::new();
            let mut k: usize = 0;
            while k < line.spans.len()
                invariant
                    k <= line.spans@.len(),
                    lm == line@,
                    italic == with_modifiers(default_style(), italic_only()),
                    runs(spans@) == patch_runs(lm.spans, italic).take(k as int),
                decreases line.spans@.len() - k,
            {
                let s = Span::styled(line.spans[k].content.clone(), line.spans[k].style.patch(italic));
                let ghost before = runs(spans@);
                spans.push(s);
                assert(runs(spans@) =~= before.push(s@));
                k = k + 1;
                assert(patch_runs(lm.spans, italic).take(k as int) =~= before.push(s@));
            }
            assert(patch_runs(lm.spans, italic).take(line.spans@.len() as int) =~= patch_runs(lm.spans, italic));
            Line::from_spans(spans)
        };
        let l = prefix_line(bar.copy(), styled);
        let ghost m = l@;
        let ghost before = line_models(out@);
        out.push(l);
        assert(line_models(out@) =~= before.push(m));
        j = j + 1;
        assert(want.take(j as int) =~= want.take(j - 1).push(m));
    }
    assert(want.take(lines@.len() as int) =~= want);
    assert(quote_lines(kind, body, *theme) =~= head + want);
}

/// The definitions of one term, indented by two.
fn render_defs(defs: &Vec<Vec<Block>>, ctx: &RenderContext, width: usize, out: &mut Vec<Line>)
    ensures
        line_models(final(out)@) == line_models(old(out)@) + defs_lines(defs@, *ctx.theme, width as int),
    decreases defs@, 0int,
{
    let theme = ctx.theme;
    let ghost base = line_models(out@);
    let inner = if width > 2 && width - 2 >= 1 {
        width - 2
    } else {
        1
    };
    let mut k: usize = 0;
    assert(defs@.take(0) =~= Seq::<Vec<Block>>::empty());
    assert(line_models(out@) =~= base + defs_lines(defs@.take(0), *theme, width as int));
    while k < defs.len()
        invariant
            k <= defs@.len(),
            theme == ctx.theme,
            inner as int == narrower(width as int, 2),
            line_models(out@) == base + defs_lines(defs@.take(k as int), *theme, width as int),
        decreases defs@.len() - k,
    {
        assert(defs@.take(k + 1).drop_last() =~= defs@.take(k as int));
        assert(defs@.take(k + 1)[k as int] == defs@[k as int]);
        let mut lines: Vec<Line> = Vec::new();
        render_blocks(&defs[k], ctx, inner, true, &mut lines);
        assert(line_models(lines@) =~= Seq::<StyledLine>::empty() + blocks_lines(defs@[k as int]@, *theme, inner as int, true));
        trim_trailing_blanks(&mut lines);
        let ghost lm = line_models(lines@);
        let indent = Span::raw(text_of("  "));
        let ghost im = indent@;
        let ghost before = line_models(out@);
        let mut j: usize = 0;
        while j < lines.len()
            invariant
                j <= lines@.len(),
                lm == line_models(lines@),
                indent@ == im,
                im == run("  "@, default_style()),
                line_models(out@) == before + lm.map_values(|l: StyledLine| prefixed(im, l)).take(j as int),
            decreases lines@.len() - j,
        {
            let l = prefix_line(indent.copy(), copy_line(&lines[j]));
            let ghost m = l@;
            let ghost b2 = line_models(out@);
            out.push(l);
            assert(line_models(out@) =~= b2.push(m));
            j = j + 1;
            assert(lm.map_values(|l: StyledLine| prefixed(im, l)).take(j as int) =~= lm.map_values(|l: StyledLine| prefixed(im, l)).take(j - 1).push(m));
        }
        assert(lm.map_values(|l: StyledLine| prefixed(im, l)).take(lines@.len() as int) =~= lm.map_values(|l: StyledLine| prefixed(im, l)));
        k = k + 1;
        assert(line_models(out@) =~= base + defs_lines(defs@.take(k as int), *theme, width as int));
    }
    assert(defs@.take(defs@.len() as int) =~= defs@);
}

/// Definition lists: bold terms with their definitions indented below.
fn render_definitions(items: &Vec<DefinitionItem>, ctx: &RenderContext, width: usize, out: &mut Vec<Line>)
    ensures
        line_models(final(out)@) == line_models(old(out)@) + def_items_lines(items@, *ctx.theme, width as int),
    decreases items@, 0int,
{
    let theme = ctx.theme;
    let ghost base = line_models(out@);
    let mut i: usize = 0;
    assert(items@.take(0) =~= Seq::<DefinitionItem>::empty());
    assert(line_models(out@) =~= base + def_items_lines(items@.take(0), *theme, width as int));
    while i < items.len()
        invariant
            i <= items@.len(),
            theme == ctx.theme,
            line_models(out@) == base + def_items_lines(items@.take(i as int), *theme, width as int),
        decreases items@.len() - i,
    {
        assert(items@.take(i + 1).drop_last() =~= items@.take(i as int));
        assert(items@.take(i + 1)[i as int] == items@[i as int]);
        let item = &items[i];
        let ghost before = line_models(out@);
        if i > 0 {
            let blank = Line::blank();
            let ghost bm = blank@;
            out.push(blank);
            assert(line_models(out@) =~= before.push(bm));
        }
        let ghost after_blank = line_models(out@);
        let converted = convert_inline(&item.term, theme);
        let ghost cm = runs(converted@);
        let mut term: Vec<Span> = Vec::new();
        let mut k: usize = 0;
        while k < converted.len()
            invariant
                k <= converted@.len(),
                cm == runs(converted@),
                runs(term@) == super::table::embolden(cm).take(k as int),
            decreases converted@.len() - k,
        {
            let s = Span::styled(converted[k].content.clone(), converted[k].style.bold());
            let ghost b2 = runs(term@);
            term.push(s);
            assert(runs(term@) =~= b2.push(s@));
            k = k + 1;
            assert(super::table::embolden(cm).take(k as int) =~= b2.push(s@));
        }
        assert(super::table::embolden(cm).take(converted@.len() as int) =~= super::table::embolden(cm));
        let wrapped = wrap_spans(term, width);
        append_lines(out, wrapped);
        assert(decreases_to!(items@ => items@[i as int].definitions@));
        render_defs(&item.definitions, ctx, width, out);
        i = i + 1;
        assert(line_models(out@) =~= base + def_items_lines(items@.take(i as int), *theme, width as int));
    }
    assert(items@.take(items@.len() as int) =~= items@);
}

/// Footnotes: each note behind its accent `[n]` marker.
fn render_footnotes(notes: &Vec<Footnote>, ctx: &RenderContext, width: usize, out: &mut Vec<Line>)
    ensures
        line_models(final(out)@) == line_models(old(out)@) + footnote_lines(notes@, *ctx.theme, width as int),
    decreases notes@, 0int,
{
    let theme = ctx.theme;
    let ghost base = line_models(out@);
    let mut i: usize = 0;
    assert(notes@.take(0) =~= Seq::<Footnote>::empty());
    assert(line_models(out@) =~= base + footnote_lines(notes@.take(0), *theme, width as int));
    while i < notes.len()
        invariant
            i <= notes@.len(),
            theme == ctx.theme,
            line_models(out@) == base + footnote_lines(notes@.take(i as int), *theme, width as int),
        decreases notes@.len() - i,
    {
        assert(notes@.take(i + 1).drop_last() =~= notes@.take(i as int));
        assert(notes@.take(i + 1)[i as int] == notes@[i as int]);
        let note = &notes[i];
        let mut marker: Vec<char> = Vec::new();
        append_str(&mut marker, "[");
        push_decimal(&mut marker, note.number as u128);
        append_str(&mut marker, "] ");
        assert(marker@ =~= footnote_marker_text(note.number));
        let text = string_of(marker.as_slice());
        let indent = str_width(text.as_str());
        let inner = if width > indent && width - indent >= 1 {
            width - indent
        } else {
            1
        };
        let mut lines: Vec<Line> = Vec::new();
        render_blocks(&note.blocks, ctx, inner, true, &mut lines);
        assert(line_models(lines@) =~= Seq::<StyledLine>::empty() + blocks_lines(note.blocks@, *theme, inner as int, true));
        trim_trailing_blanks(&mut lines);
        let first = Span::styled(text, Style::new().fg(theme.accent));
        push_hanging(&lines, &first, indent, out);
        i = i + 1;
        assert(line_models(out@) =~= base + footnote_lines(notes@.take(i as int), *theme, width as int));
    }
    assert(notes@.take(notes@.len() as int) =~= notes@);
}

// ---------------------------------------------------------------------
// Columns and slides
/// Where a picture goes within rendered slide text: `height` blank lines
/// are reserved starting at line `line`, and the player draws the picture
/// over them at horizontal offset `x` (relative to the slide text area;
/// already centered within the picture's column).
#[derive(Debug, Clone, PartialEq, Eq)]
pub struct ImagePlacement {
    pub line: usize,
    pub source: String,
    pub x: u16,
    pub width: u16,
    pub height: u16,
}

/// The model of an [`ImagePlacement`].
pub struct Placement {
    pub line: int,
    pub source: Seq<char>,
    pub x: u16,
    pub width: u16,
    pub height: u16,
}

impl View for ImagePlacement {
    type V = Placement;

    open spec fn view(&self) -> Placement {
        Placement {
            line: self.line as int,
            source: self.source@,
            x: self.x,
            width: self.width,
            height: self.height,
        }
    }
}

/// The models of placements.
pub open spec fn placements(p: Seq<ImagePlacement>) -> Seq<Placement> {
    p.map_values(|x: ImagePlacement| x@)
}

/// A column's rendering so far: its lines and the pictures placed.
pub struct ColumnState {
    pub lines: Seq<StyledLine>,
    pub images: Seq<Placement>,
}

/// `n` empty lines.
pub open spec fn blank_lines(n: int) -> Seq<StyledLine> {
    Seq::new(if n < 0 { 0 } else { n as nat }, |i: int| blank_line())
}

/// One top-level block of a column, followed by an empty line. A picture
/// with a known size of at least one row reserves that many blank lines
/// and is placed centered, at most as wide as the column; any other
/// picture shows its placeholder.
pub open spec fn top_block(st: ColumnState, b: Block, t: Theme, sizes: Option<Seq<SizedImage>>, width: int) -> ColumnState {
    let sz = block_size(b, sizes);
    if sz is Some && (sz->0).1 > 0 {
        let (cols, rows) = sz->0;
        let w16 = width as u16;
        let c0 = if cols < w16 {
            cols
        } else {
            w16
        };
        let c = if c0 < 1 {
            1u16
        } else {
            c0
        };
        ColumnState {
            lines: st.lines + blank_lines(rows as int) + seq![blank_line()],
            images: st.images.push(
                Placement {
                    line: st.lines.len() as int,
                    source: (b->Image_source)@,
                    x: (((w16 - c) % 0x10000) / 2) as u16,
                    width: c,
                    height: rows,
                },
            ),
        }
    } else {
        ColumnState { lines: st.lines + block_lines(b, t, width) + seq![blank_line()], ..st }
    }
}

/// The size a top-level picture block is drawn at, if it is one and has
/// a size.
pub open spec fn block_size(b: Block, sizes: Option<Seq<SizedImage>>) -> Option<(u16, u16)> {
    match b {
        Block::Image { source, alt } => match sizes {
            Some(sz) => size_of(sz, source@),
            None => None,
        },
        _ => None,
    }
}

/// Top-level blocks one after the other.
pub open spec fn top_blocks(bs: Seq<Block>, t: Theme, sizes: Option<Seq<SizedImage>>, width: int) -> ColumnState
    decreases bs.len(),
{
    if bs.len() == 0 {
        ColumnState { lines: Seq::empty(), images: Seq::empty() }
    } else {
        top_block(top_blocks(bs.drop_last(), t, sizes, width), bs.last(), t, sizes, width)
    }
}

/// The rows pictures reserve: up to the end of the lowest one.
pub open spec fn reserved_rows(p: Seq<Placement>) -> int
    decreases p.len(),
{
    if p.len() == 0 {
        0
    } else {
        let m = reserved_rows(p.drop_last());
        let e = p.last().line + p.last().height;
        if e > m {
            e
        } else {
            m
        }
    }
}

/// Trailing empty lines dropped, but never below `keep` lines.
pub open spec fn trim_blank_above(ls: Seq<StyledLine>, keep: int) -> Seq<StyledLine>
    decreases ls.len(),
{
    if ls.len() > keep && ls.len() > 0 && line_width(ls.last()) == 0 {
        trim_blank_above(ls.drop_last(), keep)
    } else {
        ls
    }
}

/// One column rendered at `width`: its lines (trailing blanks trimmed,
/// picture rows kept) and picture placements.
pub open spec fn column_render(bs: Seq<Block>, t: Theme, sizes: Option<Seq<SizedImage>>, width: int) -> ColumnState {
    let st = top_blocks(bs, t, sizes, width);
    ColumnState { lines: trim_blank_above(st.lines, reserved_rows(st.images)), images: st.images }
}

/// The rows of `ls` with visible content, in order.
pub open spec fn non_blank(ls: Seq<StyledLine>) -> Seq<int>
    decreases ls.len(),
{
    if ls.len() == 0 {
        Seq::empty()
    } else if line_width(ls.last()) > 0 {
        non_blank(ls.drop_last()).push(ls.len() - 1)
    } else {
        non_blank(ls.drop_last())
    }
}

/// Rows where a column has visible content.
pub fn non_blank_rows(lines: &Vec<Line>) -> (r: Vec<usize>)
    ensures
        r@.map_values(|i: usize| i as int) == non_blank(line_models(lines@)),
{
    let ghost lm = line_models(lines@);
    let mut out: Vec<usize> = Vec::new();
    let mut i: usize = 0;
    while i < lines.len()
        invariant
            i <= lines@.len(),
            lm == line_models(lines@),
            out@.map_values(|i: usize| i as int) == non_blank(lm.take(i as int)),
        decreases lines@.len() - i,
    {
        assert(lm.take(i + 1).drop_last() =~= lm.take(i as int));
        let ghost before = out@.map_values(|i: usize| i as int);
        if lines[i].width() > 0 {
            out.push(i);
            assert(out@.map_values(|i: usize| i as int) =~= before.push(i as int));
        }
        i = i + 1;
    }
    assert(lm.take(lines@.len() as int) =~= lm);
    out
}

/// The size recorded for `source`, if any.
fn lookup_size(sizes: &Vec<SizedImage>, source: &String) -> (r: Option<(u16, u16)>)
    ensures
        r == size_of(sizes@, source@),
{
    let mut k: usize = 0;
    assert(sizes@.skip(0) =~= sizes@);
    while k < sizes.len()
        invariant
            k <= sizes@.len(),
            size_of(sizes@, source@) == size_of(sizes@.skip(k as int), source@),
        decreases sizes@.len() - k,
    {
        assert(sizes@.skip(k as int)[0] == sizes@[k as int]);
        assert(sizes@.skip(k as int).drop_first() =~= sizes@.skip(k + 1));
        if str_eq(sizes[k].source.as_str(), source.as_str()) {
            return Some((sizes[k].cols, sizes[k].rows));
        }
        k = k + 1;
    }
    None
}

/// The model of the optional sizes.
pub open spec fn sizes_model(s: Option<&Vec<SizedImage>>) -> Option<Seq<SizedImage>> {
    match s {
        Some(v) => Some(v@),
        None => None,
    }
}

/// Render one column of blocks at `width`: its lines (trailing blanks
/// trimmed, picture rows kept) and picture placements.
pub fn render_column(blocks: &Vec<Block>, ctx: &RenderContext, width: usize) -> (r: (Vec<Line>, Vec<ImagePlacement>))
    ensures
        line_models(r.0@) == column_render(blocks@, *ctx.theme, sizes_model(ctx.image_sizes), width as int).lines,
        placements(r.1@) == column_render(blocks@, *ctx.theme, sizes_model(ctx.image_sizes), width as int).images,
{
    let ghost sizes = sizes_model(ctx.image_sizes);
    let mut lines: Vec<Line> = Vec::new();
    let mut images: Vec<ImagePlacement> = Vec::new();
    let mut i: usize = 0;
    assert(blocks@.take(0) =~= Seq::<Block>::empty());
    assert(line_models(lines@) =~= Seq::<StyledLine>::empty());
    assert(placements(images@) =~= Seq::<Placement>::empty());
    while i < blocks.len()
        invariant
            i <= blocks@.len(),
            sizes == sizes_model(ctx.image_sizes),
            forall|j: int| 0 <= j < images@.len() ==> #[trigger] images@[j].line + images@[j].height <= lines@.len(),
            (ColumnState { lines: line_models(lines@), images: placements(images@) }) == top_blocks(
                blocks@.take(i as int),
                *ctx.theme,
                sizes,
                width as int,
            ),
        decreases blocks@.len() - i,
    {
        assert(blocks@.take(i + 1).drop_last() =~= blocks@.take(i as int));
        assert(blocks@.take(i + 1).last() == blocks@[i as int]);
        let ghost st = ColumnState { lines: line_models(lines@), images: placements(images@) };
        let ghost want = top_block(st, blocks@[i as int], *ctx.theme, sizes, width as int);
        let block = &blocks[i];
        let size: Option<(u16, u16)> = match block {
            Block::Image { source, alt: _ } => match ctx.image_sizes {
                Some(sz) => lookup_size(sz, source),
                None => None,
            },
            _ => None,
        };
        assert(size == block_size(blocks@[i as int], sizes));
        let (cols, rows) = match size {
            Some(cr) => cr,
            None => (0u16, 0u16),
        };
        if size.is_some() && rows > 0 {
            let source = match block {
                Block::Image { source, alt: _ } => source.clone(),
                _ => String::new(),
            };
            let w16 = width as u16;
            let c0 = if cols < w16 {
                cols
            } else {
                w16
            };
            let c = if c0 < 1 {
                1u16
            } else {
                c0
            };
            let p = ImagePlacement {
                line: lines.len(),
                source,
                x: w16.wrapping_sub(c) / 2,
                width: c,
                height: rows,
            };
            let ghost pm = p@;
            let ghost ib = placements(images@);
            images.push(p);
            assert(placements(images@) =~= ib.push(pm));
            let ghost lb = line_models(lines@);
            let mut k: u16 = 0;
            assert(line_models(lines@) =~= lb + blank_lines(0));
            while k < rows
                invariant
                    k <= rows,
                    line_models(lines@) == lb + blank_lines(k as int),
                    lines@.len() == lb.len() + k,
                decreases rows - k,
            {
                let blank = Line::blank();
                let ghost bm = blank@;
                let ghost lk = line_models(lines@);
                lines.push(blank);
                assert(line_models(lines@) =~= lk.push(bm));
                k = k + 1;
                assert(line_models(lines@) =~= lb + blank_lines(k as int));
            }
            let blank = Line::blank();
            let ghost bm = blank@;
            let ghost lb2 = line_models(lines@);
            lines.push(blank);
            assert(line_models(lines@) =~= lb2.push(bm));
            assert(line_models(lines@) =~= lb + blank_lines(rows as int) + seq![blank_line()]);
        } else {
            let ghost lb = line_models(lines@);
            render_block(block, ctx, width, &mut lines);
            let blank = Line::blank();
            let ghost bm = blank@;
            let ghost lb2 = line_models(lines@);
            lines.push(blank);
            assert(line_models(lines@) =~= lb2.push(bm));
            assert(line_models(lines@) =~= lb + block_lines(blocks@[i as int], *ctx.theme, width as int) + seq![blank_line()]);
        }
        assert((ColumnState { lines: line_models(lines@), images: placements(images@) }) == want);
        i = i + 1;
    }
    assert(blocks@.take(blocks@.len() as int) =~= blocks@);
    let ghost pm = placements(images@);
    let mut reserved: usize = 0;
    let mut k: usize = 0;
    while k < images.len()
        invariant
            k <= images@.len(),
            pm == placements(images@),
            forall|j: int| 0 <= j < images@.len() ==> #[trigger] images@[j].line + images@[j].height <= lines@.len(),
            reserved as int == reserved_rows(pm.take(k as int)),
        decreases images@.len() - k,
    {
        assert(pm.take(k + 1).drop_last() =~= pm.take(k as int));
        assert(images@[k as int].line + images@[k as int].height <= lines@.len());
        assert(lines@.len() == lines.len());
        let e = images[k].line + images[k].height as usize;
        if e > reserved {
            reserved = e;
        }
        k = k + 1;
    }
    assert(pm.take(images@.len() as int) =~= pm);
    let ghost before_trim = line_models(lines@);
    while lines.len() > reserved && lines[lines.len() - 1].width() == 0
        invariant
            trim_blank_above(line_models(lines@), reserved as int) == trim_blank_above(before_trim, reserved as int),
        decreases lines@.len(),
    {
        let ghost b = line_models(lines@);
        lines.pop();
        assert(line_models(lines@) =~= b.drop_last());
    }
    (lines, images)
}

/// One column's placement within rendered slide text: its horizontal
/// extent and the rows where it has visible content (the domain of the
/// speaker's line highlight). Single-column slides have exactly one span
/// covering the full width.
#[derive(Debug, Clone, PartialEq, Eq)]
pub struct ColumnSpan {
    /// Left edge in cells, relative to the slide text area.
    pub x: usize,
    pub width: usize,
    pub non_blank: Vec<usize>,
}

/// The model of a [`ColumnSpan`].
pub struct ColumnModel {
    pub x: int,
    pub width: int,
    pub non_blank: Seq<int>,
}

impl View for ColumnSpan {
    type V = ColumnModel;

    open spec fn view(&self) -> ColumnModel {
        ColumnModel {
            x: self.x as int,
            width: self.width as int,
            non_blank: self.non_blank@.map_values(|i: usize| i as int),
        }
    }
}

/// A rendered slide: styled text plus the picture areas reserved in it
/// and the column geometry the player's highlight cursor navigates.
#[derive(Debug, Clone)]
pub struct RenderedSlide {
    pub text: Vec<Line>,
    pub images: Vec<ImagePlacement>,
    pub columns: Vec<ColumnSpan>,
}

/// The model of a [`RenderedSlide`].
pub struct SlideModel {
    pub text: Seq<StyledLine>,
    pub images: Seq<Placement>,
    pub columns: Seq<ColumnModel>,
}

impl View for RenderedSlide {
    type V = SlideModel;

    open spec fn view(&self) -> SlideModel {
        SlideModel {
            text: line_models(self.text@),
            images: placements(self.images@),
            columns: self.columns@.map_values(|c: ColumnSpan| c@),
        }
    }
}

/// The gap between columns of a multi-column slide, in cells.
pub const COLUMN_GUTTER: usize = 3;

/// The width a slide renders at: at least ten columns.
pub open spec fn slide_width(width: int) -> int {
    if width < 10 {
        10
    } else {
        width
    }
}

/// How many columns a slide has (at least one).
pub open spec fn column_count(s: Slide) -> int {
    if s.columns@.len() < 1 {
        1
    } else {
        s.columns@.len() as int
    }
}

/// The width left for `n` columns once the gutters are taken.
pub open spec fn usable_width(width: int, n: int) -> int {
    let g = capped(3 * (n - 1)) as int;
    if width > g {
        width - g
    } else {
        0
    }
}

/// The width of every column but the last: an equal share, at least one.
pub open spec fn base_width(width: int, n: int) -> int {
    let b = usable_width(width, n) / n;
    if b < 1 {
        1
    } else {
        b
    }
}

/// The last column's width: what the others leave, at least one.
pub open spec fn last_width(width: int, n: int) -> int {
    let u = usable_width(width, n);
    let taken = capped(base_width(width, n) * (n - 1)) as int;
    let l = if u > taken {
        u - taken
    } else {
        0
    };
    if l < 1 {
        1
    } else {
        l
    }
}

/// The width of column `i` of `n`.
pub open spec fn col_width(width: int, n: int, i: int) -> int {
    if i == n - 1 {
        last_width(width, n)
    } else {
        base_width(width, n)
    }
}

/// The left edge of column `i`: the widths and gutters before it.
pub open spec fn col_x(width: int, n: int, i: int) -> int
    decreases i,
{
    if i <= 0 {
        0
    } else {
        capped(col_x(width, n, i - 1) + col_width(width, n, i - 1) + 3) as int
    }
}

/// Column `i` of a multi-column slide, rendered at its width.
pub open spec fn col_render(s: Slide, t: Theme, sizes: Option<Seq<SizedImage>>, width: int, i: int) -> ColumnState {
    column_render(s.columns@[i]@, t, sizes, col_width(width, column_count(s), i))
}

/// Placements moved right by `dx` cells (in 16-bit cells).
pub open spec fn shifted(p: Seq<Placement>, dx: int) -> Seq<Placement> {
    p.map_values(|q: Placement| Placement { x: vstd::wrapping::u16_specs::wrapping_add(q.x, dx as u16), ..q })
}

/// The pictures of the first `k` columns, each column's moved to its edge.
pub open spec fn slide_images(s: Slide, t: Theme, sizes: Option<Seq<SizedImage>>, width: int, k: int) -> Seq<Placement>
    decreases k,
{
    if k <= 0 {
        Seq::empty()
    } else {
        slide_images(s, t, sizes, width, k - 1) + shifted(
            col_render(s, t, sizes, width, k - 1).images,
            col_x(width, column_count(s), k - 1),
        )
    }
}

/// The most lines any of the first `k` columns has.
pub open spec fn max_rows(s: Slide, t: Theme, sizes: Option<Seq<SizedImage>>, width: int, k: int) -> int
    decreases k,
{
    if k <= 0 {
        0
    } else {
        let m = max_rows(s, t, sizes, width, k - 1);
        let l = col_render(s, t, sizes, width, k - 1).lines.len() as int;
        if l > m {
            l
        } else {
            m
        }
    }
}

/// A line's spans with the line's own style pushed down into each.
pub open spec fn pushed_down(l: StyledLine) -> Seq<StyledRun> {
    l.spans.map_values(|r: StyledRun| run(r.text, patched(l.style, r.style)))
}

/// Column `i`'s part of joined row `row`: a gutter before every column
/// but the first, the column's line (if it has one) with its style
/// pushed into its spans, and padding to the column's width before every
/// column but the last.
pub open spec fn row_part(s: Slide, t: Theme, sizes: Option<Seq<SizedImage>>, width: int, row: int, i: int) -> Seq<StyledRun> {
    let n = column_count(s);
    let ls = col_render(s, t, sizes, width, i).lines;
    let content = if row < ls.len() {
        pushed_down(ls[row])
    } else {
        Seq::empty()
    };
    let used = if row < ls.len() {
        line_width(ls[row]) as int
    } else {
        0
    };
    let pad = col_width(width, n, i) - used;
    (if i > 0 {
        seq![run(spaces(3), default_style())]
    } else {
        Seq::empty()
    }) + content + (if i < n - 1 && pad > 0 {
        seq![run(spaces(pad), default_style())]
    } else {
        Seq::empty()
    })
}

/// The first `k` columns' parts of joined row `row`.
pub open spec fn row_parts_upto(s: Slide, t: Theme, sizes: Option<Seq<SizedImage>>, width: int, row: int, k: int) -> Seq<StyledRun>
    decreases k,
{
    if k <= 0 {
        Seq::empty()
    } else {
        row_parts_upto(s, t, sizes, width, row, k - 1) + row_part(s, t, sizes, width, row, k - 1)
    }
}

/// Trailing unstyled blank spans dropped (styled blanks, like a code
/// panel's padding, stay).
pub open spec fn drop_blank_tail(rs: Seq<StyledRun>) -> Seq<StyledRun>
    decreases rs.len(),
{
    if rs.len() > 0 && all_ws(rs.last().text) && rs.last().style == default_style() {
        drop_blank_tail(rs.drop_last())
    } else {
        rs
    }
}

/// Row `row` of a multi-column slide.
pub open spec fn joined_row(s: Slide, t: Theme, sizes: Option<Seq<SizedImage>>, width: int, row: int) -> StyledLine {
    line_of(drop_blank_tail(row_parts_upto(s, t, sizes, width, row, column_count(s))))
}

/// A slide rendered at `width` (at least ten columns). A single column
/// fills the width. Multiple columns render independently at equal
/// widths (the last takes what is left) and are joined side by side,
/// top-aligned, with three-cell gutters; pictures move with their
/// column.
pub open spec fn slide_render(s: Slide, t: Theme, sizes: Option<Seq<SizedImage>>, width: int) -> SlideModel {
    let w = slide_width(width);
    let n = column_count(s);
    if n == 1 {
        let bs = if s.columns@.len() > 0 {
            s.columns@[0]@
        } else {
            Seq::empty()
        };
        let c = column_render(bs, t, sizes, w);
        SlideModel {
            text: c.lines,
            images: c.images,
            columns: seq![ColumnModel { x: 0, width: w, non_blank: non_blank(c.lines) }],
        }
    } else {
        SlideModel {
            text: Seq::new(max_rows(s, t, sizes, w, n) as nat, |row: int| joined_row(s, t, sizes, w, row)),
            images: slide_images(s, t, sizes, w, n),
            columns: Seq::new(
                n as nat,
                |i: int| ColumnModel {
                    x: col_x(w, n, i),
                    width: col_width(w, n, i),
                    non_blank: non_blank(col_render(s, t, sizes, w, i).lines),
                },
            ),
        }
    }
}

/// A single-column slide has exactly one column span, covering the full
/// width it renders at.
pub proof fn law_single_column_spans_the_slide(s: Slide, t: Theme, sizes: Option<Seq<SizedImage>>, width: int)
    requires
        column_count(s) == 1,
    ensures
        slide_render(s, t, sizes, width).columns.len() == 1,
        slide_render(s, t, sizes, width).columns[0].x == 0,
        slide_render(s, t, sizes, width).columns[0].width == slide_width(width),
{
}

/// Column `i` starts `i` shares and gutters in, while the slide is wide
/// enough for every column to get a cell.
proof fn lemma_col_x_even(width: int, n: int, i: int)
    requires
        n >= 1,
        0 <= i <= n - 1,
        4 * n - 3 <= width <= usize::MAX,
    ensures
        col_x(width, n, i) == i * (base_width(width, n) + 3),
    decreases i,
{
    let u = usable_width(width, n);
    let b = base_width(width, n);
    assert(u == width - 3 * (n - 1));
    assert(u >= n);
    assert(b == u / n) by (nonlinear_arith)
        requires
            u >= n >= 1,
            b == (if u / n < 1 { 1 } else { u / n }),
    ;
    if i > 0 {
        lemma_col_x_even(width, n, i - 1);
        assert(i * (b + 3) <= width) by (nonlinear_arith)
            requires
                1 <= i <= n - 1,
                b == u / n,
                u >= n,
                u == width - 3 * (n - 1),
        ;
        assert((i - 1) * (b + 3) + b + 3 == i * (b + 3)) by (nonlinear_arith);
        assert(col_width(width, n, i - 1) == b);
        assert(i * (b + 3) >= 0) by (nonlinear_arith)
            requires
                i >= 1,
                b >= 1,
        ;
        assert(col_x(width, n, i - 1) + col_width(width, n, i - 1) + 3 == i * (b + 3));
        assert(col_x(width, n, i) == capped(col_x(width, n, i - 1) + col_width(width, n, i - 1) + 3));
    } else {
        assert(0 * (b + 3) == 0);
    }
}

/// Columns share the slide width equally, separated by a three-cell
/// gutter: each starts where the one before it ends plus the gutter, all
/// but the last are equally wide, and the last ends at the slide's right
/// edge. This holds while the slide has room for a cell per column.
pub proof fn law_columns_share_the_width(s: Slide, t: Theme, sizes: Option<Seq<SizedImage>>, width: int)
    requires
        column_count(s) >= 2,
        4 * column_count(s) - 3 <= slide_width(width) <= usize::MAX,
    ensures
        ({
            let m = slide_render(s, t, sizes, width).columns;
            let n = column_count(s);
            &&& m.len() == n
            &&& m[0].x == 0
            &&& forall|i: int| 0 <= i < n - 1 ==> #[trigger] m[i + 1].x == m[i].x + m[i].width + 3
            &&& forall|i: int| 0 <= i < n - 1 ==> #[trigger] m[i].width == m[0].width
            &&& m[n - 1].x + m[n - 1].width == slide_width(width)
        }),
{
    let w = slide_width(width);
    let n = column_count(s);
    let m = slide_render(s, t, sizes, width).columns;
    let u = usable_width(w, n);
    let b = base_width(w, n);
    lemma_col_x_even(w, n, 0);
    assert forall|i: int| 0 <= i < n - 1 implies #[trigger] m[i + 1].x == m[i].x + m[i].width + 3 by {
        lemma_col_x_even(w, n, i);
        lemma_col_x_even(w, n, i + 1);
        assert((i + 1) * (b + 3) == i * (b + 3) + b + 3) by (nonlinear_arith);
    }
    lemma_col_x_even(w, n, n - 1);
    assert(b == u / n && u >= n) by {
        assert(u == w - 3 * (n - 1));
        assert(b == u / n) by (nonlinear_arith)
            requires
                u >= n >= 1,
                b == (if u / n < 1 { 1 } else { u / n }),
        ;
    }
    assert(b * (n - 1) <= u - b && b >= 1) by (nonlinear_arith)
        requires
            b == u / n,
            u >= n >= 2,
    ;
    assert(capped(b * (n - 1)) == b * (n - 1));
    assert(last_width(w, n) == u - b * (n - 1));
    assert((n - 1) * (b + 3) + (u - b * (n - 1)) == u + 3 * (n - 1)) by (nonlinear_arith);
}

/// `a * b`, capped at `usize::MAX`.
fn capped_mul(a: usize, b: usize) -> (r: usize)
    ensures
        r == capped(a * b),
{
    match a.checked_mul(b) {
        Some(v) => v,
        None => usize::MAX,
    }
}

/// Render a slide as text wrapped to `width` cells. Multi-column slides
/// render each column independently and join them side by side,
/// top-aligned, with equal widths. The caller places (and vertically
/// centers) the returned text and draws the pictures.
pub fn render_slide(slide: &Slide, ctx: &RenderContext, width: usize) -> (r: RenderedSlide)
    ensures
        r@ == slide_render(*slide, *ctx.theme, sizes_model(ctx.image_sizes), width as int),
{
    let ghost sizes = sizes_model(ctx.image_sizes);
    let ghost t = *ctx.theme;
    let width: usize = if width < 10 {
        10
    } else {
        width
    };
    let n: usize = if slide.columns.len() < 1 {
        1
    } else {
        slide.columns.len()
    };
    let ghost want = slide_render(*slide, t, sizes, width as int);
    if n == 1 {
        let empty: Vec<Block> = Vec::new();
        let blocks = if slide.columns.len() > 0 {
            &slide.columns[0]
        } else {
            &empty
        };
        let (lines, images) = render_column(blocks, ctx, width);
        let nb = non_blank_rows(&lines);
        let span = ColumnSpan { x: 0, width, non_blank: nb };
        let ghost sm = span@;
        let mut columns: Vec<ColumnSpan> = Vec::new();
        columns.push(span);
        assert(columns@.map_values(|c: ColumnSpan| c@) =~= seq![sm]);
        let r = RenderedSlide { text: lines, images, columns };
        assert(r@.columns =~~= want.columns);
        return r;
    }
    let gutters = capped_mul(COLUMN_GUTTER, n - 1);
    let usable = width.saturating_sub(gutters);
    let b0 = usable / n;
    let base = if b0 < 1 {
        1
    } else {
        b0
    };
    let taken = capped_mul(base, n - 1);
    let l0 = usable.saturating_sub(taken);
    let last = if l0 < 1 {
        1
    } else {
        l0
    };
    assert(base as int == base_width(width as int, n as int));
    assert(last as int == last_width(width as int, n as int));
    let mut rendered: Vec<Vec<Line>> = Vec::new();
    let mut images: Vec<ImagePlacement> = Vec::new();
    let mut columns: Vec<ColumnSpan> = Vec::new();
    let mut x_offset: usize = 0;
    let mut i: usize = 0;
    while i < n
        invariant
            i <= n == slide.columns@.len(),
            n >= 2,
            sizes == sizes_model(ctx.image_sizes),
            t == *ctx.theme,
            n as int == column_count(*slide),
            base as int == base_width(width as int, n as int),
            last as int == last_width(width as int, n as int),
            x_offset as int == col_x(width as int, n as int, i as int),
            rendered@.len() == i,
            forall|k: int| 0 <= k < i ==> line_models(#[trigger] rendered@[k]@) == col_render(*slide, t, sizes, width as int, k).lines,
            placements(images@) == slide_images(*slide, t, sizes, width as int, i as int),
            columns@.map_values(|c: ColumnSpan| c@) == Seq::new(
                i as nat,
                |k: int| ColumnModel {
                    x: col_x(width as int, n as int, k),
                    width: col_width(width as int, n as int, k),
                    non_blank: non_blank(col_render(*slide, t, sizes, width as int, k).lines),
                },
            ),
        decreases n - i,
    {
        let col_w = if i == n - 1 {
            last
        } else {
            base
        };
        assert(col_w as int == col_width(width as int, n as int, i as int));
        let (lines, placed) = render_column(&slide.columns[i], ctx, col_w);
        let ghost cr = col_render(*slide, t, sizes, width as int, i as int);
        assert(line_models(lines@) == cr.lines);
        let ghost img_before = placements(images@);
        let mut k: usize = 0;
        while k < placed.len()
            invariant
                k <= placed@.len(),
                placements(placed@) == cr.images,
                placements(images@) == img_before + shifted(cr.images, x_offset as int).take(k as int),
            decreases placed@.len() - k,
        {
            let p = &placed[k];
            let q = ImagePlacement {
                line: p.line,
                source: p.source.clone(),
                x: p.x.wrapping_add(x_offset as u16),
                width: p.width,
                height: p.height,
            };
            let ghost qm = q@;
            let ghost ib = placements(images@);
            images.push(q);
            assert(placements(images@) =~= ib.push(qm));
            assert(placements(placed@)[k as int] == placed@[k as int]@);
            k = k + 1;
            assert(shifted(cr.images, x_offset as int).take(k as int) =~= shifted(cr.images, x_offset as int).take(k - 1).push(qm));
        }
        assert(shifted(cr.images, x_offset as int).take(placed@.len() as int) =~= shifted(cr.images, x_offset as int));
        let nb = non_blank_rows(&lines);
        let span = ColumnSpan { x: x_offset, width: col_w, non_blank: nb };
        let ghost sm = span@;
        let ghost cb = columns@.map_values(|c: ColumnSpan| c@);
        columns.push(span);
        assert(columns@.map_values(|c: ColumnSpan| c@) =~= cb.push(sm));
        rendered.push(lines);
        x_offset = x_offset.saturating_add(col_w).saturating_add(COLUMN_GUTTER);
        i = i + 1;
        assert(columns@.map_values(|c: ColumnSpan| c@) =~~= Seq::new(
            i as nat,
            |k: int| ColumnModel {
                x: col_x(width as int, n as int, k),
                width: col_width(width as int, n as int, k),
                non_blank: non_blank(col_render(*slide, t, sizes, width as int, k).lines),
            },
        ));
    }
    let mut rows: usize = 0;
    let mut k: usize = 0;
    while k < n
        invariant
            k <= n == rendered@.len(),
            forall|j: int| 0 <= j < n ==> line_models(#[trigger] rendered@[j]@) == col_render(*slide, t, sizes, width as int, j).lines,
            rows as int == max_rows(*slide, t, sizes, width as int, k as int),
        decreases n - k,
    {
        assert(line_models(rendered@[k as int]@).len() == rendered@[k as int]@.len());
        if rendered[k].len() > rows {
            rows = rendered[k].len();
        }
        k = k + 1;
    }
    let mut joined: Vec<Line> = Vec::new();
    let mut row: usize = 0;
    while row < rows
        invariant
            row <= rows,
            rows as int == max_rows(*slide, t, sizes, width as int, n as int),
            n == rendered@.len(),
            n >= 2,
            n as int == column_count(*slide),
            base as int == base_width(width as int, n as int),
            last as int == last_width(width as int, n as int),
            forall|j: int| 0 <= j < n ==> line_models(#[trigger] rendered@[j]@) == col_render(*slide, t, sizes, width as int, j).lines,
            line_models(joined@) == Seq::new(row as nat, |r: int| joined_row(*slide, t, sizes, width as int, r)),
        decreases rows - row,
    {
        let mut spans: Vec<Span> = Vec::new();
        let mut i: usize = 0;
        while i < n
            invariant
                i <= n == rendered@.len(),
                n >= 2,
                n as int == column_count(*slide),
                base as int == base_width(width as int, n as int),
                last as int == last_width(width as int, n as int),
                forall|j: int| 0 <= j < n ==> line_models(#[trigger] rendered@[j]@) == col_render(*slide, t, sizes, width as int, j).lines,
                runs(spans@) == row_parts_upto(*slide, t, sizes, width as int, row as int, i as int),
            decreases n - i,
        {
            let ghost before = runs(spans@);
            let ghost ls = col_render(*slide, t, sizes, width as int, i as int).lines;
            assert(line_models(rendered@[i as int]@) == ls);
            if i > 0 {
                let g = Span::raw(repeat_string(' ', COLUMN_GUTTER));
                assert(repeat(' ', 3) =~= spaces(3));
                spans.push(g);
            }
            let ghost after_gutter = runs(spans@);
            let mut row_width: usize = 0;
            if row < rendered[i].len() {
                let line = &rendered[i][row];
                assert(ls[row as int] == line@);
                row_width = line.width();
                let base_style = line.style;
                let ghost pd = pushed_down(line@);
                let mut k: usize = 0;
                while k < line.spans.len()
                    invariant
                        k <= line.spans@.len(),
                        base_style == line.style,
                        pd == pushed_down(line@),
                        runs(spans@) == after_gutter + pd.take(k as int),
                    decreases line.spans@.len() - k,
                {
                    let s2 = Span::styled(line.spans[k].content.clone(), base_style.patch(line.spans[k].style));
                    let ghost sm = s2@;
                    let ghost sb = runs(spans@);
                    spans.push(s2);
                    assert(runs(spans@) =~= sb.push(sm));
                    k = k + 1;
                    assert(pd.take(k as int) =~= pd.take(k - 1).push(sm));
                }
                assert(pd.take(line.spans@.len() as int) =~= pd);
            } else {
                assert(runs(spans@) =~= after_gutter + Seq::<StyledRun>::empty());
            }
            let ghost after_content = runs(spans@);
            if i < n - 1 {
                let cw = if i == n - 1 {
                    last
                } else {
                    base
                };
                let pad = cw.saturating_sub(row_width);
                if pad > 0 {
                    let p = Span::raw(repeat_string(' ', pad));
                    assert(repeat(' ', pad as int) =~= spaces(pad as int));
                    let ghost pm = p@;
                    spans.push(p);
                    assert(runs(spans@) =~= after_content.push(pm));
                }
            }
            assert(runs(spans@) =~= before + row_part(*slide, t, sizes, width as int, row as int, i as int));
            i = i + 1;
        }
        let ghost full = runs(spans@);
        while spans.len() > 0 && is_blank(&chars_of(spans[spans.len() - 1].content.as_str())) && spans[spans.len() - 1].style == Style::new()
            invariant
                drop_blank_tail(runs(spans@)) == drop_blank_tail(full),
            decreases spans@.len(),
        {
            let ghost sb = runs(spans@);
            spans.pop();
            assert(runs(spans@) =~= sb.drop_last());
        }
        let line = Line::from_spans(spans);
        let ghost lm = line@;
        let ghost jb = line_models(joined@);
        joined.push(line);
        assert(line_models(joined@) =~= jb.push(lm));
        row = row + 1;
        assert(line_models(joined@) =~= Seq::new(row as nat, |r: int| joined_row(*slide, t, sizes, width as int, r)));
    }
    let r = RenderedSlide { text: joined, images, columns };
    assert(r@.text =~= want.text);
    assert(r@.columns =~~= want.columns);
    r
}

/// The tallest of the first `k` slides at `width` with no pictures drawn:
/// (rows, 1-based index), the first slide winning ties; (0, 0) for none.
pub open spec fn tallest_upto(slides: Seq<Slide>, t: Theme, width: int, k: int) -> (int, int)
    decreases k,
{
    if k <= 0 {
        (0, 0)
    } else {
        let best = tallest_upto(slides, t, width, k - 1);
        let h = slide_render(slides[k - 1], t, None, width).text.len() as int;
        if h > best.0 {
            (h, k)
        } else {
            best
        }
    }
}

/// The tallest slide when rendered `width` cells wide with no terminal
/// (each picture counts as its one-line placeholder): `(rows, index)`
/// with a 1-based slide index. `keynot check` reports this so an author
/// knows what to expect at show time.
pub fn tallest_slide(slides: &Vec<Slide>, theme: &Theme, highlighter: &Highlighter, width: usize) -> (r: (usize, usize))
    ensures
        (r.0 as int, r.1 as int) == tallest_upto(slides@, *theme, width as int, slides@.len() as int),
{
    let ctx = RenderContext { theme, highlighter, image_sizes: None };
    let mut best: (usize, usize) = (0, 0);
    let mut i: usize = 0;
    while i < slides.len()
        invariant
            i <= slides@.len(),
            ctx.theme == theme,
            ctx.image_sizes is None,
            (best.0 as int, best.1 as int) == tallest_upto(slides@, *theme, width as int, i as int),
        decreases slides@.len() - i,
    {
        let rendered = render_slide(&slides[i], &ctx, width);
        let h = rendered.text.len();
        assert(line_models(rendered.text@).len() == rendered.text@.len());
        if h > best.0 {
            best = (h, i + 1);
        }
        i = i + 1;
    }
    best
}

} // verus!
