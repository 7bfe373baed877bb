//! Screen layout for the player: where the slide, the footer, the
//! outline and the help box go, what they say, and how the speaker's line
//! highlight restyles a rendered row.
use vstd::prelude::*;

use crate::markdown::builder::push_decimal;
use crate::markdown::builder_spec::decimal;
use crate::markdown::metadata::{HighlightStyle, Metadata};
use crate::markdown::slide::{
    columns_model, first_heading_in_columns, first_paragraph_in_columns, opt_chars, Slide,
};
use crate::markdown::{presentation_title, slides_model, Presentation};
use crate::player::{Mode, Player};
use crate::render::slide::{ColumnSpan, copy_line, text_of};
use crate::render::style::{
    styled_line,
    default_style, dim_only, line_models, line_of, run, runs, with_modifiers, bold_only, Line,
    Span, Style, StyledLine, StyledRun,
};
use crate::render::wrap::{split_runs, split_spans_at, spaces};
use crate::text::{append_str, extend_chars, push_repeat, repeat, repeat_string, string_of};
use crate::theme::{Color, Theme};

verus! {

/// A rectangle of terminal cells.
#[derive(Debug, Clone, Copy, PartialEq, Eq, Structural)]
pub struct Area {
    pub x: u16,
    pub y: u16,
    pub width: u16,
    pub height: u16,
}

/// ratatui's `Rect::new`: the size is clamped so that the right and
/// bottom edges stay within 16-bit coordinates.
pub open spec fn spec_area(x: u16, y: u16, width: u16, height: u16) -> Area {
    Area {
        x,
        y,
        width: if width > 0xffff - x { (0xffff - x) as u16 } else { width },
        height: if height > 0xffff - y { (0xffff - y) as u16 } else { height },
    }
}

impl Area {
    /// A rectangle, clamped into 16-bit coordinates as ratatui clamps it.
    pub fn new(x: u16, y: u16, width: u16, height: u16) -> (r: Area)
        ensures
            r == spec_area(x, y, width, height),
            r.x + r.width <= 0xffff,
            r.y + r.height <= 0xffff,
    {
        let max_w = 0xffffu16 - x;
        let max_h = 0xffffu16 - y;
        Area {
            x,
            y,
            width: if width > max_w { max_w } else { width },
            height: if height > max_h { max_h } else { height },
        }
    }

    /// The row just below the rectangle.
    pub fn bottom(&self) -> (r: u16)
        ensures
            r == (if self.y + self.height > 0xffff { 0xffff } else { self.y + self.height }),
    {
        self.y.saturating_add(self.height)
    }
}

/// `x` clamped to `lo..=hi`.
pub open spec fn clamp(x: int, lo: int, hi: int) -> int {
    if x < lo {
        lo
    } else if x > hi {
        hi
    } else {
        x
    }
}

/// The layout of a frame: the slide content area and the footer row.
/// Frames under three rows or ten columns hold nothing but background.
/// The content is inset by a twelfth of the frame on each side (two to
/// twelve columns, one to three rows) and ends above the footer.
pub open spec fn spec_layout(a: Area) -> Option<(Area, Area)> {
    if a.height < 3 || a.width < 10 {
        None
    } else {
        let pad_x = clamp((a.width / 12) as int, 2, 12);
        let pad_y = clamp((a.height / 12) as int, 1, 3);
        Some(
            (
                spec_area(
                    (a.x + pad_x) as u16,
                    (a.y + pad_y) as u16,
                    (a.width - 2 * pad_x) as u16,
                    (a.height - 2 * pad_y - 1) as u16,
                ),
                spec_area(a.x, (a.y + a.height - 1) as u16, a.width, 1),
            ),
        )
    }
}

/// The content area lies inside the frame, above the footer, which is
/// the frame's last row at full width; it has room for text unless the
/// frame is only three rows tall.
pub proof fn law_layout_stays_in_the_frame(a: Area)
    requires
        a.x + a.width <= 0xffff,
        a.y + a.height <= 0xffff,
    ensures
        match spec_layout(a) {
            Some((c, f)) => {
                &&& a.x <= c.x && c.x + c.width <= a.x + a.width
                &&& a.y <= c.y && c.y + c.height <= f.y
                &&& c.width > 0
                &&& c.height > 0 <==> a.height > 3
                &&& f == Area { x: a.x, y: (a.y + a.height - 1) as u16, width: a.width, height: 1 }
            },
            None => a.height < 3 || a.width < 10,
        },
{
    if a.height >= 3 && a.width >= 10 {
        let pad_x = clamp((a.width / 12) as int, 2, 12);
        let pad_y = clamp((a.height / 12) as int, 1, 3);
        assert(2 * pad_x < a.width);
        assert(2 * pad_y + 1 <= a.height);
        assert(a.height > 3 ==> 2 * pad_y + 1 < a.height);
        assert((a.x + pad_x) as u16 == a.x + pad_x);
        assert((a.y + pad_y) as u16 == a.y + pad_y);
        assert((a.width - 2 * pad_x) as u16 == a.width - 2 * pad_x);
        assert((a.height - 2 * pad_y - 1) as u16 == a.height - 2 * pad_y - 1);
        assert((a.y + a.height - 1) as u16 == a.y + a.height - 1);
    }
}

/// Lay out a frame: the slide content area and the footer row.
pub fn layout(a: Area) -> (r: Option<(Area, Area)>)
    requires
        a.x + a.width <= 0xffff,
        a.y + a.height <= 0xffff,
    ensures
        r == spec_layout(a),
{
    if a.height < 3 || a.width < 10 {
        return None;
    }
    let pad_x = {
        let p = a.width / 12;
        if p < 2 {
            2
        } else if p > 12 {
            12
        } else {
            p
        }
    };
    let pad_y = {
        let p = a.height / 12;
        if p < 1 {
            1
        } else if p > 3 {
            3
        } else {
            p
        }
    };
    let content = Area::new(a.x + pad_x, a.y + pad_y, a.width - 2 * pad_x, a.height - 2 * pad_y - 1);
    let footer = Area::new(a.x, a.y + a.height - 1, a.width, 1);
    Some((content, footer))
}

/// Where a rendered slide of `rows` lines goes in the content area:
/// full width, as tall as it is (at most the area), centered vertically.
pub open spec fn spec_slide_area(content: Area, rows: usize) -> Area {
    let h = if (rows as u16) < content.height { rows as u16 } else { content.height };
    spec_area(content.x, (content.y + (content.height - h) / 2) as u16, content.width, h)
}

/// Place a rendered slide of `rows` lines in the content area.
pub fn slide_area(content: Area, rows: usize) -> (r: Area)
    requires
        content.y + content.height <= 0xffff,
    ensures
        r == spec_slide_area(content, rows),
{
    let r16 = rows as u16;
    let h = if r16 < content.height {
        r16
    } else {
        content.height
    };
    Area::new(content.x, content.y + (content.height - h) / 2, content.width, h)
}

/// The most cells a picture may take in a content area: its full width,
/// and its height less two rows (at least one).
pub open spec fn spec_picture_limit(content: Area) -> (u16, u16) {
    (content.width, if content.height > 3 { (content.height - 2) as u16 } else { 1 })
}

/// The bound pictures are fitted into when a slide is rendered for the
/// content area.
pub fn picture_limit(content: Area) -> (r: (u16, u16))
    ensures
        r == spec_picture_limit(content),
{
    let h = content.height.saturating_sub(2);
    (content.width, if h < 1 { 1 } else { h })
}

/// A drawn picture never leaves the slide area, and keeps at most its
/// placed size.
pub proof fn law_pictures_stay_on_the_slide(slide: Area, x: u16, line: usize, width: u16, height: u16)
    requires
        slide.x + slide.width <= 0xffff,
        slide.y + slide.height <= 0xffff,
        x <= slide.width,
        slide.y + line <= 0xffff,
    ensures
        match spec_picture_area(slide, x, line, width, height) {
            Some(p) => {
                &&& slide.x <= p.x && p.x + p.width <= slide.x + slide.width
                &&& slide.y <= p.y && p.y + p.height <= slide.y + slide.height
                &&& p.width <= width && p.height <= height
                &&& p.height > 0
            },
            None => true,
        },
{
    assert(line as u16 == line);
    assert(vstd::wrapping::u16_specs::wrapping_add(slide.y, line as u16) == slide.y + line);
    assert(vstd::wrapping::u16_specs::wrapping_add(slide.x, x) == slide.x + x);
}

/// Where a picture placed at (`x`, `line`) with the given size is drawn
/// in the slide area: clipped to the area's width and bottom, and not at
/// all when nothing of it shows.
pub open spec fn spec_picture_area(slide: Area, x: u16, line: usize, width: u16, height: u16) -> Option<Area> {
    let w = if width < (if slide.width > x { slide.width - x } else { 0 }) {
        width as int
    } else {
        if slide.width > x { slide.width - x } else { 0 }
    };
    let px = vstd::wrapping::u16_specs::wrapping_add(slide.x, x);
    let py = vstd::wrapping::u16_specs::wrapping_add(slide.y, line as u16);
    let bottom = if slide.y + slide.height > 0xffff { 0xffff } else { slide.y + slide.height };
    let room = if bottom > py { bottom - py } else { 0 };
    let h = if height < room { height as int } else { room };
    if h == 0 || py >= bottom {
        None
    } else {
        Some(spec_area(px, py, w as u16, h as u16))
    }
}

/// Where a placed picture is drawn, if any of it shows.
pub fn picture_area(slide: Area, x: u16, line: usize, width: u16, height: u16) -> (r: Option<Area>)
    ensures
        r == spec_picture_area(slide, x, line, width, height),
{
    let room_w = slide.width.saturating_sub(x);
    let w = if width < room_w {
        width
    } else {
        room_w
    };
    let px = slide.x.wrapping_add(x);
    let py = slide.y.wrapping_add(line as u16);
    let bottom = slide.bottom();
    let room = bottom.saturating_sub(py);
    let h = if height < room {
        height
    } else {
        room
    };
    if h == 0 || py >= bottom {
        None
    } else {
        Some(Area::new(px, py, w, h))
    }
}

// ---------------------------------------------------------------------
// The speaker's line highlight
/// Spans dimmed.
pub open spec fn dimmed(rs: Seq<StyledRun>) -> Seq<StyledRun> {
    rs.map_values(|r: StyledRun| run(r.text, with_modifiers(r.style, dim_only())))
}

/// The highlighted row under the dim style: the column's segment keeps
/// its brightness, the other columns' segments dim.
pub open spec fn dim_target(l: StyledLine, x: int, w: int) -> StyledLine {
    let s1 = split_runs(l.spans, x);
    let s2 = split_runs(s1.right, w);
    StyledLine { spans: dimmed(s1.left) + s2.left + dimmed(s2.right), style: l.style }
}

/// The highlighted row under the bar style: the column's segment is
/// repainted onto a bar exactly the column's width (bridged with spaces
/// when the row ends before the column starts), the bar's colors over
/// everything else of the spans' styles.
pub open spec fn bar_target(l: StyledLine, x: int, w: int, bar: Style) -> StyledLine {
    let s1 = split_runs(l.spans, x);
    let s2 = split_runs(s1.right, w);
    let lead = super::render::style::runs_width(s1.left) as int;
    let bridge = if lead < x {
        seq![run(spaces(x - lead), default_style())]
    } else {
        Seq::empty()
    };
    let mid = s2.left.map_values(|r: StyledRun| run(r.text, super::render::style::patched(super::render::style::patched(l.style, r.style), bar)));
    let bw = super::render::style::runs_width(s2.left) as int;
    let fill = if bw < w {
        seq![run(spaces(w - bw), bar)]
    } else {
        Seq::empty()
    };
    StyledLine { spans: s1.left + bridge + mid + fill + s2.right, style: l.style }
}

/// Rendered slide text with row `target` highlighted within a column
/// (`x` and `w` its extent): dim every other row and the rest of the
/// target row, or lay a bar of style `bar` under the column's segment.
pub open spec fn spec_style_highlight(
    ls: Seq<StyledLine>,
    style: HighlightStyle,
    x: int,
    w: int,
    target: int,
    bar: Style,
) -> Seq<StyledLine> {
    match style {
        HighlightStyle::Dim => Seq::new(
            ls.len(),
            |i: int| if i != target {
                StyledLine { style: with_modifiers(ls[i].style, dim_only()), ..ls[i] }
            } else {
                dim_target(ls[i], x, w)
            },
        ),
        HighlightStyle::Bar => ls.update(target, bar_target(ls[target], x, w, bar)),
    }
}

/// The bar's style: `fg` (the background's representative color) on the
/// accent.
pub open spec fn bar_style(t: Theme, fg: Color) -> Style {
    Style { fg: Some(fg), bg: Some(t.accent), ..default_style() }
}

fn dim_spans(v: Vec<Span>) -> (r: Vec<Span>)
    ensures
        runs(r@) == dimmed(runs(v@)),
{
    let ghost want = dimmed(runs(v@));
    let mut out: Vec<Span> = Vec::new();
    let mut i: usize = 0;
    while i < v.len()
        invariant
            i <= v@.len(),
            want == dimmed(runs(v@)),
            runs(out@) == want.take(i as int),
        decreases v@.len() - i,
    {
        let s = Span::styled(v[i].content.clone(), v[i].style.dim());
        let ghost sm = s@;
        let ghost ob = runs(out@);
        out.push(s);
        assert(runs(out@) =~= ob.push(sm));
        i = i + 1;
        assert(want.take(i as int) =~= ob.push(sm));
    }
    assert(want.take(v@.len() as int) =~= want);
    out
}

fn dim_row(line: &Line, x: usize, w: usize) -> (r: Line)
    ensures
        r@ == dim_target(line@, x as int, w as int),
{
    let (before, rest) = split_spans_at(super::render::style::copy_spans(&line.spans), x);
    let (mid, after) = split_spans_at(rest, w);
    let mut spans = dim_spans(before);
    let ghost a = runs(spans@);
    let mut m = mid;
    let ghost b = runs(m@);
    spans.append(&mut m);
    let mut c = dim_spans(after);
    let ghost cm = runs(c@);
    spans.append(&mut c);
    assert(runs(spans@) =~= a + b + cm);
    Line { spans, style: line.style }
}

fn bar_row(line: &Line, x: usize, w: usize, bar: Style) -> (r: Line)
    ensures
        r@ == bar_target(line@, x as int, w as int, bar),
{
    let base = line.style;
    let (before, rest) = split_spans_at(super::render::style::copy_spans(&line.spans), x);
    let (mid, after) = split_spans_at(rest, w);
    let ghost s1l = runs(before@);
    let ghost s2l = runs(mid@);
    let ghost s2r = runs(after@);
    let lead = super::render::style::measured_width(&before);
    let mut joined = before;
    if lead < x {
        let b = Span::raw(repeat_string(' ', x - lead));
        assert(repeat(' ', (x - lead) as int) =~= spaces(x - lead));
        let ghost bm = b@;
        joined.push(b);
        assert(runs(joined@) =~= s1l.push(bm));
    }
    let ghost after_bridge = runs(joined@);
    let ghost want_mid = s2l.map_values(|r: StyledRun| run(r.text, super::render::style::patched(super::render::style::patched(base, r.style), bar)));
    let bw = super::render::style::measured_width(&mid);
    let mut k: usize = 0;
    while k < mid.len()
        invariant
            k <= mid@.len(),
            s2l == runs(mid@),
            want_mid == s2l.map_values(|r: StyledRun| run(r.text, super::render::style::patched(super::render::style::patched(base, r.style), bar))),
            runs(joined@) == after_bridge + want_mid.take(k as int),
        decreases mid@.len() - k,
    {
        let s = Span::styled(mid[k].content.clone(), base.patch(mid[k].style).patch(bar));
        let ghost sm = s@;
        let ghost jb = runs(joined@);
        joined.push(s);
        assert(runs(joined@) =~= jb.push(sm));
        k = k + 1;
        assert(want_mid.take(k as int) =~= want_mid.take(k - 1).push(sm));
    }
    assert(want_mid.take(mid@.len() as int) =~= want_mid);
    let ghost after_mid = runs(joined@);
    if bw < w {
        let f = Span::styled(repeat_string(' ', w - bw), bar);
        assert(repeat(' ', (w - bw) as int) =~= spaces(w - bw));
        let ghost fm = f@;
        joined.push(f);
        assert(runs(joined@) =~= after_mid.push(fm));
    }
    let mut rest_spans = after;
    let ghost jb = runs(joined@);
    joined.append(&mut rest_spans);
    assert(runs(joined@) =~= jb + s2r);
    let r = Line { spans: joined, style: base };
    assert(r@.spans =~= bar_target(line@, x as int, w as int, bar).spans);
    r
}

/// Style row `target` of rendered slide text as the speaker's highlight
/// within `column` (per the `highlight:` setting): an accent bar behind
/// the column's segment of the row, or everything else dimmed. `bar_fg`
/// is the color the bar's text takes (the background's representative
/// color).
pub fn style_highlight(
    theme: &Theme,
    style: HighlightStyle,
    text: &mut Vec<Line>,
    column: &ColumnSpan,
    target: usize,
    bar_fg: Color,
)
    requires
        style == HighlightStyle::Bar ==> target < old(text)@.len(),
    ensures
        line_models(final(text)@) == spec_style_highlight(
            line_models(old(text)@),
            style,
            column.x as int,
            column.width as int,
            target as int,
            bar_style(*theme, bar_fg),
        ),
{
    let ghost before = line_models(text@);
    match style {
        HighlightStyle::Dim => {
            let ghost want = spec_style_highlight(before, style, column.x as int, column.width as int, target as int, bar_style(*theme, bar_fg));
            let mut i: usize = 0;
            while i < text.len()
                invariant
                    i <= text@.len() == before.len(),
                    want.len() == before.len(),
                    want == spec_style_highlight(before, HighlightStyle::Dim, column.x as int, column.width as int, target as int, bar_style(*theme, bar_fg)),
                    forall|j: int| 0 <= j < i ==> line_models(text@)[j] == want[j],
                    forall|j: int| i <= j < text@.len() ==> line_models(text@)[j] == before[j],
                decreases text@.len() - i,
            {
                let line = copy_line(&text[i]);
                assert(line@ == before[i as int]);
                let new_line = if i != target {
                    Line { spans: line.spans, style: line.style.dim() }
                } else {
                    dim_row(&line, column.x, column.width)
                };
                let ghost nm = new_line@;
                text.set(i, new_line);
                assert(line_models(text@)[i as int] == nm);
                i = i + 1;
            }
            assert(line_models(text@) =~= want);
        },
        HighlightStyle::Bar => {
            let bar = Style::new().fg(bar_fg).bg(theme.accent);
            let line = copy_line(&text[target]);
            assert(line@ == before[target as int]);
            let new_line = bar_row(&line, column.x, column.width, bar);
            let ghost nm = new_line@;
            text.set(target, new_line);
            assert(line_models(text@) =~= before.update(target as int, nm));
        },
    }
}

// ---------------------------------------------------------------------
// The outline
/// A slide's label in the outline: its title, else its first text, else
/// `(untitled)`.
pub open spec fn outline_label(s: Slide) -> Seq<char> {
    match first_heading_in_columns(s@.columns, 0) {
        Some(t) => t,
        None => match first_paragraph_in_columns(s@.columns, 0) {
            Some(t) => t,
            None => "(untitled)"@,
        },
    }
}

/// `n` right-aligned in `w` columns.
pub open spec fn right_aligned(n: nat, w: int) -> Seq<char> {
    repeat(' ', w - decimal(n).len()) + decimal(n)
}

/// The outline row of slide `i`: a `*` for the current slide, its
/// 1-based number right-aligned in three columns, and its label.
pub open spec fn outline_row(s: Slide, i: int, current: int) -> Seq<char> {
    (if i == current { "*"@ } else { " "@ }) + " "@ + right_aligned((i + 1) as nat, 3) + "  "@ + outline_label(s)
}

/// How many slide rows fit under the outline's heading.
pub open spec fn outline_visible(height: u16) -> int {
    if height as int - 2 < 1 {
        1
    } else {
        height as int - 2
    }
}

/// The first slide row shown: enough scrolled that the cursor is on
/// screen.
pub open spec fn outline_offset(selected: int, visible: int) -> int {
    if selected > visible - 1 {
        selected - (visible - 1)
    } else {
        0
    }
}

/// The outline: a bold heading with the slide count, an empty line, and
/// one row per slide in view, the cursor's row in the bar colors.
pub open spec fn spec_outline(
    slides: Seq<Slide>,
    current: int,
    selected: int,
    height: u16,
    t: Theme,
    bar_fg: Color,
) -> Seq<StyledLine> {
    let total = slides.len() as int;
    let visible = outline_visible(height);
    let offset = outline_offset(selected, visible);
    let end = if offset + visible < total { offset + visible } else { total };
    let n = if end > offset { end - offset } else { 0 };
    seq![
        styled_line("Outline ("@ + decimal(total as nat) + " slides)"@, with_modifiers(Style { fg: Some(t.heading), ..default_style() }, bold_only())),
        line_of(Seq::empty()),
    ] + Seq::new(
        n as nat,
        |k: int| styled_line(
            outline_row(slides[offset + k], offset + k, current),
            if offset + k == selected {
                with_modifiers(Style { fg: Some(bar_fg), bg: Some(t.accent), ..default_style() }, bold_only())
            } else {
                Style { fg: Some(t.text), ..default_style() }
            },
        ),
    )
}

/// Append `n` right-aligned in `w` columns.
fn push_right_aligned(out: &mut Vec<char>, n: u128, w: usize)
    ensures
        final(out)@ == old(out)@ + right_aligned(n as nat, w as int),
{
    let mut d: Vec<char> = Vec::new();
    push_decimal(&mut d, n);
    assert(d@ =~= decimal(n as nat));
    let pad = if d.len() < w {
        w - d.len()
    } else {
        0
    };
    let mut p: Vec<char> = Vec::new();
    crate::text::push_repeat(&mut p, ' ', pad);
    assert(p@ =~= repeat(' ', w - decimal(n as nat).len()));
    crate::text::extend_chars(out, &p);
    crate::text::extend_chars(out, &d);
    assert(final(out)@ =~= old(out)@ + right_aligned(n as nat, w as int));
}

/// The outline always shows the cursor: whatever the height, the
/// selected slide has a row, drawn in the bar colors.
pub proof fn law_outline_shows_the_selection(
    slides: Seq<Slide>,
    current: int,
    selected: int,
    height: u16,
    t: Theme,
    bar_fg: Color,
)
    requires
        0 <= selected < slides.len(),
    ensures
        ({
            let o = spec_outline(slides, current, selected, height, t, bar_fg);
            let row = 2 + selected - outline_offset(selected, outline_visible(height));
            &&& 2 <= row < o.len()
            &&& o[row] == styled_line(
                outline_row(slides[selected], selected, current),
                with_modifiers(Style { fg: Some(bar_fg), bg: Some(t.accent), ..default_style() }, bold_only()),
            )
        }),
{
}

/// The outline's lines for a content area `height` rows tall.
pub fn outline_lines(
    slides: &Vec<Slide>,
    current: usize,
    selected: usize,
    height: u16,
    theme: &Theme,
    bar_fg: Color,
) -> (r: Vec<Line>)
    ensures
        line_models(r@) == spec_outline(slides@, current as int, selected as int, height, *theme, bar_fg),
{
    let total = slides.len();
    let mut title: Vec<char> = Vec::new();
    append_str(&mut title, "Outline (");
    push_decimal(&mut title, total as u128);
    append_str(&mut title, " slides)");
    let heading = Line::styled(&title, Style::new().fg(theme.heading).bold());
    let blank = Line::blank();
    let ghost (hm, bm) = (heading@, blank@);
    let mut lines: Vec<Line> = Vec::new();
    lines.push(heading);
    lines.push(blank);
    assert(line_models(lines@) =~= seq![hm, bm]);
    let visible = if (height as usize) < 3 {
        1
    } else {
        height as usize - 2
    };
    let offset = if selected > visible - 1 {
        selected - (visible - 1)
    } else {
        0
    };
    let end = if offset < total && visible < total - offset {
        offset + visible
    } else {
        total
    };
    let ghost want = spec_outline(slides@, current as int, selected as int, height, *theme, bar_fg);
    let count = if end > offset {
        end - offset
    } else {
        0
    };
    let mut k: usize = 0;
    while k < count
        invariant
            k <= count,
            count as int == (if end > offset { end - offset } else { 0int }),
            end <= total == slides@.len(),
            visible as int == outline_visible(height),
            offset as int == outline_offset(selected as int, visible as int),
            end as int == (if offset + visible < total { offset + visible } else { total as int }),
            line_models(lines@) == want.take(2 + k),
            want == spec_outline(slides@, current as int, selected as int, height, *theme, bar_fg),
        decreases count - k,
    {
        let i = offset + k;
        let slide = &slides[i];
        let label = match slide.title_text() {
            Some(t) => t,
            None => match slide.first_text() {
                Some(t) => t,
                None => text_of("(untitled)"),
            },
        };
        assert(label@ == outline_label(*slide));
        let mut row: Vec<char> = Vec::new();
        append_str(&mut row, if i == current { "*" } else { " " });
        append_str(&mut row, " ");
        push_right_aligned(&mut row, i as u128 + 1, 3);
        append_str(&mut row, "  ");
        append_str(&mut row, label.as_str());
        assert(row@ =~= outline_row(*slide, i as int, current as int));
        let style = if i == selected {
            Style::new().fg(bar_fg).bg(theme.accent).bold()
        } else {
            Style::new().fg(theme.text)
        };
        let l = Line::styled(&row, style);
        let ghost lm = l@;
        let ghost lb = line_models(lines@);
        lines.push(l);
        assert(line_models(lines@) =~= lb.push(lm));
        k = k + 1;
        assert(want.take(2 + k) =~= want.take(2 + k - 1).push(lm));
    }
    assert(want.take(2 + count) =~= want);
    lines
}

// ---------------------------------------------------------------------
// The footer
/// The footer's left side when there is no error: the presentation's
/// title, author and date, those present, joined by `  -  `.
pub open spec fn footer_parts(title: Option<Seq<char>>, m: Metadata) -> Seq<Seq<char>> {
    (match title { Some(t) => seq![t], None => Seq::empty() })
        + (match m.author { Some(a) => seq![a@], None => Seq::empty() })
        + (match m.date { Some(d) => seq![d@], None => Seq::empty() })
}

/// Texts joined with `sep` between neighbors.
pub open spec fn joined(parts: Seq<Seq<char>>, sep: Seq<char>) -> Seq<char>
    decreases parts.len(),
{
    if parts.len() == 0 {
        Seq::empty()
    } else if parts.len() == 1 {
        parts[0]
    } else {
        joined(parts.drop_last(), sep) + sep + parts.last()
    }
}

/// The footer's right side: the help hint and the slide counter, or the
/// outline's key hints (with the number being typed).
pub open spec fn footer_right(mode: Mode, input: Option<usize>, current: int, count: int) -> Seq<char> {
    match mode {
        Mode::Slides => "? help  "@ + decimal((current + 1) as nat) + "/"@ + decimal(count as nat),
        Mode::Outline => match input {
            Some(n) => "go to "@ + decimal(n as nat) + "  enter jump  esc clear"@,
            None => "enter jump  esc back  ? help"@,
        },
    }
}

/// The footer: nothing when `footer: false`; otherwise the left line (an
/// error in red, else the title, author and date, dim) and the right
/// line (dim).
pub open spec fn spec_footer(p: Presentation, player: Player, error: Option<Seq<char>>, t: Theme) -> Option<(StyledLine, StyledLine)> {
    if p.metadata.footer == Some(false) {
        None
    } else {
        let dim = with_modifiers(Style { fg: Some(t.text), ..default_style() }, dim_only());
        let left = match error {
            Some(e) => styled_line(e, Style { fg: Some(Color::Red), ..default_style() }),
            None => styled_line(
                joined(footer_parts(presentation_title(opt_chars(p.metadata.title), slides_model(p.slides@)), p.metadata), "  -  "@),
                dim,
            ),
        };
        Some((left, styled_line(footer_right(player.mode, player.outline_input, player.current as int, player.slide_count as int), dim)))
    }
}

/// The footer's two lines, if the footer shows.
pub fn footer_lines(p: &Presentation, player: &Player, error: &Option<String>, theme: &Theme) -> (r: Option<(Line, Line)>)
    ensures
        match r {
            Some((a, b)) => spec_footer(*p, *player, opt_chars(*error), *theme) == Some((a@, b@)),
            None => spec_footer(*p, *player, opt_chars(*error), *theme) is None,
        },
{
    if p.metadata.footer == Some(false) {
        return None;
    }
    let dim = Style::new().fg(theme.text).dim();
    let left = match error {
        Some(e) => {
            let chars = crate::text::chars_of(e.as_str());
            Line::styled(&chars, Style::new().fg(Color::Red))
        },
        None => {
            let mut parts: Vec<String> = Vec::new();
            match p.title() {
                Some(t) => parts.push(t),
                None => {},
            }
            match &p.metadata.author {
                Some(a) => parts.push(a.clone()),
                None => {},
            }
            match &p.metadata.date {
                Some(d) => parts.push(d.clone()),
                None => {},
            }
            let ghost pm = parts@.map_values(|s: String| s@);
            assert(pm =~= footer_parts(presentation_title(opt_chars(p.metadata.title), slides_model(p.slides@)), p.metadata));
            let mut text: Vec<char> = Vec::new();
            let mut k: usize = 0;
            while k < parts.len()
                invariant
                    k <= parts@.len(),
                    pm == parts@.map_values(|s: String| s@),
                    text@ == joined(pm.take(k as int), "  -  "@),
                decreases parts@.len() - k,
            {
                assert(pm.take(k + 1).drop_last() =~= pm.take(k as int));
                if k > 0 {
                    append_str(&mut text, "  -  ");
                }
                append_str(&mut text, parts[k].as_str());
                k = k + 1;
                assert(text@ =~= joined(pm.take(k as int), "  -  "@));
            }
            assert(pm.take(parts@.len() as int) =~= pm);
            Line::styled(&text, dim)
        },
    };
    let mut right: Vec<char> = Vec::new();
    match player.mode {
        Mode::Slides => {
            append_str(&mut right, "? help  ");
            push_decimal(&mut right, player.current as u128 + 1);
            append_str(&mut right, "/");
            push_decimal(&mut right, player.slide_count as u128);
        },
        Mode::Outline => match player.outline_input {
            Some(n) => {
                append_str(&mut right, "go to ");
                push_decimal(&mut right, n as u128);
                append_str(&mut right, "  enter jump  esc clear");
            },
            None => {
                append_str(&mut right, "enter jump  esc back  ? help");
            },
        },
    }
    assert(right@ =~= footer_right(player.mode, player.outline_input, player.current as int, player.slide_count as int));
    Some((left, Line::styled(&right, dim)))
}

// ---------------------------------------------------------------------
// The help box
/// The help box's rows: keys and what they do.
pub open spec fn help_rows() -> Seq<(Seq<char>, Seq<char>)> {
    seq![
        ("right, space, l, n"@, "next slide"@),
        ("left, bksp, h, p"@, "previous slide"@),
        ("down / up, j / k"@, "highlight line"@),
        ("right / left (highlighting)"@, "next / previous column"@),
        ("esc"@, "clear highlight"@),
        ("g / G"@, "first / last slide"@),
        ("o"@, "outline"@),
        ("enter (outline)"@, "jump to slide"@),
        ("0-9 (outline)"@, "go to number"@),
        ("!"@, "shell; exit resumes"@),
        ("r"@, "reload file"@),
        ("?"@, "help"@),
        ("q, ctrl-c"@, "quit"@)
    ]
}

/// The longest key text (`k = true`) or description among the rows.
pub open spec fn help_width(rows: Seq<(Seq<char>, Seq<char>)>, k: bool) -> int
    decreases rows.len(),
{
    if rows.len() == 0 {
        0
    } else {
        let m = help_width(rows.drop_last(), k);
        let l = if k { rows.last().0.len() as int } else { rows.last().1.len() as int };
        if l > m { l } else { m }
    }
}

/// One row of the help box: the key, padded to the widest key, in the
/// accent color, then what it does.
pub open spec fn help_line(row: (Seq<char>, Seq<char>), kw: int, t: Theme) -> StyledLine {
    line_of(
        seq![
            run("  "@ + row.0 + repeat(' ', kw - row.0.len()) + "  "@, Style { fg: Some(t.accent), ..default_style() }),
            run(row.1, Style { fg: Some(t.text), ..default_style() }),
        ],
    )
}

/// The help box's lines: one per row, then an empty line.
pub open spec fn spec_help_lines(t: Theme) -> Seq<StyledLine> {
    let rows = help_rows();
    let kw = help_width(rows, true);
    help_row_lines(rows, kw, t) + seq![line_of(Seq::empty())]
}

/// The help box's lines for `rows`, keys padded to `kw`.
pub open spec fn help_row_lines(rows: Seq<(Seq<char>, Seq<char>)>, kw: int, t: Theme) -> Seq<StyledLine> {
    rows.map_values(|r: (Seq<char>, Seq<char>)| help_line(r, kw, t))
}

/// Where the help box goes in the frame: sized to its content (keys,
/// descriptions, padding and borders), clamped to the frame less a
/// margin, centered.
pub open spec fn spec_help_area(a: Area, lines: int) -> Area {
    let rows = help_rows();
    let w0 = (help_width(rows, true) + help_width(rows, false) + 6) as u16;
    let wmax = if a.width >= 2 { a.width - 2 } else { 0 };
    let w = if w0 < wmax { w0 as int } else { wmax };
    let h0 = vstd::wrapping::u16_specs::wrapping_add(lines as u16, 2);
    let hmax = if a.height >= 2 { a.height - 2 } else { 0 };
    let h = if h0 < hmax { h0 as int } else { hmax };
    spec_area((a.x + (a.width - w) / 2) as u16, (a.y + (a.height - h) / 2) as u16, w as u16, h as u16)
}

/// The help box: its lines and where it goes in frame `a`.
pub fn help_box(a: Area, theme: &Theme) -> (r: (Vec<Line>, Area))
    requires
        a.x + a.width <= 0xffff,
        a.y + a.height <= 0xffff,
    ensures
        line_models(r.0@) == spec_help_lines(*theme),
        r.1 == spec_help_area(a, spec_help_lines(*theme).len() as int),
{
    let mut keys: Vec<&str> = Vec::new();
    let mut descs: Vec<&str> = Vec::new();
    keys.push("right, space, l, n");
    descs.push("next slide");
    keys.push("left, bksp, h, p");
    descs.push("previous slide");
    keys.push("down / up, j / k");
    descs.push("highlight line");
    keys.push("right / left (highlighting)");
    descs.push("next / previous column");
    keys.push("esc");
    descs.push("clear highlight");
    keys.push("g / G");
    descs.push("first / last slide");
    keys.push("o");
    descs.push("outline");
    keys.push("enter (outline)");
    descs.push("jump to slide");
    keys.push("0-9 (outline)");
    descs.push("go to number");
    keys.push("!");
    descs.push("shell; exit resumes");
    keys.push("r");
    descs.push("reload file");
    keys.push("?");
    descs.push("help");
    keys.push("q, ctrl-c");
    descs.push("quit");
    let ghost rows = help_rows();
    proof {
        reveal_strlit("right, space, l, n");
        reveal_strlit("next slide");
        reveal_strlit("left, bksp, h, p");
        reveal_strlit("previous slide");
        reveal_strlit("down / up, j / k");
        reveal_strlit("highlight line");
        reveal_strlit("right / left (highlighting)");
        reveal_strlit("next / previous column");
        reveal_strlit("esc");
        reveal_strlit("clear highlight");
        reveal_strlit("g / G");
        reveal_strlit("first / last slide");
        reveal_strlit("o");
        reveal_strlit("outline");
        reveal_strlit("enter (outline)");
        reveal_strlit("jump to slide");
        reveal_strlit("0-9 (outline)");
        reveal_strlit("go to number");
        reveal_strlit("!");
        reveal_strlit("shell; exit resumes");
        reveal_strlit("r");
        reveal_strlit("reload file");
        reveal_strlit("?");
        reveal_strlit("help");
        reveal_strlit("q, ctrl-c");
        reveal_strlit("quit");
    }
    assert(keys@.len() == rows.len());
    assert forall|i: int| 0 <= i < rows.len() implies keys@[i]@ == rows[i].0 && descs@[i]@ == rows[i].1
        && rows[i].0.len() <= 100 && rows[i].1.len() <= 100 by {}
    let mut kw: usize = 0;
    let mut dw: usize = 0;
    let mut i: usize = 0;
    while i < keys.len()
        invariant
            i <= keys@.len() == descs@.len() == rows.len(),
            forall|j: int| 0 <= j < rows.len() ==> keys@[j]@ == rows[j].0 && descs@[j]@ == rows[j].1
                && rows[j].0.len() <= 100 && rows[j].1.len() <= 100,
            kw as int == help_width(rows.take(i as int), true),
            dw as int == help_width(rows.take(i as int), false),
            kw <= 100,
            dw <= 100,
        decreases keys@.len() - i,
    {
        assert(rows.take(i + 1).drop_last() =~= rows.take(i as int));
        let kl = crate::text::chars_of(keys[i]).len();
        let dl = crate::text::chars_of(descs[i]).len();
        assert(keys@[i as int]@ == rows[i as int].0 && descs@[i as int]@ == rows[i as int].1);
        if kl > kw {
            kw = kl;
        }
        if dl > dw {
            dw = dl;
        }
        i = i + 1;
    }
    assert(rows.take(rows.len() as int) =~= rows);
    let ghost want = spec_help_lines(*theme);
    let mut lines: Vec<Line> = Vec::new();
    let mut k: usize = 0;
    while k < keys.len()
        invariant
            k <= keys@.len() == descs@.len() == rows.len(),
            forall|j: int| 0 <= j < rows.len() ==> keys@[j]@ == rows[j].0 && descs@[j]@ == rows[j].1
                && rows[j].0.len() <= 100 && rows[j].1.len() <= 100,
            kw as int == help_width(rows, true),
            rows == help_rows(),
            want == spec_help_lines(*theme),
            line_models(lines@) == want.take(k as int),
        decreases keys@.len() - k,
    {
        proof {
            lemma_help_width_covers(rows, k as int);
        }
        let key = crate::text::chars_of(keys[k]);
        let mut left: Vec<char> = Vec::new();
        append_str(&mut left, "  ");
        extend_chars(&mut left, &key);
        push_repeat(&mut left, ' ', kw - key.len());
        append_str(&mut left, "  ");
        let mut spans: Vec<Span> = Vec::new();
        spans.push(Span::styled(string_of(left.as_slice()), Style::new().fg(theme.accent)));
        spans.push(Span::styled(text_of(descs[k]), Style::new().fg(theme.text)));
        let l = Line::from_spans(spans);
        assert(l@ == help_line(rows[k as int], kw as int, *theme)) by {
            assert(l@.spans =~= help_line(rows[k as int], kw as int, *theme).spans);
        }
        let ghost before = line_models(lines@);
        lines.push(l);
        assert(line_models(lines@) =~= before.push(l@));
        proof {
            let m = help_row_lines(rows, help_width(rows, true), *theme);
            assert(want == m + seq![line_of(Seq::<StyledRun>::empty())]);
            assert(m[k as int] == help_line(rows[k as int], kw as int, *theme));
            assert(want[k as int] == m[k as int]);
        }
        k = k + 1;
        assert(want.take(k as int) =~= want.take(k - 1).push(l@));
    }
    let blank = Line::blank();
    let ghost before = line_models(lines@);
    lines.push(blank);
    assert(want.len() == rows.len() + 1);
    assert(want[rows.len() as int] == line_of(Seq::empty()));
    assert(line_models(lines@) =~= before.push(blank@));
    assert(line_models(lines@) =~= want);
    let n = lines.len();
    let w0 = (kw + dw + 6) as u16;
    let wmax = a.width.saturating_sub(2);
    let width = if w0 < wmax { w0 } else { wmax };
    let h0 = (n as u16).wrapping_add(2);
    let hmax = a.height.saturating_sub(2);
    let height = if h0 < hmax { h0 } else { hmax };
    let area = Area::new(a.x + (a.width - width) / 2, a.y + (a.height - height) / 2, width, height);
    (lines, area)
}

/// Each row's key fits the widest key.
proof fn lemma_help_width_covers(rows: Seq<(Seq<char>, Seq<char>)>, i: int)
    requires
        0 <= i < rows.len(),
    ensures
        rows[i].0.len() <= help_width(rows, true),
        rows[i].1.len() <= help_width(rows, false),
    decreases rows.len(),
{
    if i < rows.len() - 1 {
        lemma_help_width_covers(rows.drop_last(), i);
    }
}

} // verus!
