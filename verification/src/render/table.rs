//! Tables: cells word-wrap to negotiated column widths. Each column asks
//! for its widest cell; when that does not fit the available width, the
//! widest columns shrink (down to a small floor) until it does. Borders
//! match the code windows' rounded style, on the code panel color.
use vstd::prelude::*;

use super::slide::{clipped, convert_inline, clip_line, panel_style, spec_convert};
use super::style::{
    bold_only, capped, default_style, line_models, line_of, line_width, run, runs, runs_display_width,
    spans_width, with_modifiers, Line, Span, Style, StyledLine, StyledRun,
};
use super::wrap::{run_texts, span_rows, spaces, spec_wrap, wrap_spans};
use crate::markdown::slide::{InlineSpan, TableAlign, TableBlock};
use crate::text::{repeat, repeat_string, string_of};
use crate::theme::Theme;

verus! {

/// The narrowest a column shrinks to.
pub const MIN_COLUMN: usize = 4;

/// The most cells any body row has.
pub open spec fn max_row_len(rows: Seq<Vec<Vec<InlineSpan>>>) -> int
    decreases rows.len(),
{
    if rows.len() == 0 {
        0
    } else {
        let m = max_row_len(rows.drop_last());
        let l = rows.last()@.len() as int;
        if l > m {
            l
        } else {
            m
        }
    }
}

/// How many columns a table has: its widest row, header included.
pub open spec fn table_columns(t: TableBlock) -> int {
    let m = max_row_len(t.rows@);
    if t.header@.len() > m {
        t.header@.len() as int
    } else {
        m
    }
}

/// Spans made bold.
pub open spec fn embolden(rs: Seq<StyledRun>) -> Seq<StyledRun> {
    rs.map_values(|r: StyledRun| run(r.text, with_modifiers(r.style, bold_only())))
}

/// Cell `i` of a row as styled spans (empty past the row's end); header
/// cells are bold.
pub open spec fn cell_runs(cells: Seq<Vec<InlineSpan>>, i: int, t: Theme, bold: bool) -> Seq<StyledRun> {
    if i < cells.len() {
        let c = spec_convert(cells[i]@, t);
        if bold {
            embolden(c)
        } else {
            c
        }
    } else {
        Seq::empty()
    }
}

/// A row's cells, one per column.
pub open spec fn row_cells(cells: Seq<Vec<InlineSpan>>, columns: int, t: Theme, bold: bool) -> Seq<
    Seq<StyledRun>,
> {
    Seq::new(columns as nat, |i: int| cell_runs(cells, i, t, bold))
}

/// The widest cell of column `i` among the body rows.
pub open spec fn column_max(body: Seq<Seq<Seq<StyledRun>>>, i: int) -> int
    decreases body.len(),
{
    if body.len() == 0 {
        0
    } else {
        let m = column_max(body.drop_last(), i);
        let w = runs_display_width(body.last()[i]) as int;
        if w > m {
            w
        } else {
            m
        }
    }
}

/// The width column `i` asks for: its widest cell, at least one.
pub open spec fn natural_width(header: Seq<Seq<StyledRun>>, body: Seq<Seq<Seq<StyledRun>>>, i: int) -> int {
    let h = runs_display_width(header[i]) as int;
    let b = column_max(body, i);
    let m = if b > h {
        b
    } else {
        h
    };
    if m < 1 {
        1
    } else {
        m
    }
}

/// The columns the cells may take: the width less the borders and
/// padding, but never less than the floor for every column.
pub open spec fn available_width(width: int, columns: int) -> int {
    let overhead = 3 * columns + 1;
    let a = if width > overhead {
        width - overhead
    } else {
        0
    };
    if a > columns * MIN_COLUMN {
        a
    } else {
        columns * MIN_COLUMN
    }
}

/// The sum of some widths (negative ones count as zero).
pub open spec fn sum_widths(ws: Seq<int>) -> nat
    decreases ws.len(),
{
    if ws.len() == 0 {
        0
    } else {
        sum_widths(ws.drop_last()) + if ws.last() < 0 {
            0
        } else {
            ws.last() as nat
        }
    }
}

/// The index of the widest of the first `n` widths; the last one wins
/// ties.
pub open spec fn last_widest(ws: Seq<int>, n: int) -> int
    decreases n,
{
    if n <= 1 {
        0
    } else {
        let b = last_widest(ws, n - 1);
        if ws[n - 1] >= ws[b] {
            n - 1
        } else {
            b
        }
    }
}

pub proof fn lemma_last_widest_bounds(ws: Seq<int>, n: int)
    requires
        1 <= n <= ws.len(),
    ensures
        0 <= last_widest(ws, n) < n,
        forall|j: int| 0 <= j < n ==> #[trigger] ws[j] <= ws[last_widest(ws, n)],
    decreases n,
{
    if n > 1 {
        lemma_last_widest_bounds(ws, n - 1);
    }
}

pub proof fn lemma_sum_widths_update(ws: Seq<int>, i: int)
    requires
        0 <= i < ws.len(),
        ws[i] >= 1,
    ensures
        sum_widths(ws.update(i, ws[i] - 1)) + 1 == sum_widths(ws),
    decreases ws.len(),
{
    let u = ws.update(i, ws[i] - 1);
    if i < ws.len() - 1 {
        assert(u.drop_last() =~= ws.drop_last().update(i, ws[i] - 1));
        lemma_sum_widths_update(ws.drop_last(), i);
    } else {
        assert(u.drop_last() =~= ws.drop_last());
    }
}

/// Column widths shrunk to fit `avail`: while they do not, the widest
/// column (the last of equals) loses a column, until it is down to the
/// floor.
pub open spec fn shrink(ws: Seq<int>, avail: int) -> Seq<int>
    decreases sum_widths(ws),
{
    if ws.len() == 0 || sum_widths(ws) <= avail {
        ws
    } else {
        let i = last_widest(ws, ws.len() as int);
        if 0 <= i < ws.len() && ws[i] > MIN_COLUMN {
            proof {
                lemma_sum_widths_update(ws, i);
            }
            shrink(ws.update(i, ws[i] - 1), avail)
        } else {
            ws
        }
    }
}

/// The border style: the code border color.
pub open spec fn table_border(t: Theme) -> Style {
    Style { fg: Some(t.code_border), ..default_style() }
}

/// The runs of a horizontal edge after its left corner: a rule over each
/// column (its width plus padding), with `mid` between columns.
pub open spec fn edge_runs(widths: Seq<int>, mid: Seq<char>, b: Style) -> Seq<StyledRun>
    decreases widths.len(),
{
    if widths.len() == 0 {
        Seq::empty()
    } else {
        edge_runs(widths.drop_last(), mid, b) + (if widths.len() > 1 {
            seq![run(mid, b)]
        } else {
            Seq::empty()
        }) + seq![run(repeat('\u{2500}', capped(widths.last() + 2) as int), b)]
    }
}

/// A horizontal edge of the table with corners `l` and `r`.
pub open spec fn edge_line(widths: Seq<int>, l: char, m: char, r: char, t: Theme, width: int) -> StyledLine {
    let b = table_border(t);
    clipped(
        StyledLine {
            spans: seq![run(seq![l], b)] + edge_runs(widths, seq![m], b) + seq![run(seq![r], b)],
            style: panel_style(t),
        },
        width,
    )
}

/// Each cell wrapped to its column's width.
pub open spec fn wrapped_cells(cells: Seq<Seq<StyledRun>>, widths: Seq<int>) -> Seq<Seq<StyledLine>> {
    Seq::new(cells.len(), |i: int| spec_wrap(cells[i], widths[i]))
}

/// How many lines the tallest wrapped cell has (one for no cells).
pub open spec fn tallest_cell(w: Seq<Seq<StyledLine>>) -> int
    decreases w.len(),
{
    if w.len() == 0 {
        1
    } else if w.len() == 1 {
        w[0].len() as int
    } else {
        let m = tallest_cell(w.drop_last());
        if w.last().len() > m {
            w.last().len() as int
        } else {
            m
        }
    }
}

/// Line `li` of cell `i`, aligned in its column: padding before and
/// after as the column's alignment says, and a separator before every
/// cell but the first.
pub open spec fn cell_part(
    wrapped: Seq<Seq<StyledLine>>,
    widths: Seq<int>,
    aligns: Seq<TableAlign>,
    i: int,
    li: int,
    b: Style,
) -> Seq<StyledRun> {
    let content = if li < wrapped[i].len() {
        wrapped[i][li].spans
    } else {
        Seq::empty()
    };
    let used = if li < wrapped[i].len() {
        line_width(wrapped[i][li]) as int
    } else {
        0
    };
    let pad = if widths[i] - used < 0 {
        0
    } else {
        widths[i] - used
    };
    let align = if i < aligns.len() {
        aligns[i]
    } else {
        TableAlign::Left
    };
    let before = match align {
        TableAlign::Left => 0,
        TableAlign::Right => pad,
        TableAlign::Center => pad / 2,
    };
    let after = match align {
        TableAlign::Left => pad,
        TableAlign::Right => 0,
        TableAlign::Center => pad - pad / 2,
    };
    (if i > 0 {
        seq![run(" "@, default_style()), run("\u{2502}"@, b), run(" "@, default_style())]
    } else {
        Seq::empty()
    }) + (if before > 0 {
        seq![run(spaces(before), default_style())]
    } else {
        Seq::empty()
    }) + content + (if after > 0 {
        seq![run(spaces(after), default_style())]
    } else {
        Seq::empty()
    })
}

/// Line `li` of the first `n` cells.
pub open spec fn row_parts(
    wrapped: Seq<Seq<StyledLine>>,
    widths: Seq<int>,
    aligns: Seq<TableAlign>,
    li: int,
    n: int,
    b: Style,
) -> Seq<StyledRun>
    decreases n,
{
    if n <= 0 {
        Seq::empty()
    } else {
        row_parts(wrapped, widths, aligns, li, n - 1, b) + cell_part(wrapped, widths, aligns, n - 1, li, b)
    }
}

/// Line `li` of a table row, between its side borders.
pub open spec fn row_line(
    wrapped: Seq<Seq<StyledLine>>,
    widths: Seq<int>,
    aligns: Seq<TableAlign>,
    li: int,
    t: Theme,
    width: int,
) -> StyledLine {
    let b = table_border(t);
    clipped(
        StyledLine {
            spans: seq![run("\u{2502}"@, b), run(" "@, default_style())] + row_parts(
                wrapped,
                widths,
                aligns,
                li,
                wrapped.len() as int,
                b,
            ) + seq![run(" "@, default_style()), run("\u{2502}"@, b)],
            style: panel_style(t),
        },
        width,
    )
}

/// A table row: each cell wrapped to its column, as tall as its tallest
/// cell, shorter cells padded with blank lines.
pub open spec fn row_lines(cells: Seq<Seq<StyledRun>>, widths: Seq<int>, aligns: Seq<TableAlign>, t: Theme, width: int) -> Seq<
    StyledLine,
> {
    let w = wrapped_cells(cells, widths);
    Seq::new(tallest_cell(w) as nat, |li: int| row_line(w, widths, aligns, li, t, width))
}

/// The body rows, one after the other.
pub open spec fn body_lines(
    body: Seq<Seq<Seq<StyledRun>>>,
    widths: Seq<int>,
    aligns: Seq<TableAlign>,
    t: Theme,
    width: int,
) -> Seq<StyledLine>
    decreases body.len(),
{
    if body.len() == 0 {
        Seq::empty()
    } else {
        body_lines(body.drop_last(), widths, aligns, t, width) + row_lines(body.last(), widths, aligns, t, width)
    }
}

/// The column widths a table gets at `width`.
pub open spec fn table_widths(tb: TableBlock, t: Theme, width: int) -> Seq<int> {
    let cols = table_columns(tb);
    let header = row_cells(tb.header@, cols, t, true);
    let body = tb.rows@.map_values(|r: Vec<Vec<InlineSpan>>| row_cells(r@, cols, t, false));
    shrink(Seq::new(cols as nat, |i: int| natural_width(header, body, i)), available_width(width, cols))
}

/// A table: top edge, header row (bold), separator, body rows, bottom
/// edge; every line clipped to the width. A table without columns
/// renders nothing.
pub open spec fn table_lines(tb: TableBlock, t: Theme, width: int) -> Seq<StyledLine> {
    let cols = table_columns(tb);
    if cols == 0 {
        Seq::empty()
    } else {
        let header = row_cells(tb.header@, cols, t, true);
        let body = tb.rows@.map_values(|r: Vec<Vec<InlineSpan>>| row_cells(r@, cols, t, false));
        let widths = table_widths(tb, t, width);
        let a = tb.alignments@;
        seq![edge_line(widths, '\u{256d}', '\u{252c}', '\u{256e}', t, width)] + row_lines(
            header,
            widths,
            a,
            t,
            width,
        ) + seq![edge_line(widths, '\u{251c}', '\u{253c}', '\u{2524}', t, width)] + body_lines(
            body,
            widths,
            a,
            t,
            width,
        ) + seq![edge_line(widths, '\u{2570}', '\u{2534}', '\u{256f}', t, width)]
    }
}

/// The model of column widths.
pub open spec fn widths_model(ws: Seq<usize>) -> Seq<int> {
    ws.map_values(|w: usize| w as int)
}

/// The model of converted table rows.
pub open spec fn body_model(b: Seq<Vec<Vec<Span>>>) -> Seq<Seq<Seq<StyledRun>>> {
    b.map_values(|r: Vec<Vec<Span>>| span_rows(r@))
}

fn columns_of(t: &TableBlock) -> (r: usize)
    ensures
        r as int == table_columns(*t),
{
    let mut m: usize = 0;
    let mut k: usize = 0;
    while k < t.rows.len()
        invariant
            k <= t.rows@.len(),
            m as int == max_row_len(t.rows@.take(k as int)),
        decreases t.rows@.len() - k,
    {
        assert(t.rows@.take(k + 1).drop_last() =~= t.rows@.take(k as int));
        let l = t.rows[k].len();
        if l > m {
            m = l;
        }
        k = k + 1;
    }
    assert(t.rows@.take(t.rows@.len() as int) =~= t.rows@);
    if t.header.len() > m {
        t.header.len()
    } else {
        m
    }
}

/// A row's cells converted, one per column.
fn cells_of(cells: &Vec<Vec<InlineSpan>>, columns: usize, theme: &Theme, bold: bool) -> (r: Vec<Vec<Span>>)
    ensures
        span_rows(r@) == row_cells(cells@, columns as int, *theme, bold),
        r@.len() == columns,
{
    let ghost want = row_cells(cells@, columns as int, *theme, bold);
    let mut out: Vec<Vec<Span>> = Vec::new();
    let mut i: usize = 0;
    while i < columns
        invariant
            i <= columns,
            want == row_cells(cells@, columns as int, *theme, bold),
            span_rows(out@) == want.take(i as int),
        decreases columns - i,
    {
        let mut spans: Vec<Span> = Vec::new();
        if i < cells.len() {
            let c = convert_inline(&cells[i], theme);
            if bold {
                let ghost cm = runs(c@);
                let mut k: usize = 0;
                while k < c.len()
                    invariant
                        k <= c@.len(),
                        cm == runs(c@),
                        runs(spans@) == embolden(cm).take(k as int),
                    decreases c@.len() - k,
                {
                    let s = Span::styled(c[k].content.clone(), c[k].style.bold());
                    let ghost before = runs(spans@);
                    spans.push(s);
                    assert(runs(spans@) =~= before.push(s@));
                    k = k + 1;
                    assert(embolden(cm).take(k as int) =~= before.push(s@));
                }
                assert(embolden(cm).take(c@.len() as int) =~= embolden(cm));
            } else {
                spans = c;
            }
        } else {
            assert(runs(spans@) =~= Seq::<StyledRun>::empty());
        }
        let ghost sm = runs(spans@);
        let ghost before = span_rows(out@);
        out.push(spans);
        assert(span_rows(out@) =~= before.push(sm));
        i = i + 1;
        assert(want.take(i as int) =~= before.push(sm));
    }
    assert(want.take(columns as int) =~= want);
    assert(span_rows(out@).len() == out@.len());
    out
}

/// Each column's natural width.
fn natural_widths(header: &Vec<Vec<Span>>, body: &Vec<Vec<Vec<Span>>>, columns: usize) -> (r: Vec<usize>)
    requires
        header@.len() == columns,
        forall|k: int| 0 <= k < body@.len() ==> (#[trigger] body@[k])@.len() == columns,
    ensures
        widths_model(r@) == Seq::new(
            columns as nat,
            |i: int| natural_width(span_rows(header@), body_model(body@), i),
        ),
        r@.len() == columns,
{
    let ghost hm = span_rows(header@);
    let ghost bm = body_model(body@);
    let ghost want = Seq::new(columns as nat, |i: int| natural_width(hm, bm, i));
    let mut out: Vec<usize> = Vec::new();
    let mut i: usize = 0;
    while i < columns
        invariant
            i <= columns,
            header@.len() == columns,
            forall|k: int| 0 <= k < body@.len() ==> (#[trigger] body@[k])@.len() == columns,
            hm == span_rows(header@),
            bm == body_model(body@),
            want == Seq::new(columns as nat, |i: int| natural_width(hm, bm, i)),
            widths_model(out@) == want.take(i as int),
        decreases columns - i,
    {
        let h = spans_width(&header[i]);
        assert(hm[i as int] == runs(header@[i as int]@));
        let mut m: usize = 0;
        let mut k: usize = 0;
        while k < body.len()
            invariant
                k <= body@.len(),
                i < columns,
                forall|k: int| 0 <= k < body@.len() ==> (#[trigger] body@[k])@.len() == columns,
                bm == body_model(body@),
                m as int == column_max(bm.take(k as int), i as int),
            decreases body@.len() - k,
        {
            assert(bm.take(k + 1).drop_last() =~= bm.take(k as int));
            assert(bm[k as int] == span_rows(body@[k as int]@));
            assert(span_rows(body@[k as int]@)[i as int] == runs(body@[k as int]@[i as int]@));
            let w = spans_width(&body[k][i]);
            if w > m {
                m = w;
            }
            k = k + 1;
        }
        assert(bm.take(body@.len() as int) =~= bm);
        let mm = if m > h {
            m
        } else {
            h
        };
        let nw = if mm < 1 {
            1
        } else {
            mm
        };
        let ghost before = widths_model(out@);
        out.push(nw);
        assert(widths_model(out@) =~= before.push(nw as int));
        i = i + 1;
        assert(want.take(i as int) =~= before.push(nw as int));
    }
    assert(want.take(columns as int) =~= want);
    assert(widths_model(out@).len() == out@.len());
    out
}

/// The sum of widths, computed.
fn total_width(ws: &Vec<usize>) -> (r: u128)
    ensures
        r as int == sum_widths(widths_model(ws@)),
{
    let mut s: u128 = 0;
    let mut i: usize = 0;
    while i < ws.len()
        invariant
            i <= ws@.len(),
            s as int == sum_widths(widths_model(ws@).take(i as int)),
            s <= i * 0xffff_ffff_ffff_ffffu128,
        decreases ws@.len() - i,
    {
        assert(widths_model(ws@).take(i + 1).drop_last() =~= widths_model(ws@).take(i as int));
        assert(ws[i as int] <= 0xffff_ffff_ffff_ffffu64) by {
            assert(usize::MAX <= 0xffff_ffff_ffff_ffffu64);
        }
        s = s + ws[i] as u128;
        i = i + 1;
    }
    assert(widths_model(ws@).take(ws@.len() as int) =~= widths_model(ws@));
    s
}

/// The index of the widest column; the last one wins ties.
fn widest_column(ws: &Vec<usize>) -> (r: usize)
    requires
        ws@.len() >= 1,
    ensures
        r as int == last_widest(widths_model(ws@), ws@.len() as int),
        r < ws@.len(),
{
    let ghost m = widths_model(ws@);
    let mut b: usize = 0;
    let mut j: usize = 1;
    while j < ws.len()
        invariant
            1 <= j <= ws@.len(),
            m == widths_model(ws@),
            b < j,
            b as int == last_widest(m, j as int),
        decreases ws@.len() - j,
    {
        if ws[j] >= ws[b] {
            b = j;
        }
        j = j + 1;
    }
    b
}

/// Shrink column widths to fit `avail`.
fn shrink_widths(ws: &mut Vec<usize>, avail: u128)
    requires
        old(ws)@.len() >= 1,
    ensures
        widths_model(final(ws)@) == shrink(widths_model(old(ws)@), avail as int),
        final(ws)@.len() == old(ws)@.len(),
{
    let ghost want = shrink(widths_model(ws@), avail as int);
    loop
        invariant
            ws@.len() >= 1,
            ws@.len() == old(ws)@.len(),
            want == shrink(widths_model(old(ws)@), avail as int),
            shrink(widths_model(ws@), avail as int) == want,
        decreases sum_widths(widths_model(ws@)),
    {
        let total = total_width(ws);
        if total <= avail {
            return;
        }
        let i = widest_column(ws);
        if ws[i] <= MIN_COLUMN {
            return;
        }
        let ghost before = widths_model(ws@);
        proof {
            lemma_sum_widths_update(before, i as int);
        }
        let w = ws[i];
        ws.set(i, w - 1);
        assert(widths_model(ws@) =~= before.update(i as int, before[i as int] - 1));
    }
}

/// A string of one character.
fn char_string(c: char) -> (r: String)
    ensures
        r@ == seq![c],
{
    let v = vec![c];
    assert(v@ =~= seq![c]);
    string_of(v.as_slice())
}

/// Draws one horizontal edge.
fn edge(widths: &Vec<usize>, l: char, m: char, r: char, theme: &Theme, width: usize) -> (line: Line)
    ensures
        line@ == edge_line(widths_model(widths@), l, m, r, *theme, width as int),
{
    let b = Style::new().fg(theme.code_border);
    let ghost wm = widths_model(widths@);
    let mut spans: Vec<Span> = Vec::new();
    let first = Span::styled(char_string(l), b);
    let ghost f = first@;
    spans.push(first);
    assert(wm.take(0) =~= Seq::<int>::empty());
    assert(runs(spans@) =~= seq![f] + edge_runs(wm.take(0), seq![m], b));
    let mut i: usize = 0;
    while i < widths.len()
        invariant
            i <= widths@.len(),
            wm == widths_model(widths@),
            b == table_border(*theme),
            runs(spans@) == seq![f] + edge_runs(wm.take(i as int), seq![m], b),
        decreases widths@.len() - i,
    {
        let ghost before = runs(spans@);
        assert(wm.take(i + 1).drop_last() =~= wm.take(i as int));
        assert(wm.take(i + 1).last() == widths@[i as int] as int);
        let mut extra: Vec<Span> = Vec::new();
        if i > 0 {
            extra.push(Span::styled(char_string(m), b));
        }
        let rule = Span::styled(repeat_string('\u{2500}', widths[i].saturating_add(2)), b);
        let ghost rm = rule@;
        extra.push(rule);
        let ghost em = runs(extra@);
        assert(em =~= (if i > 0 {
            seq![run(seq![m], b)]
        } else {
            Seq::<StyledRun>::empty()
        }) + seq![run(repeat('\u{2500}', capped(widths@[i as int] + 2) as int), b)]);
        spans.append(&mut extra);
        assert(runs(spans@) =~= before + em);
        i = i + 1;
    }
    assert(wm.take(widths@.len() as int) =~= wm);
    let last = Span::styled(char_string(r), b);
    let ghost z = last@;
    let ghost before = runs(spans@);
    spans.push(last);
    assert(runs(spans@) =~= before.push(z));
    assert(runs(spans@) =~= seq![run(seq![l], b)] + edge_runs(wm, seq![m], b) + seq![run(seq![r], b)]);
    let line = Line { spans, style: Style::new().bg(theme.code_background) };
    assert(line@.style == panel_style(*theme));
    clip_line(line, width)
}

/// The model of wrapped cells.
pub open spec fn wrapped_model(w: Seq<Vec<Line>>) -> Seq<Seq<StyledLine>> {
    w.map_values(|x: Vec<Line>| line_models(x@))
}

/// One cell's part of a row line.
fn cell_part_of(
    wrapped: &Vec<Vec<Line>>,
    widths: &Vec<usize>,
    aligns: &Vec<TableAlign>,
    i: usize,
    li: usize,
    b: Style,
) -> (r: Vec<Span>)
    requires
        i < wrapped@.len(),
        wrapped@.len() == widths@.len(),
    ensures
        runs(r@) == cell_part(wrapped_model(wrapped@), widths_model(widths@), aligns@, i as int, li as int, b),
{
    let ghost wm = wrapped_model(wrapped@);
    assert(wm[i as int] == line_models(wrapped@[i as int]@));
    let (content, used) = if li < wrapped[i].len() {
        assert(line_models(wrapped@[i as int]@)[li as int] == wrapped@[i as int]@[li as int]@);
        (super::style::copy_spans(&wrapped[i][li].spans), wrapped[i][li].width())
    } else {
        (Vec::new(), 0)
    };
    let ghost cm = runs(content@);
    assert(li >= wrapped@[i as int]@.len() ==> cm =~= Seq::<StyledRun>::empty());
    let pad = widths[i].saturating_sub(used);
    let align = if i < aligns.len() {
        aligns[i]
    } else {
        TableAlign::Left
    };
    let (before, after) = match align {
        TableAlign::Left => (0, pad),
        TableAlign::Right => (pad, 0),
        TableAlign::Center => (pad / 2, pad - pad / 2),
    };
    let mut out: Vec<Span> = Vec::new();
    let ghost sep = if i > 0 {
        seq![run(" "@, default_style()), run("\u{2502}"@, b), run(" "@, default_style())]
    } else {
        Seq::<StyledRun>::empty()
    };
    if i > 0 {
        let s1 = Span::raw(super::slide::text_of(" "));
        let s2 = Span::styled(super::slide::text_of("\u{2502}"), b);
        let s3 = Span::raw(super::slide::text_of(" "));
        let ghost (m1, m2, m3) = (s1@, s2@, s3@);
        out.push(s1);
        out.push(s2);
        out.push(s3);
        assert(runs(out@) =~= seq![m1, m2, m3]);
    } else {
        assert(runs(out@) =~= Seq::<StyledRun>::empty());
    }
    let ghost pre = if before > 0 {
        seq![run(spaces(before as int), default_style())]
    } else {
        Seq::<StyledRun>::empty()
    };
    if before > 0 {
        let p = Span::raw(repeat_string(' ', before));
        assert(repeat(' ', before as int) =~= spaces(before as int));
        let ghost o = runs(out@);
        let ghost pm = p@;
        out.push(p);
        assert(runs(out@) =~= o.push(pm));
    }
    assert(runs(out@) =~= sep + pre);
    let mut c = content;
    let ghost o2 = runs(out@);
    out.append(&mut c);
    assert(runs(out@) =~= o2 + cm);
    let ghost post = if after > 0 {
        seq![run(spaces(after as int), default_style())]
    } else {
        Seq::<StyledRun>::empty()
    };
    if after > 0 {
        let p = Span::raw(repeat_string(' ', after));
        assert(repeat(' ', after as int) =~= spaces(after as int));
        let ghost o = runs(out@);
        let ghost pm = p@;
        out.push(p);
        assert(runs(out@) =~= o.push(pm));
    }
    assert(runs(out@) =~= sep + pre + cm + post);
    out
}

/// Emit one table row: each cell wrapped to its width; the tallest cell
/// sets the row height and shorter cells pad with blank lines.
fn emit_row(
    cells: &Vec<Vec<Span>>,
    widths: &Vec<usize>,
    aligns: &Vec<TableAlign>,
    theme: &Theme,
    width: usize,
    out: &mut Vec<Line>,
)
    requires
        cells@.len() == widths@.len(),
        cells@.len() >= 1,
    ensures
        line_models(final(out)@) == line_models(old(out)@) + row_lines(
            span_rows(cells@),
            widths_model(widths@),
            aligns@,
            *theme,
            width as int,
        ),
{
    let b = Style::new().fg(theme.code_border);
    let bg = Style::new().bg(theme.code_background);
    let ghost cm = span_rows(cells@);
    let ghost wm = widths_model(widths@);
    let ghost want_w = wrapped_cells(cm, wm);
    let mut wrapped: Vec<Vec<Line>> = Vec::new();
    let mut i: usize = 0;
    while i < cells.len()
        invariant
            i <= cells@.len() == widths@.len(),
            cm == span_rows(cells@),
            wm == widths_model(widths@),
            want_w == wrapped_cells(cm, wm),
            wrapped_model(wrapped@) == want_w.take(i as int),
        decreases cells@.len() - i,
    {
        let lines = wrap_spans(super::style::copy_spans(&cells[i]), widths[i]);
        assert(cm[i as int] == runs(cells@[i as int]@));
        let ghost lm = line_models(lines@);
        let ghost before = wrapped_model(wrapped@);
        wrapped.push(lines);
        assert(wrapped_model(wrapped@) =~= before.push(lm));
        i = i + 1;
        assert(want_w.take(i as int) =~= before.push(lm));
    }
    assert(want_w.take(cells@.len() as int) =~= want_w);
    let ghost wl = wrapped_model(wrapped@);
    let mut rows = wrapped[0].len();
    let mut k: usize = 1;
    assert(wl.take(1).len() == 1);
    while k < wrapped.len()
        invariant
            1 <= k <= wrapped@.len(),
            wl == wrapped_model(wrapped@),
            rows as int == tallest_cell(wl.take(k as int)),
        decreases wrapped@.len() - k,
    {
        assert(wl.take(k + 1).drop_last() =~= wl.take(k as int));
        assert(wl[k as int] == line_models(wrapped@[k as int]@));
        if wrapped[k].len() > rows {
            rows = wrapped[k].len();
        }
        k = k + 1;
    }
    assert(wl.take(wrapped@.len() as int) =~= wl);
    let ghost want = row_lines(cm, wm, aligns@, *theme, width as int);
    let ghost base = line_models(out@);
    let mut li: usize = 0;
    while li < rows
        invariant
            li <= rows,
            rows as int == tallest_cell(wl),
            wl == wrapped_model(wrapped@),
            wl == wrapped_cells(cm, wm),
            wrapped@.len() == widths@.len(),
            wm == widths_model(widths@),
            b == table_border(*theme),
            bg == panel_style(*theme),
            want == row_lines(cm, wm, aligns@, *theme, width as int),
            line_models(out@) == base + want.take(li as int),
        decreases rows - li,
    {
        let s1 = Span::styled(super::slide::text_of("\u{2502}"), b);
        let s2 = Span::raw(super::slide::text_of(" "));
        let ghost (m1, m2) = (s1@, s2@);
        let mut spans: Vec<Span> = Vec::new();
        spans.push(s1);
        spans.push(s2);
        assert(runs(spans@) =~= seq![m1, m2] + row_parts(wl, wm, aligns@, li as int, 0, b));
        let mut i: usize = 0;
        while i < wrapped.len()
            invariant
                i <= wrapped@.len() == widths@.len(),
                wl == wrapped_model(wrapped@),
                wm == widths_model(widths@),
                runs(spans@) == seq![m1, m2] + row_parts(wl, wm, aligns@, li as int, i as int, b),
            decreases wrapped@.len() - i,
        {
            let mut part = cell_part_of(&wrapped, widths, aligns, i, li, b);
            let ghost pm = runs(part@);
            let ghost before = runs(spans@);
            spans.append(&mut part);
            assert(runs(spans@) =~= before + pm);
            i = i + 1;
        }
        let s3 = Span::raw(super::slide::text_of(" "));
        let s4 = Span::styled(super::slide::text_of("\u{2502}"), b);
        let ghost (m3, m4) = (s3@, s4@);
        let ghost before = runs(spans@);
        spans.push(s3);
        spans.push(s4);
        assert(runs(spans@) =~= before + seq![m3, m4]);
        let line = clip_line(Line { spans, style: bg }, width);
        assert(line@ == row_line(wl, wm, aligns@, li as int, *theme, width as int));
        let ghost lm = line@;
        let ghost ob = line_models(out@);
        out.push(line);
        assert(line_models(out@) =~= ob.push(lm));
        li = li + 1;
        assert(want.take(li as int) =~= want.take(li - 1).push(lm));
    }
    assert(want.take(rows as int) =~= want);
}

/// Render a table at `width` columns.
pub fn render_table(table: &TableBlock, theme: &Theme, width: usize, out: &mut Vec<Line>)
    ensures
        line_models(final(out)@) == line_models(old(out)@) + table_lines(*table, *theme, width as int),
{
    let columns = columns_of(table);
    if columns == 0 {
        assert(line_models(out@) =~= line_models(out@) + Seq::<StyledLine>::empty());
        return;
    }
    let header = cells_of(&table.header, columns, theme, true);
    let ghost want_body = table.rows@.map_values(
        |r: Vec<Vec<InlineSpan>>| row_cells(r@, columns as int, *theme, false),
    );
    let mut body: Vec<Vec<Vec<Span>>> = Vec::new();
    let mut k: usize = 0;
    while k < table.rows.len()
        invariant
            k <= table.rows@.len(),
            want_body == table.rows@.map_values(
                |r: Vec<Vec<InlineSpan>>| row_cells(r@, columns as int, *theme, false),
            ),
            body_model(body@) == want_body.take(k as int),
            forall|j: int| 0 <= j < body@.len() ==> (#[trigger] body@[j])@.len() == columns,
        decreases table.rows@.len() - k,
    {
        let row = cells_of(&table.rows[k], columns, theme, false);
        let ghost rm = span_rows(row@);
        let ghost before = body_model(body@);
        body.push(row);
        assert(body_model(body@) =~= before.push(rm));
        k = k + 1;
        assert(want_body.take(k as int) =~= before.push(rm));
    }
    assert(want_body.take(table.rows@.len() as int) =~= want_body);
    let mut widths = natural_widths(&header, &body, columns);
    let c = columns as u128;
    let overhead: u128 = 3 * c + 1;
    let w = width as u128;
    let a: u128 = if w > overhead {
        w - overhead
    } else {
        0
    };
    let floor: u128 = c * 4;
    let avail = if a > floor {
        a
    } else {
        floor
    };
    assert(avail as int == available_width(width as int, columns as int));
    shrink_widths(&mut widths, avail);
    let ghost wm = widths_model(widths@);
    assert(wm == table_widths(*table, *theme, width as int));
    let ghost base = line_models(out@);
    let top = edge(&widths, '\u{256d}', '\u{252c}', '\u{256e}', theme, width);
    let ghost tm = top@;
    out.push(top);
    assert(line_models(out@) =~= base.push(tm));
    emit_row(&header, &widths, &table.alignments, theme, width, out);
    let mid = edge(&widths, '\u{251c}', '\u{253c}', '\u{2524}', theme, width);
    let ghost mm = mid@;
    let ghost before_mid = line_models(out@);
    out.push(mid);
    assert(line_models(out@) =~= before_mid.push(mm));
    let ghost after_mid = line_models(out@);
    let ghost bm = body_model(body@);
    let mut k: usize = 0;
    assert(bm.take(0) =~= Seq::<Seq<Seq<StyledRun>>>::empty());
    assert(line_models(out@) =~= after_mid + body_lines(bm.take(0), wm, table.alignments@, *theme, width as int));
    while k < body.len()
        invariant
            k <= body@.len(),
            bm == body_model(body@),
            wm == widths_model(widths@),
            widths@.len() == columns,
            columns >= 1,
            forall|j: int| 0 <= j < body@.len() ==> (#[trigger] body@[j])@.len() == columns,
            line_models(out@) == after_mid + body_lines(bm.take(k as int), wm, table.alignments@, *theme, width as int),
        decreases body@.len() - k,
    {
        assert(bm.take(k + 1).drop_last() =~= bm.take(k as int));
        assert(bm[k as int] == span_rows(body@[k as int]@));
        let ghost before = line_models(out@);
        emit_row(&body[k], &widths, &table.alignments, theme, width, out);
        k = k + 1;
        assert(line_models(out@) =~= after_mid + body_lines(bm.take(k as int), wm, table.alignments@, *theme, width as int));
    }
    assert(bm.take(body@.len() as int) =~= bm);
    let bottom = edge(&widths, '\u{2570}', '\u{2534}', '\u{256f}', theme, width);
    let ghost botm = bottom@;
    let ghost before_bottom = line_models(out@);
    out.push(bottom);
    assert(line_models(out@) =~= before_bottom.push(botm));
    assert(line_models(out@) =~= base + table_lines(*table, *theme, width as int));
}

proof fn lemma_run_texts_cat(a: Seq<StyledRun>, b: Seq<StyledRun>)
    ensures
        run_texts(a + b) == run_texts(a) + run_texts(b),
    decreases b.len(),
{
    if b.len() == 0 {
        assert(a + b =~= a);
        assert(run_texts(a) + run_texts(b) =~= run_texts(a));
    } else {
        assert((a + b).drop_last() =~= a + b.drop_last());
        assert((a + b).last() == b.last());
        lemma_run_texts_cat(a, b.drop_last());
        assert(run_texts(a + b) =~= run_texts(a) + run_texts(b));
    }
}

/// A cell's line sits in its column as the column's alignment says: the
/// column's free width `pad` goes after the text for a left column,
/// before it for a right column, and is split for a centered one, the
/// smaller half (`pad / 2`, rounded down) before the text and the rest
/// after; cells after the first are set off by ` │ `.
pub proof fn law_cells_sit_where_their_alignment_says(
    wrapped: Seq<Seq<StyledLine>>,
    widths: Seq<int>,
    aligns: Seq<TableAlign>,
    i: int,
    li: int,
    b: Style,
)
    requires
        0 <= i < wrapped.len(),
        i < widths.len(),
        0 <= li,
    ensures
        ({
            let has_line = 0 <= li < wrapped[i].len();
            let text = if has_line { run_texts(wrapped[i][li].spans) } else { Seq::empty() };
            let used = if has_line { line_width(wrapped[i][li]) as int } else { 0 };
            let pad = if widths[i] > used { widths[i] - used } else { 0 };
            let align = if i < aligns.len() { aligns[i] } else { TableAlign::Left };
            let lead = match align {
                TableAlign::Left => 0,
                TableAlign::Right => pad,
                TableAlign::Center => pad / 2,
            };
            let sep = if i > 0 { " \u{2502} "@ } else { Seq::empty() };
            &&& run_texts(cell_part(wrapped, widths, aligns, i, li, b)) == sep + spaces(lead) + text + spaces(
                pad - lead,
            )
            &&& 0 <= lead <= pad
        }),
{
    let has_line = 0 <= li < wrapped[i].len();
    let content = if li < wrapped[i].len() { wrapped[i][li].spans } else { Seq::empty() };
    let used = if li < wrapped[i].len() { line_width(wrapped[i][li]) as int } else { 0 };
    let pad = if widths[i] - used < 0 { 0 } else { widths[i] - used };
    let align = if i < aligns.len() { aligns[i] } else { TableAlign::Left };
    let before = match align {
        TableAlign::Left => 0,
        TableAlign::Right => pad,
        TableAlign::Center => pad / 2,
    };
    let after = pad - before;
    let sep_runs = if i > 0 {
        seq![run(" "@, default_style()), run("\u{2502}"@, b), run(" "@, default_style())]
    } else {
        Seq::<StyledRun>::empty()
    };
    let before_runs = if before > 0 { seq![run(spaces(before), default_style())] } else { Seq::<StyledRun>::empty() };
    let after_runs = if after > 0 { seq![run(spaces(after), default_style())] } else { Seq::<StyledRun>::empty() };
    assert(cell_part(wrapped, widths, aligns, i, li, b) == sep_runs + before_runs + content + after_runs);
    lemma_run_texts_cat(sep_runs + before_runs + content, after_runs);
    lemma_run_texts_cat(sep_runs + before_runs, content);
    lemma_run_texts_cat(sep_runs, before_runs);
    reveal_with_fuel(run_texts, 4);
    reveal_strlit(" ");
    reveal_strlit("\u{2502}");
    reveal_strlit(" \u{2502} ");
    if i > 0 {
        assert(sep_runs.drop_last().drop_last().drop_last() =~= Seq::<StyledRun>::empty());
        assert(run_texts(sep_runs) =~= " \u{2502} "@);
    } else {
        assert(run_texts(sep_runs) =~= Seq::<char>::empty());
    }
    if before > 0 {
        assert(before_runs.drop_last() =~= Seq::<StyledRun>::empty());
        assert(run_texts(before_runs) =~= spaces(before));
    } else {
        assert(run_texts(before_runs) =~= spaces(before));
    }
    if after > 0 {
        assert(after_runs.drop_last() =~= Seq::<StyledRun>::empty());
        assert(run_texts(after_runs) =~= spaces(after));
    } else {
        assert(run_texts(after_runs) =~= spaces(after));
    }
    assert(run_texts(cell_part(wrapped, widths, aligns, i, li, b)) =~= run_texts(sep_runs) + spaces(before)
        + (if has_line { run_texts(wrapped[i][li].spans) } else { Seq::empty() }) + spaces(after));
}

} // verus!
