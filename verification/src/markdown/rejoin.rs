//! Joining slides back together: the slides a split finds, written out
//! again with `---` lines between them, split into the same slides.
use vstd::prelude::*;

use super::splitter::{
    close_from, has_frontmatter, push_slide_spec, scan_from, scan_step, spec_closed_by, spec_opened_by,
    spec_split, Fence, ScanState, SpecRawSlide, SpecSplit,
};
use crate::text::{
    all_ws, is_three, is_ws, join_lines, lines, lines_from, run_end, strip_cr, trim, trim_end,
    trim_start, ws_end, ws_start_back,
};

verus! {

// ---------------------------------------------------------------------
// Lines of joined text
/// No line holds a line break.
pub open spec fn lines_clean(ls: Seq<Seq<char>>) -> bool {
    forall|i: int| 0 <= i < ls.len() ==> !(#[trigger] ls[i]).contains('\n')
}

/// `l` ends with a carriage return.
pub open spec fn ends_cr(l: Seq<char>) -> bool {
    l.len() > 0 && l.last() == '\r'
}

proof fn lemma_lines_from_clean(s: Seq<char>, i: int, done: Seq<Seq<char>>, cur: Seq<char>)
    requires
        lines_clean(done),
        !cur.contains('\n'),
    ensures
        lines_clean(lines_from(s, i, done, cur)),
    decreases s.len() - i,
{
    if 0 <= i < s.len() {
        if s[i] == '\n' {
            assert(!strip_cr(cur).contains('\n')) by {
                if strip_cr(cur).contains('\n') {
                    let j = choose|j: int| 0 <= j < strip_cr(cur).len() && strip_cr(cur)[j] == '\n';
                    assert(cur[j] == '\n');
                }
            }
            lemma_lines_from_clean(s, i + 1, done.push(strip_cr(cur)), Seq::empty());
        } else {
            assert(!cur.push(s[i]).contains('\n')) by {
                if cur.push(s[i]).contains('\n') {
                    let j = choose|j: int| 0 <= j < cur.push(s[i]).len() && cur.push(s[i])[j] == '\n';
                    if j < cur.len() {
                        assert(cur[j] == '\n');
                    }
                }
            }
            lemma_lines_from_clean(s, i + 1, done, cur.push(s[i]));
        }
    } else {
        if cur.len() > 0 {
            assert forall|j: int| 0 <= j < done.push(cur).len() implies !(#[trigger] done.push(cur)[j]).contains('\n') by {
                if j < done.len() {
                    assert(done.push(cur)[j] == done[j]);
                }
            }
        }
    }
}

/// The lines of any text hold no line break.
pub proof fn lemma_lines_clean(s: Seq<char>)
    ensures
        lines_clean(lines(s)),
{
    lemma_lines_from_clean(s, 0, Seq::empty(), Seq::empty());
}

/// Reading a text from `|p| + j` is reading its tail `q` from `j`.
proof fn lemma_lines_from_shift(p: Seq<char>, q: Seq<char>, j: int, done: Seq<Seq<char>>, cur: Seq<char>)
    requires
        0 <= j <= q.len(),
    ensures
        lines_from(p + q, p.len() + j, done, cur) == lines_from(q, j, done, cur),
    decreases q.len() - j,
{
    if j < q.len() {
        assert((p + q)[p.len() + j] == q[j]);
        if q[j] == '\n' {
            lemma_lines_from_shift(p, q, j + 1, done.push(strip_cr(cur)), Seq::empty());
        } else {
            lemma_lines_from_shift(p, q, j + 1, done, cur.push(q[j]));
        }
    }
}

/// Characters without a line break join the partial line.
proof fn lemma_lines_from_word(s: Seq<char>, x: Seq<char>, j: int, done: Seq<Seq<char>>, cur: Seq<char>)
    requires
        0 <= j <= x.len() <= s.len(),
        s.take(x.len() as int) == x,
        !x.contains('\n'),
    ensures
        lines_from(s, j, done, cur + x.take(j)) == lines_from(s, x.len() as int, done, cur + x),
    decreases x.len() - j,
{
    if j < x.len() {
        assert(s[j] == x[j]);
        if s[j] == '\n' {
            assert(x.contains('\n'));
        }
        assert((cur + x.take(j)).push(s[j]) =~= cur + x.take(j + 1));
        lemma_lines_from_word(s, x, j + 1, done, cur);
    } else {
        assert(x.take(j) =~= x);
    }
}

/// `join_lines` from the front.
proof fn lemma_join_front(ls: Seq<Seq<char>>)
    requires
        ls.len() >= 2,
    ensures
        join_lines(ls) == ls[0] + seq!['\n'] + join_lines(ls.skip(1)),
    decreases ls.len(),
{
    if ls.len() == 2 {
        assert(ls.drop_last() =~= seq![ls[0]]);
        assert(ls.skip(1) =~= seq![ls[1]]);
        assert(join_lines(ls.drop_last()) == ls[0]);
        assert(join_lines(ls.skip(1)) == ls[1]);
        assert(join_lines(ls) =~= ls[0] + seq!['\n'] + join_lines(ls.skip(1)));
    } else {
        lemma_join_front(ls.drop_last());
        let r = ls.skip(1);
        assert(ls.drop_last().skip(1) =~= r.drop_last());
        assert(r.last() == ls.last());
        assert(ls.drop_last()[0] == ls[0]);
        assert(join_lines(r) == join_lines(r.drop_last()) + seq!['\n'] + r.last());
        assert(join_lines(ls) =~= ls[0] + seq!['\n'] + join_lines(r));
    }
}

/// Joined lines read back as themselves when no line holds a line break,
/// none but the last ends with a carriage return, and the last is not
/// empty.
pub proof fn lemma_lines_of_join(ls: Seq<Seq<char>>, done: Seq<Seq<char>>)
    requires
        ls.len() > 0,
        lines_clean(ls),
        forall|i: int| 0 <= i < ls.len() - 1 ==> !ends_cr(#[trigger] ls[i]),
        ls.last().len() > 0,
    ensures
        lines_from(join_lines(ls), 0, done, Seq::empty()) == done + ls,
    decreases ls.len(),
{
    let s = join_lines(ls);
    let x = ls[0];
    assert(!(ls[0]).contains('\n'));
    if ls.len() == 1 {
        assert(s == x);
        assert(s.take(x.len() as int) =~= x);
        assert(Seq::<char>::empty() + x.take(0) =~= Seq::<char>::empty());
        lemma_lines_from_word(s, x, 0, done, Seq::empty());
        assert(Seq::<char>::empty() + x =~= x);
        assert(done + ls =~= done.push(x));
    } else {
        lemma_join_front(ls);
        let rest = ls.skip(1);
        let p = x + seq!['\n'];
        assert(s =~= p + join_lines(rest));
        assert(s.take(x.len() as int) =~= x);
        assert(Seq::<char>::empty() + x.take(0) =~= Seq::<char>::empty());
        lemma_lines_from_word(s, x, 0, done, Seq::empty());
        assert(Seq::<char>::empty() + x =~= x);
        assert(s[x.len() as int] == '\n');
        assert(!ends_cr(ls[0]));
        assert(strip_cr(x) == x);
        lemma_lines_from_shift(p, join_lines(rest), 0, done.push(x), Seq::empty());
        assert forall|i: int| 0 <= i < rest.len() implies !(#[trigger] rest[i]).contains('\n') by {
            assert(rest[i] == ls[i + 1]);
        }
        assert forall|i: int| 0 <= i < rest.len() - 1 implies !ends_cr(#[trigger] rest[i]) by {
            assert(rest[i] == ls[i + 1]);
        }
        lemma_lines_of_join(rest, done.push(x));
        assert(done.push(x) + rest =~= done + ls);
    }
}

// ---------------------------------------------------------------------
// The line scan, piece by piece
/// The open fence after one more line.
pub open spec fn fence_step(f: Option<Fence>, line: Seq<char>) -> Option<Fence> {
    match f {
        Some(g) => if spec_closed_by(g, line) {
            None
        } else {
            f
        },
        None => spec_opened_by(line),
    }
}

/// `line` separates slides when the fence state is `f`.
pub open spec fn is_cut(f: Option<Fence>, line: Seq<char>) -> bool {
    f is None && spec_opened_by(line) is None && is_three(trim(line), '-')
}

/// The open fence after the lines `ls`, starting outside any fence.
pub open spec fn fence_after(ls: Seq<Seq<char>>) -> Option<Fence>
    decreases ls.len(),
{
    if ls.len() == 0 {
        None
    } else {
        fence_step(fence_after(ls.drop_last()), ls.last())
    }
}

/// No line of `ls` separates slides, scanning from outside any fence.
pub open spec fn cut_free(ls: Seq<Seq<char>>) -> bool
    decreases ls.len(),
{
    ls.len() == 0 || (cut_free(ls.drop_last()) && !is_cut(fence_after(ls.drop_last()), ls.last()))
}

/// Scanning lines that cut nothing only collects them.
proof fn lemma_scan_through(ls: Seq<Seq<char>>, k: int, piece: Seq<Seq<char>>, st: ScanState)
    requires
        0 <= k,
        k + piece.len() <= ls.len(),
        ls.subrange(k, k + piece.len()) == piece,
        cut_free(piece),
        st.fence is None,
    ensures
        scan_from(ls, k, st) == scan_from(
            ls,
            k + piece.len(),
            ScanState {
                fence: fence_after(piece),
                slides: st.slides,
                current: st.current + piece,
                start_line: st.start_line,
            },
        ),
    decreases piece.len(),
{
    if piece.len() == 0 {
        assert(st.current + piece =~= st.current);
    } else {
        let p1 = piece.drop_last();
        assert(ls.subrange(k, k + p1.len()) =~= p1);
        lemma_scan_through(ls, k, p1, st);
        let mid = ScanState {
            fence: fence_after(p1),
            slides: st.slides,
            current: st.current + p1,
            start_line: st.start_line,
        };
        let j = k + p1.len();
        assert(ls[j] == piece[piece.len() - 1]);
        assert((st.current + p1).push(ls[j]) =~= st.current + piece);
        assert(scan_step(mid, ls[j], j) == ScanState {
            fence: fence_after(piece),
            slides: st.slides,
            current: st.current + piece,
            start_line: st.start_line,
        });
    }
}

/// A separator line outside any fence closes the slide being collected.
proof fn lemma_scan_cut(ls: Seq<Seq<char>>, j: int, st: ScanState)
    requires
        0 <= j < ls.len(),
        is_cut(st.fence, ls[j]),
    ensures
        scan_from(ls, j, st) == scan_from(
            ls,
            j + 1,
            ScanState {
                fence: None,
                slides: push_slide_spec(st.slides, st.current, st.start_line),
                current: Seq::empty(),
                start_line: j + 2,
            },
        ),
{
}

/// A slide whose text joins lines that cut nothing and leave no fence open.
pub open spec fn closed_piece(sl: SpecRawSlide) -> bool {
    exists|ls: Seq<Seq<char>>|
        lines_clean(ls) && cut_free(ls) && fence_after(ls) is None && #[trigger] join_lines(ls) == sl.content
}

/// What the scan keeps: the lines being collected cut nothing and leave
/// the fence as the scan has it; every slide so far is a closed piece and
/// not blank.
pub open spec fn scan_inv(st: ScanState) -> bool {
    &&& lines_clean(st.current)
    &&& cut_free(st.current)
    &&& fence_after(st.current) == st.fence
    &&& forall|j: int| 0 <= j < st.slides.len() ==> closed_piece(#[trigger] st.slides[j])
    &&& forall|j: int| 0 <= j < st.slides.len() ==> !all_ws(#[trigger] st.slides[j].content)
}

proof fn lemma_scan_inv(ls: Seq<Seq<char>>, k: int, st: ScanState)
    requires
        lines_clean(ls),
        scan_inv(st),
    ensures
        scan_inv(scan_from(ls, k, st)),
    decreases ls.len() - k,
{
    if 0 <= k < ls.len() {
        let line = ls[k];
        assert(!line.contains('\n'));
        let n = scan_step(st, line, k);
        let cur = st.current.push(line);
        assert(cur.drop_last() =~= st.current);
        if is_cut(st.fence, line) {
            assert(n.current =~= Seq::<Seq<char>>::empty());
            assert(fence_after(n.current) is None);
            let content = join_lines(st.current);
            if !all_ws(content) {
                let sl = SpecRawSlide { content, line: st.start_line };
                assert(n.slides == st.slides.push(sl));
                assert(closed_piece(sl));
                assert forall|j: int| 0 <= j < n.slides.len() implies closed_piece(#[trigger] n.slides[j]) by {
                    if j < st.slides.len() {
                        assert(n.slides[j] == st.slides[j]);
                    }
                }
                assert forall|j: int| 0 <= j < n.slides.len() implies !all_ws(#[trigger] n.slides[j].content) by {
                    if j < st.slides.len() {
                        assert(n.slides[j] == st.slides[j]);
                    }
                }
            }
            assert(lines_clean(n.current));
        } else {
            assert(n.current == cur);
            assert(n.slides == st.slides);
            assert(n.fence == fence_step(st.fence, line));
            assert forall|i: int| 0 <= i < cur.len() implies !(#[trigger] cur[i]).contains('\n') by {
                if i < st.current.len() {
                    assert(cur[i] == st.current[i]);
                }
            }
        }
        assert(scan_inv(n));
        lemma_scan_inv(ls, k + 1, n);
    }
}

// ---------------------------------------------------------------------
// Writing slides out again
/// The separator line.
pub open spec fn dashes() -> Seq<char> {
    seq!['-', '-', '-']
}

/// Slide texts written out with a `---` line between neighbors.
pub open spec fn join_slides(cs: Seq<Seq<char>>) -> Seq<char>
    decreases cs.len(),
{
    if cs.len() == 0 {
        Seq::empty()
    } else if cs.len() == 1 {
        cs[0]
    } else {
        join_slides(cs.drop_last()) + seq!['\n', '-', '-', '-', '\n'] + cs.last()
    }
}

/// The texts of a split's slides.
pub open spec fn slide_texts(sp: SpecSplit) -> Seq<Seq<char>> {
    sp.slides.map_values(|r: SpecRawSlide| r.content)
}

/// No carriage return comes right before a line feed.
pub open spec fn crlf_free(c: Seq<char>) -> bool {
    forall|p: int| 0 <= p < c.len() - 1 ==> !(#[trigger] c[p] == '\r' && c[p + 1] == '\n')
}

/// Slide texts that read back as themselves once written out: a line
/// break never follows a carriage return (reading drops it), no slide but
/// the last ends with one, and the last slide does not end with a line
/// break (a final line break ends the file instead).
pub open spec fn rejoinable(cs: Seq<Seq<char>>) -> bool {
    &&& forall|i: int| 0 <= i < cs.len() ==> crlf_free(#[trigger] cs[i])
    &&& forall|i: int| 0 <= i < cs.len() - 1 ==> !ends_cr(#[trigger] cs[i])
    &&& cs.len() > 0 ==> !(cs.last().len() > 0 && cs.last().last() == '\n')
}

/// Pieces of lines with a separator line between neighbors.
pub open spec fn glue(pieces: Seq<Seq<Seq<char>>>) -> Seq<Seq<char>>
    decreases pieces.len(),
{
    if pieces.len() == 0 {
        Seq::empty()
    } else if pieces.len() == 1 {
        pieces[0]
    } else {
        glue(pieces.drop_last()).push(dashes()) + pieces.last()
    }
}

proof fn lemma_join_cat(a: Seq<Seq<char>>, b: Seq<Seq<char>>)
    requires
        a.len() > 0,
        b.len() > 0,
    ensures
        join_lines(a + b) == join_lines(a) + seq!['\n'] + join_lines(b),
    decreases b.len(),
{
    if b.len() == 1 {
        assert((a + b).drop_last() =~= a);
        assert((a + b).last() == b[0]);
    } else {
        let b1 = b.drop_last();
        assert((a + b).drop_last() =~= a + b1);
        assert((a + b).last() == b.last());
        lemma_join_cat(a, b1);
        assert(join_lines(a + b) =~= join_lines(a) + seq!['\n'] + join_lines(b));
    }
}

/// The last character of joined lines is that of the last line.
proof fn lemma_join_last(ls: Seq<Seq<char>>)
    requires
        ls.len() > 0,
    ensures
        ls.last().len() > 0 ==> join_lines(ls).len() > 0 && join_lines(ls).last() == ls.last().last(),
        ls.last().len() == 0 && ls.len() >= 2 ==> join_lines(ls).len() > 0 && join_lines(ls).last() == '\n',
        ls.last().len() == 0 && ls.len() == 1 ==> join_lines(ls).len() == 0,
{
}

/// A line of joined text that ends with a carriage return is followed by
/// a line feed.
proof fn lemma_join_crlf(ls: Seq<Seq<char>>)
    requires
        ls.len() > 0,
        crlf_free(join_lines(ls)),
    ensures
        forall|j: int| 0 <= j < ls.len() - 1 ==> !ends_cr(#[trigger] ls[j]),
    decreases ls.len(),
{
    if ls.len() >= 2 {
        let l1 = ls.drop_last();
        let a = join_lines(l1);
        let s = join_lines(ls);
        assert(s == a + seq!['\n'] + ls.last());
        assert(crlf_free(a)) by {
            assert forall|p: int| 0 <= p < a.len() - 1 implies !(#[trigger] a[p] == '\r' && a[p + 1] == '\n') by {
                assert(s[p] == a[p] && s[p + 1] == a[p + 1]);
            }
        }
        lemma_join_crlf(l1);
        lemma_join_last(l1);
        assert forall|j: int| 0 <= j < ls.len() - 1 implies !ends_cr(#[trigger] ls[j]) by {
            assert(ls[j] == l1[j]);
            if j == ls.len() - 2 && ends_cr(ls[j]) {
                assert(s[a.len() - 1] == '\r');
                assert(s[a.len() as int] == '\n');
            }
        }
    }
}

/// What the glued pieces are: their lines, joined, are the slides written
/// out; no line breaks inside lines; carriage returns only where allowed.
proof fn lemma_glue(pieces: Seq<Seq<Seq<char>>>, cs: Seq<Seq<char>>)
    requires
        pieces.len() > 0,
        cs.len() == pieces.len(),
        forall|i: int| 0 <= i < pieces.len() ==> (#[trigger] pieces[i]).len() > 0,
        forall|i: int| 0 <= i < pieces.len() ==> lines_clean(#[trigger] pieces[i]),
        forall|i: int| 0 <= i < pieces.len() ==> join_lines(#[trigger] pieces[i]) == cs[i],
        forall|i: int, j: int|
            0 <= i < pieces.len() && 0 <= j < pieces[i].len() && (i < pieces.len() - 1 || j < pieces[i].len() - 1)
                ==> !ends_cr(#[trigger] pieces[i][j]),
    ensures
        glue(pieces).len() > 0,
        glue(pieces).last() == pieces.last().last(),
        lines_clean(glue(pieces)),
        forall|j: int| 0 <= j < glue(pieces).len() - 1 ==> !ends_cr(#[trigger] glue(pieces)[j]),
        join_lines(glue(pieces)) == join_slides(cs),
    decreases pieces.len(),
{
    let g = glue(pieces);
    if pieces.len() == 1 {
        assert(g == pieces[0]);
        assert(join_slides(cs) == cs[0]);
        assert forall|j: int| 0 <= j < g.len() - 1 implies !ends_cr(#[trigger] g[j]) by {
            assert(g[j] == pieces[0][j]);
        }
    } else {
        let p1 = pieces.drop_last();
        let c1 = cs.drop_last();
        let last = pieces.last();
        assert forall|i: int, j: int|
            0 <= i < p1.len() && 0 <= j < p1[i].len() && (i < p1.len() - 1 || j < p1[i].len() - 1)
                implies !ends_cr(#[trigger] p1[i][j]) by {
            assert(p1[i] == pieces[i]);
        }
        lemma_glue(p1, c1);
        let g1 = glue(p1);
        let gd = g1.push(dashes());
        assert(g == gd + last);
        assert(last == pieces[pieces.len() - 1]);
        assert(g1.last() == p1.last().last());
        assert(!ends_cr(g1.last())) by {
            let i = p1.len() - 1;
            assert(p1[i] == pieces[i]);
            assert(!ends_cr(pieces[i][pieces[i].len() - 1]));
        }
        assert forall|j: int| 0 <= j < g.len() implies !(#[trigger] g[j]).contains('\n') by {
            if j < g1.len() {
                assert(g[j] == g1[j]);
            } else if j == g1.len() {
                assert(g[j] == dashes());
                if dashes().contains('\n') {
                    let q = choose|q: int| 0 <= q < dashes().len() && dashes()[q] == '\n';
                }
            } else {
                assert(g[j] == last[j - g1.len() - 1]);
            }
        }
        assert forall|j: int| 0 <= j < g.len() - 1 implies !ends_cr(#[trigger] g[j]) by {
            if j < g1.len() - 1 {
                assert(g[j] == g1[j]);
            } else if j == g1.len() - 1 {
                assert(g[j] == g1.last());
            } else if j == g1.len() {
                assert(g[j] == dashes());
            } else {
                let q = j - g1.len() - 1;
                assert(g[j] == last[q]);
                assert(!ends_cr(pieces[pieces.len() - 1][q]));
            }
        }
        lemma_join_cat(g1, seq![dashes()]);
        assert(g1 + seq![dashes()] =~= gd);
        assert(join_lines(seq![dashes()]) == dashes());
        lemma_join_cat(gd, last);
        assert(cs.last() == join_lines(last));
        assert(join_slides(cs) == join_slides(c1) + seq!['\n', '-', '-', '-', '\n'] + cs.last());
        assert(join_lines(g) =~= join_slides(cs));
    }
}

/// The glued first pieces are where the glued whole starts.
proof fn lemma_glue_prefix(pieces: Seq<Seq<Seq<char>>>, m: int)
    requires
        1 <= m <= pieces.len(),
    ensures
        glue(pieces.take(m)).len() <= glue(pieces).len(),
        glue(pieces).take(glue(pieces.take(m)).len() as int) == glue(pieces.take(m)),
    decreases pieces.len() - m,
{
    if m == pieces.len() {
        assert(pieces.take(m) =~= pieces);
        assert(glue(pieces).take(glue(pieces).len() as int) =~= glue(pieces));
    } else {
        lemma_glue_prefix(pieces, m + 1);
        let a = pieces.take(m);
        let b = pieces.take(m + 1);
        assert(b.drop_last() =~= a);
        assert(glue(b) == glue(a).push(dashes()) + b.last());
        assert(glue(pieces).take(glue(a).len() as int) =~= glue(b).take(glue(a).len() as int));
        assert(glue(b).take(glue(a).len() as int) =~= glue(a));
    }
}

/// Where piece `t` starts among the glued lines.
pub open spec fn piece_start(pieces: Seq<Seq<Seq<char>>>, t: int) -> int {
    if t == 0 {
        0
    } else {
        glue(pieces.take(t)).len() + 1int
    }
}

/// Piece `t` stands at its start, and a separator line follows it unless
/// it is the last.
proof fn lemma_piece_at(pieces: Seq<Seq<Seq<char>>>, t: int)
    requires
        0 <= t < pieces.len(),
    ensures
        piece_start(pieces, t) + pieces[t].len() == glue(pieces.take(t + 1)).len(),
        glue(pieces.take(t + 1)).len() <= glue(pieces).len(),
        glue(pieces).subrange(piece_start(pieces, t), piece_start(pieces, t) + pieces[t].len()) == pieces[t],
        t < pieces.len() - 1 ==> glue(pieces.take(t + 1)).len() < glue(pieces).len() && glue(pieces)[glue(
            pieces.take(t + 1),
        ).len() as int] == dashes(),
{
    let m = glue(pieces);
    let b = pieces.take(t + 1);
    lemma_glue_prefix(pieces, t + 1);
    let g = glue(b);
    if t == 0 {
        assert(g == b[0]);
        assert(b[0] == pieces[0]);
    } else {
        assert(b.drop_last() =~= pieces.take(t));
        assert(g == glue(pieces.take(t)).push(dashes()) + pieces[t]);
    }
    assert(m.subrange(piece_start(pieces, t), piece_start(pieces, t) + pieces[t].len()) =~= g.subrange(
        piece_start(pieces, t),
        g.len() as int,
    ));
    assert(g.subrange(piece_start(pieces, t), g.len() as int) =~= pieces[t]);
    if t < pieces.len() - 1 {
        lemma_glue_prefix(pieces, t + 2);
        let b2 = pieces.take(t + 2);
        assert(b2.drop_last() =~= b);
        let g2 = glue(b2);
        assert(g2 == g.push(dashes()) + b2.last());
        assert(g2[g.len() as int] == dashes());
        assert(m[g.len() as int] == g2[g.len() as int]);
    }
}

/// The separator line separates.
proof fn lemma_dashes_cut()
    ensures
        is_cut(None, dashes()),
{
    let d = dashes();
    assert(run_end(d, ' ', 0) == 0);
    assert(ws_start_back(d, 3) == 3);
    assert(d.take(3) =~= d);
    assert(ws_end(d, 0) == 0);
    assert(d.skip(0) =~= d);
}

proof fn lemma_ws_start_back_le(s: Seq<char>, n: int)
    requires
        0 <= n,
    ensures
        0 <= ws_start_back(s, n) <= n,
    decreases n,
{
    if 0 < n <= s.len() && is_ws(s[n - 1]) {
        lemma_ws_start_back_le(s, n - 1);
    }
}

/// A line that reads as a frontmatter fence would separate slides.
proof fn lemma_fence_line_cuts(x: Seq<char>)
    requires
        is_three(trim_end(x), '-'),
    ensures
        is_cut(None, x),
{
    let t = trim_end(x);
    lemma_ws_start_back_le(x, x.len() as int);
    assert(t[0] == x[0]);
    assert(ws_end(t, 0) == 0);
    assert(t.skip(0) =~= t);
    assert(trim(x) == t);
    assert(run_end(x, ' ', 0) == 0);
    assert(run_end(x, '-', 0) == run_end(x, '-', 1));
}

/// The first line of a piece that cuts nothing does not cut.
proof fn lemma_cut_free_first(ls: Seq<Seq<char>>)
    requires
        cut_free(ls),
        ls.len() > 0,
    ensures
        !is_cut(None, ls[0]),
    decreases ls.len(),
{
    if ls.len() > 1 {
        lemma_cut_free_first(ls.drop_last());
    }
}

/// A piece for slide text `c`, the `i`th of `n`: lines that cut nothing
/// and join to `c`, leaving no fence open unless the piece comes last.
pub open spec fn piece_for(ls: Seq<Seq<char>>, c: Seq<char>, i: int, n: int) -> bool {
    &&& lines_clean(ls)
    &&& cut_free(ls)
    &&& join_lines(ls) == c
    &&& i < n - 1 ==> fence_after(ls) is None
}

/// Some piece stands for slide text `c`, the `i`th of `n`.
pub open spec fn has_piece(c: Seq<char>, i: int, n: int) -> bool {
    exists|q: Seq<Seq<char>>| #[trigger] piece_for(q, c, i, n)
}

/// Scanning the glued pieces cuts one slide per piece.
proof fn lemma_rescan(pieces: Seq<Seq<Seq<char>>>, cs: Seq<Seq<char>>, t: int) -> (sl: Seq<SpecRawSlide>)
    requires
        cs.len() == pieces.len(),
        0 <= t < pieces.len(),
        forall|i: int| 0 <= i < pieces.len() ==> #[trigger] piece_for(pieces[i], cs[i], i, pieces.len() as int),
        forall|i: int| 0 <= i < cs.len() ==> !all_ws(#[trigger] cs[i]),
    ensures
        scan_from(glue(pieces), 0, ScanState { fence: None, slides: Seq::empty(), current: Seq::empty(), start_line: 1 })
            == scan_from(
            glue(pieces),
            piece_start(pieces, t),
            ScanState {
                fence: None,
                slides: sl,
                current: Seq::empty(),
                start_line: piece_start(pieces, t) + 1,
            },
        ),
        sl.map_values(|r: SpecRawSlide| r.content) == cs.take(t),
    decreases t,
{
    let m = glue(pieces);
    if t == 0 {
        assert(Seq::<SpecRawSlide>::empty().map_values(|r: SpecRawSlide| r.content) =~= cs.take(0));
        Seq::empty()
    } else {
        let s0 = lemma_rescan(pieces, cs, t - 1);
        let p = pieces[t - 1];
        assert(piece_for(p, cs[t - 1], t - 1, pieces.len() as int));
        let st0 = ScanState {
            fence: None,
            slides: s0,
            current: Seq::empty(),
            start_line: piece_start(pieces, t - 1) + 1,
        };
        lemma_piece_at(pieces, t - 1);
        lemma_scan_through(m, piece_start(pieces, t - 1), p, st0);
        let e = glue(pieces.take(t)).len() as int;
        assert(Seq::<Seq<char>>::empty() + p =~= p);
        let st1 = ScanState {
            fence: fence_after(p),
            slides: s0,
            current: p,
            start_line: piece_start(pieces, t - 1) + 1,
        };
        lemma_dashes_cut();
        lemma_scan_cut(m, e, st1);
        let sl = s0.push(SpecRawSlide { content: cs[t - 1], line: piece_start(pieces, t - 1) + 1 });
        assert(push_slide_spec(s0, p, piece_start(pieces, t - 1) + 1) == sl);
        assert(piece_start(pieces, t) == e + 1);
        assert(sl.map_values(|r: SpecRawSlide| r.content) =~= s0.map_values(|r: SpecRawSlide| r.content).push(cs[t - 1]));
        assert(cs.take(t) =~= cs.take(t - 1).push(cs[t - 1]));
        sl
    }
}

/// Writing out the slides a split finds, with a `---` line between
/// neighbors, and splitting that again gives back the same slides, and no
/// frontmatter; for slide texts that read back as themselves (see
/// [`rejoinable`]).
#[verifier::rlimit(80)]
pub proof fn law_rejoined_slides_split_back(src: Seq<char>)
    requires
        spec_split(src) is Some,
        slide_texts(spec_split(src).unwrap()).len() > 0,
        rejoinable(slide_texts(spec_split(src).unwrap())),
    ensures
        spec_split(join_slides(slide_texts(spec_split(src).unwrap()))) is Some,
        spec_split(join_slides(slide_texts(spec_split(src).unwrap()))).unwrap().frontmatter is None,
        slide_texts(spec_split(join_slides(slide_texts(spec_split(src).unwrap()))).unwrap()) == slide_texts(
            spec_split(src).unwrap(),
        ),
{
    let sp = spec_split(src).unwrap();
    let cs = slide_texts(sp);
    let n = cs.len() as int;
    let ls = lines(src);
    lemma_lines_clean(src);
    let close = close_from(ls, 1);
    let idx = if has_frontmatter(ls) { close + 1 } else { 0 };
    let init0 = ScanState { fence: None, slides: Seq::empty(), current: Seq::empty(), start_line: idx + 1 };
    assert(scan_inv(init0));
    let st = scan_from(ls, idx, init0);
    lemma_scan_inv(ls, idx, init0);
    assert(sp.slides == push_slide_spec(st.slides, st.current, st.start_line));
    assert forall|i: int| 0 <= i < n implies !all_ws(#[trigger] cs[i]) by {
        assert(cs[i] == sp.slides[i].content);
        if i < st.slides.len() {
            assert(sp.slides[i] == st.slides[i]);
        }
    }
    assert forall|i: int| 0 <= i < n implies #[trigger] has_piece(cs[i], i, n) by {
        assert(cs[i] == sp.slides[i].content);
        if i < st.slides.len() {
            assert(sp.slides[i] == st.slides[i]);
            assert(closed_piece(st.slides[i]));
            let q = choose|q: Seq<Seq<char>>|
                lines_clean(q) && cut_free(q) && fence_after(q) is None && #[trigger] join_lines(q)
                    == st.slides[i].content;
            assert(piece_for(q, cs[i], i, n));
        } else {
            assert(piece_for(st.current, cs[i], i, n));
        }
        assert(has_piece(cs[i], i, n));
    }
    let pieces = Seq::new(n as nat, |i: int| choose|q: Seq<Seq<char>>| #[trigger] piece_for(q, cs[i], i, n));
    assert forall|i: int| 0 <= i < n implies #[trigger] piece_for(pieces[i], cs[i], i, n) by {
        assert(has_piece(cs[i], i, n));
    }
    assert forall|i: int| 0 <= i < n implies (#[trigger] pieces[i]).len() > 0 by {
        assert(piece_for(pieces[i], cs[i], i, n));
        if pieces[i].len() == 0 {
            assert(join_lines(pieces[i]) =~= Seq::<char>::empty());
            assert(all_ws(cs[i]));
        }
    }
    assert forall|i: int, j: int|
        0 <= i < n && 0 <= j < pieces[i].len() && (i < n - 1 || j < pieces[i].len() - 1)
            implies !ends_cr(#[trigger] pieces[i][j]) by {
        let q = pieces[i];
        assert(piece_for(q, cs[i], i, n));
        assert(crlf_free(cs[i]));
        lemma_join_crlf(q);
        lemma_join_last(q);
        if j == q.len() - 1 {
            assert(!ends_cr(cs[i]));
        }
    }
    let last = pieces[n - 1];
    assert(last.last().len() > 0) by {
        assert(piece_for(last, cs[n - 1], n - 1, n));
        lemma_join_last(last);
        assert(cs.last() == cs[n - 1]);
        if last.last().len() == 0 && last.len() == 1 {
            assert(all_ws(cs[n - 1]));
        }
    }
    assert forall|i: int| 0 <= i < n implies lines_clean(#[trigger] pieces[i]) by {
        assert(piece_for(pieces[i], cs[i], i, n));
    }
    assert forall|i: int| 0 <= i < n implies join_lines(#[trigger] pieces[i]) == cs[i] by {
        assert(piece_for(pieces[i], cs[i], i, n));
    }
    lemma_glue(pieces, cs);
    let m = glue(pieces);
    let joined = join_slides(cs);
    assert(m.last() == last.last());
    lemma_lines_of_join(m, Seq::empty());
    assert(Seq::<Seq<char>>::empty() + m =~= m);
    assert(lines(joined) == m);
    lemma_piece_at(pieces, 0);
    assert(m[0] == pieces[0][0]) by {
        assert(m.subrange(0, pieces[0].len() as int)[0] == m[0]);
    }
    assert(piece_for(pieces[0], cs[0], 0, n));
    lemma_cut_free_first(pieces[0]);
    if has_frontmatter(m) {
        lemma_fence_line_cuts(m[0]);
    }
    assert(!has_frontmatter(m));
    let sl = lemma_rescan(pieces, cs, n - 1);
    lemma_piece_at(pieces, n - 1);
    assert(pieces.take(n) =~= pieces);
    let stn = ScanState {
        fence: None,
        slides: sl,
        current: Seq::empty(),
        start_line: piece_start(pieces, n - 1) + 1,
    };
    assert(piece_for(last, cs[n - 1], n - 1, n));
    lemma_scan_through(m, piece_start(pieces, n - 1), last, stn);
    assert(Seq::<Seq<char>>::empty() + last =~= last);
    let fin = ScanState {
        fence: fence_after(last),
        slides: sl,
        current: last,
        start_line: piece_start(pieces, n - 1) + 1,
    };
    assert(scan_from(m, m.len() as int, fin) == fin);
    let sp2 = spec_split(joined).unwrap();
    assert(sp2.slides == push_slide_spec(sl, last, piece_start(pieces, n - 1) + 1));
    assert(sp2.slides == sl.push(SpecRawSlide { content: cs[n - 1], line: piece_start(pieces, n - 1) + 1 }));
    assert(slide_texts(sp2) =~= sl.map_values(|r: SpecRawSlide| r.content).push(cs[n - 1]));
    assert(cs.take(n - 1).push(cs[n - 1]) =~= cs);
}

} // verus!
