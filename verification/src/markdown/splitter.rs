//! Splits raw `.keynot` source into frontmatter and per-slide chunks.
//!
//! The splitter works on lines, before any markdown parsing:
//!
//! - If the very first line is `---`, everything up to the next `---` (or
//!   `...`, as in YAML) is frontmatter.
//! - After that, any line that is exactly `---` (ignoring surrounding
//!   whitespace) separates slides, unless it appears inside a fenced code
//!   block (``` or ~~~ fences, per CommonMark).
//! - Slides that contain only whitespace are dropped.
//!
//! A slide's source is then cut into columns the same way, at lines that
//! are exactly `|||`; blank columns are dropped.
use vstd::prelude::*;

use super::ParseError;
use crate::text::{
    all_ws, extend_chars, find_run_end, is_blank, is_three, join_lines, lines, lines_from, run_end,
    split_lines, string_of, strip_cr, trim, trim_bounds, trim_end, trimmed_end_is_three,
    trimmed_is_three, views, chars_of,
};

verus! {

/// One slide's raw markdown source.
#[derive(Debug, Clone, PartialEq, Eq)]
pub struct RawSlide {
    /// The markdown source of the slide, without the `---` separators.
    pub content: String,
    /// 1-based line number in the source file where this slide starts.
    pub line: usize,
}

/// The result of splitting a source file.
#[derive(Debug, Clone, PartialEq, Eq, Default)]
pub struct SplitResult {
    /// The YAML text between the frontmatter fences, if present.
    pub frontmatter: Option<String>,
    pub slides: Vec<RawSlide>,
}

/// The mathematical content of a [`RawSlide`].
pub struct SpecRawSlide {
    pub content: Seq<char>,
    pub line: int,
}

/// The mathematical content of a [`SplitResult`].
pub struct SpecSplit {
    pub frontmatter: Option<Seq<char>>,
    pub slides: Seq<SpecRawSlide>,
}

impl View for RawSlide {
    type V = SpecRawSlide;

    open spec fn view(&self) -> SpecRawSlide {
        SpecRawSlide { content: self.content@, line: self.line as int }
    }
}

impl View for SplitResult {
    type V = SpecSplit;

    open spec fn view(&self) -> SpecSplit {
        SpecSplit {
            frontmatter: match self.frontmatter {
                Some(s) => Some(s@),
                None => None,
            },
            slides: self.slides@.map_values(|r: RawSlide| r@),
        }
    }
}

/// An open fenced code block: the fence character and its length.
#[derive(Debug, Clone, Copy, PartialEq, Eq)]
pub struct Fence {
    pub ch: char,
    pub len: usize,
}

/// The fence `l` opens, if any: at most three leading spaces, then a run
/// of at least three backticks or tildes; a backtick fence's info string
/// may not contain a backtick.
pub open spec fn spec_opened_by(l: Seq<char>) -> Option<Fence> {
    let sp = run_end(l, ' ', 0);
    if sp > 3 || sp >= l.len() {
        None
    } else {
        let ch = l[sp];
        let end = run_end(l, ch, sp);
        if ch != '`' && ch != '~' {
            None
        } else if end - sp < 3 {
            None
        } else if ch == '`' && l.skip(end).contains('`') {
            None
        } else {
            Some(Fence { ch, len: (end - sp) as usize })
        }
    }
}

/// `l` closes fence `f`: trimmed, it is a non-empty run of the fence
/// character at least as long as the opener.
pub open spec fn spec_closed_by(f: Fence, l: Seq<char>) -> bool {
    let t = trim(l);
    &&& t.len() > 0
    &&& forall|i: int| 0 <= i < t.len() ==> t[i] == f.ch
    &&& t.len() >= f.len
}

/// The slides so far, plus the pending lines as one more slide unless they
/// are blank.
pub open spec fn push_slide_spec(slides: Seq<SpecRawSlide>, current: Seq<Seq<char>>, line: int) -> Seq<
    SpecRawSlide,
> {
    let content = join_lines(current);
    if all_ws(content) {
        slides
    } else {
        slides.push(SpecRawSlide { content, line })
    }
}

/// The state of the line scan: the open fence, the slides cut so far, the
/// lines of the slide being collected, and where that slide started.
pub struct ScanState {
    pub fence: Option<Fence>,
    pub slides: Seq<SpecRawSlide>,
    pub current: Seq<Seq<char>>,
    pub start_line: int,
}

/// Scan one line, the `k`th (0-based) of the file.
pub open spec fn scan_step(st: ScanState, line: Seq<char>, k: int) -> ScanState {
    let keep = ScanState {
        fence: st.fence,
        slides: st.slides,
        current: st.current.push(line),
        start_line: st.start_line,
    };
    match st.fence {
        Some(f) => if spec_closed_by(f, line) {
            ScanState { fence: None, ..keep }
        } else {
            keep
        },
        None => match spec_opened_by(line) {
            Some(f) => ScanState { fence: Some(f), ..keep },
            None => if is_three(trim(line), '-') {
                ScanState {
                    fence: None,
                    slides: push_slide_spec(st.slides, st.current, st.start_line),
                    current: Seq::empty(),
                    start_line: k + 2,
                }
            } else {
                keep
            },
        },
    }
}

/// Scan lines `k..` of `ls` from state `st`.
pub open spec fn scan_from(ls: Seq<Seq<char>>, k: int, st: ScanState) -> ScanState
    decreases ls.len() - k,
{
    if k < 0 || k >= ls.len() {
        st
    } else {
        scan_from(ls, k + 1, scan_step(st, ls[k], k))
    }
}

/// The first index at or after `j` whose line, right-trimmed, is `---` or
/// `...`; `ls.len()` when there is none.
pub open spec fn close_from(ls: Seq<Seq<char>>, j: int) -> int
    decreases ls.len() - j,
{
    if j < 0 || j >= ls.len() {
        ls.len() as int
    } else if is_three(trim_end(ls[j]), '-') || is_three(trim_end(ls[j]), '.') {
        j
    } else {
        close_from(ls, j + 1)
    }
}

/// Whether the source opens with a frontmatter fence.
pub open spec fn has_frontmatter(ls: Seq<Seq<char>>) -> bool {
    ls.len() > 0 && is_three(trim_end(ls[0]), '-')
}

/// The split of `src`: `None` when the frontmatter is never closed.
pub open spec fn spec_split(src: Seq<char>) -> Option<SpecSplit> {
    let ls = lines(src);
    let close = close_from(ls, 1);
    if has_frontmatter(ls) && close >= ls.len() {
        None
    } else {
        let idx = if has_frontmatter(ls) {
            close + 1
        } else {
            0
        };
        let st = scan_from(
            ls,
            idx,
            ScanState {
                fence: None,
                slides: Seq::empty(),
                current: Seq::empty(),
                start_line: idx + 1,
            },
        );
        Some(
            SpecSplit {
                frontmatter: if has_frontmatter(ls) {
                    Some(join_lines(ls.subrange(1, close)))
                } else {
                    None
                },
                slides: push_slide_spec(st.slides, st.current, st.start_line),
            },
        )
    }
}

proof fn lemma_lines_from_len(s: Seq<char>, i: int, done: Seq<Seq<char>>, cur: Seq<char>)
    requires
        0 <= i <= s.len(),
    ensures
        lines_from(s, i, done, cur).len() <= done.len() + s.len() - i + (if cur.len() > 0 {
            1int
        } else {
            0
        }),
    decreases s.len() - i,
{
    if i < s.len() {
        if s[i] == '\n' {
            lemma_lines_from_len(s, i + 1, done.push(strip_cr(cur)), Seq::empty());
        } else {
            lemma_lines_from_len(s, i + 1, done, cur.push(s[i]));
        }
    }
}

/// A file has no more lines than characters.
proof fn lemma_lines_len(s: Seq<char>)
    ensures
        lines(s).len() <= s.len(),
{
    lemma_lines_from_len(s, 0, Seq::empty(), Seq::empty());
}

impl Fence {
    /// Does this line open a fenced code block?
    #[verifier::loop_isolation(false)]
    pub fn opened_by(line: &Vec<char>) -> (r: Option<Fence>)
        ensures
            r == spec_opened_by(line@),
    {
        // A fence may be indented by at most three spaces (a tab or deeper
        // indentation makes it indented code, which we do not protect).
        let sp = find_run_end(line, ' ', 0);
        if sp > 3 || sp >= line.len() {
            return None;
        }
        let ch = line[sp];
        if ch != '`' && ch != '~' {
            return None;
        }
        let end = find_run_end(line, ch, sp);
        if end - sp < 3 {
            return None;
        }
        // Backtick fences may not contain backticks in the info string.
        if ch == '`' {
            let mut i = end;
            while i < line.len()
                invariant
                    end <= i <= line@.len(),
                    forall|j: int| end <= j < i ==> line@[j] != '`',
                decreases line@.len() - i,
            {
                if line[i] == '`' {
                    assert(line@.skip(end as int)[i - end] == '`');
                    assert(line@.skip(end as int).contains('`'));
                    return None;
                }
                i = i + 1;
            }
            assert(!line@.skip(end as int).contains('`')) by {
                if line@.skip(end as int).contains('`') {
                    let j = choose|j: int| 0 <= j < line@.len() - end && line@.skip(end as int)[j] == '`';
                    assert(line@[end + j] == '`');
                }
            }
        }
        Some(Fence { ch, len: end - sp })
    }

    /// Does this line close this fence?
    #[verifier::loop_isolation(false)]
    pub fn closed_by(&self, line: &Vec<char>) -> (r: bool)
        ensures
            r == spec_closed_by(*self, line@),
    {
        let (a, b) = trim_bounds(line);
        let ghost t = line@.subrange(a as int, b as int);
        if a == b {
            return false;
        }
        let mut i = a;
        while i < b
            invariant
                a <= i <= b <= line@.len(),
                t == line@.subrange(a as int, b as int),
                forall|j: int| 0 <= j < i - a ==> t[j] == self.ch,
            decreases b - i,
        {
            if line[i] != self.ch {
                assert(t[i - a] != self.ch);
                assert(t == trim(line@));
                assert(!(forall|j: int| 0 <= j < t.len() ==> t[j] == self.ch));
                return false;
            }
            i = i + 1;
        }
        b - a >= self.len
    }
}

/// A copy of `v`.
fn copy_chars(v: &Vec<char>) -> (r: Vec<char>)
    ensures
        r@ == v@,
{
    let mut r: Vec<char> = Vec::new();
    extend_chars(&mut r, v);
    r
}

/// Lines `from..to` of `ls`, joined with newlines.
fn join_range(ls: &Vec<Vec<char>>, from: usize, to: usize) -> (r: Vec<char>)
    requires
        from <= to <= ls@.len(),
    ensures
        r@ == join_lines(views(ls@).subrange(from as int, to as int)),
{
    let mut acc: Vec<char> = Vec::new();
    let mut k = from;
    assert(views(ls@).subrange(from as int, from as int) =~= Seq::<Seq<char>>::empty());
    while k < to
        invariant
            from <= k <= to <= ls@.len(),
            acc@ == join_lines(views(ls@).subrange(from as int, k as int)),
        decreases to - k,
    {
        let ghost prev = views(ls@).subrange(from as int, k as int);
        let ghost next = views(ls@).subrange(from as int, k + 1);
        assert(next.drop_last() =~= prev);
        if k > from {
            acc.push('\n');
        }
        extend_chars(&mut acc, &ls[k]);
        assert(next.last() == ls@[k as int]@);
        if k == from {
            assert(acc@ =~= next[0]);
        } else {
            assert(acc@ =~= join_lines(prev) + seq!['\n'] + next.last());
        }
        k = k + 1;
    }
    acc
}

/// The first index at or after `from` whose right-trimmed line is `---` or
/// `...`.
fn find_close(ls: &Vec<Vec<char>>, from: usize) -> (r: usize)
    requires
        from <= ls@.len(),
    ensures
        r == close_from(views(ls@), from as int),
        from <= r <= ls@.len(),
{
    let mut j = from;
    while j < ls.len()
        invariant
            from <= j <= ls@.len(),
            close_from(views(ls@), from as int) == close_from(views(ls@), j as int),
        decreases ls@.len() - j,
    {
        assert(views(ls@)[j as int] == ls@[j as int]@);
        if trimmed_end_is_three(&ls[j], '-') || trimmed_end_is_three(&ls[j], '.') {
            return j;
        }
        j = j + 1;
    }
    j
}

/// Push the pending lines as a slide starting at `start_line` unless they
/// are blank, and clear them.
fn push_slide(slides: &mut Vec<RawSlide>, current: &mut Vec<Vec<char>>, start_line: usize)
    ensures
        final(slides)@.map_values(|r: RawSlide| r@) == push_slide_spec(
            old(slides)@.map_values(|r: RawSlide| r@),
            views(old(current)@),
            start_line as int,
        ),
        final(current)@.len() == 0,
{
    let content = join_range(current, 0, current.len());
    assert(views(current@).subrange(0, current@.len() as int) =~= views(current@));
    let ghost before = slides@.map_values(|r: RawSlide| r@);
    if !is_blank(&content) {
        let slide = RawSlide { content: string_of(content.as_slice()), line: start_line };
        slides.push(slide);
        assert(slides@.map_values(|r: RawSlide| r@) =~= before.push(slide@));
    }
    current.clear();
}

/// Split source text into frontmatter and raw slides.
pub fn split(source: &str) -> (r: Result<SplitResult, ParseError>)
    requires
        source@.len() < usize::MAX,
    ensures
        match spec_split(source@) {
            None => r matches Err(ParseError::UnterminatedFrontmatter),
            Some(m) => r matches Ok(res) && res@ == m,
        },
{
    let chars = chars_of(source);
    let ls = split_lines(&chars);
    let ghost sl = views(ls@);
    proof {
        lemma_lines_len(source@);
    }
    assert(sl.len() == ls@.len());
    let mut frontmatter: Option<String> = None;
    let mut idx: usize = 0;
    let ghost close = close_from(sl, 1);
    // Frontmatter: only recognized on the very first line, like marp.
    if ls.len() > 0 && trimmed_end_is_three(&ls[0], '-') {
        assert(sl[0] == ls@[0]@);
        let c = find_close(&ls, 1);
        if c >= ls.len() {
            return Err(ParseError::UnterminatedFrontmatter);
        }
        frontmatter = Some(string_of(join_range(&ls, 1, c).as_slice()));
        idx = c + 1;
    } else {
        assert(!has_frontmatter(sl)) by {
            if ls@.len() > 0 {
                assert(sl[0] == ls@[0]@);
            }
        }
    }
    let ghost init = ScanState {
        fence: None,
        slides: Seq::empty(),
        current: Seq::empty(),
        start_line: idx + 1,
    };
    let mut fence: Option<Fence> = None;
    let mut slides: Vec<RawSlide> = Vec::new();
    let mut current: Vec<Vec<char>> = Vec::new();
    let mut start_line = idx + 1;
    let mut k = idx;
    assert(slides@.map_values(|r: RawSlide| r@) =~= Seq::<SpecRawSlide>::empty());
    assert(views(current@) =~= Seq::<Seq<char>>::empty());
    while k < ls.len()
        invariant
            idx <= k <= ls@.len(),
            sl == views(ls@),
            sl.len() == ls@.len(),
            ls@.len() < usize::MAX,
            start_line <= k + 1,
            scan_from(sl, idx as int, init) == scan_from(
                sl,
                k as int,
                ScanState {
                    fence,
                    slides: slides@.map_values(|r: RawSlide| r@),
                    current: views(current@),
                    start_line: start_line as int,
                },
            ),
        decreases ls@.len() - k,
    {
        let line = &ls[k];
        assert(sl[k as int] == line@);
        let ghost before = views(current@);
        let mut separator = false;
        match fence {
            Some(open) => {
                if open.closed_by(line) {
                    fence = None;
                }
            },
            None => {
                match Fence::opened_by(line) {
                    Some(f) => {
                        fence = Some(f);
                    },
                    None => {
                        if trimmed_is_three(line, '-') {
                            separator = true;
                        }
                    },
                }
            },
        }
        if separator {
            push_slide(&mut slides, &mut current, start_line);
            assert(views(current@) =~= Seq::<Seq<char>>::empty());
            start_line = k + 2;
        } else {
            current.push(copy_chars(line));
            assert(views(current@) =~= before.push(line@));
        }
        k = k + 1;
    }
    push_slide(&mut slides, &mut current, start_line);
    let res = SplitResult { frontmatter, slides };
    proof {
        if has_frontmatter(sl) {
            assert(res@.frontmatter == Some(join_lines(sl.subrange(1, close))));
        }
    }
    Ok(res)
}

// ---------------------------------------------------------------------
// Columns
/// The columns so far, plus the pending lines as one more column unless
/// they are blank.
pub open spec fn push_column_spec(columns: Seq<Seq<char>>, current: Seq<Seq<char>>) -> Seq<Seq<char>> {
    let content = join_lines(current);
    if all_ws(content) {
        columns
    } else {
        columns.push(content)
    }
}

/// The state of a slide's column scan: the open fence, the columns cut
/// so far, and the lines of the column being collected.
pub struct ColumnScan {
    pub fence: Option<Fence>,
    pub columns: Seq<Seq<char>>,
    pub current: Seq<Seq<char>>,
}

/// Scan one line of a slide: `|||` outside a fence cuts a column.
pub open spec fn column_step(st: ColumnScan, line: Seq<char>) -> ColumnScan {
    let keep = ColumnScan { fence: st.fence, columns: st.columns, current: st.current.push(line) };
    match st.fence {
        Some(f) => if spec_closed_by(f, line) {
            ColumnScan { fence: None, ..keep }
        } else {
            keep
        },
        None => match spec_opened_by(line) {
            Some(f) => ColumnScan { fence: Some(f), ..keep },
            None => if is_three(trim(line), '|') {
                ColumnScan {
                    fence: None,
                    columns: push_column_spec(st.columns, st.current),
                    current: Seq::empty(),
                }
            } else {
                keep
            },
        },
    }
}

/// Scan lines `k..` of `ls` from state `st`.
pub open spec fn columns_from(ls: Seq<Seq<char>>, k: int, st: ColumnScan) -> ColumnScan
    decreases ls.len() - k,
{
    if k < 0 || k >= ls.len() {
        st
    } else {
        columns_from(ls, k + 1, column_step(st, ls[k]))
    }
}

/// The non-blank columns of a slide's source, in order.
pub open spec fn spec_columns(content: Seq<char>) -> Seq<Seq<char>> {
    let st = columns_from(
        lines(content),
        0,
        ColumnScan { fence: None, columns: Seq::empty(), current: Seq::empty() },
    );
    push_column_spec(st.columns, st.current)
}

/// Push the pending lines as a column unless they are blank, and clear
/// them.
fn push_column(columns: &mut Vec<String>, current: &mut Vec<Vec<char>>)
    ensures
        final(columns)@.map_values(|s: String| s@) == push_column_spec(
            old(columns)@.map_values(|s: String| s@),
            views(old(current)@),
        ),
        final(current)@.len() == 0,
{
    let content = join_range(current, 0, current.len());
    assert(views(current@).subrange(0, current@.len() as int) =~= views(current@));
    let ghost before = columns@.map_values(|s: String| s@);
    if !is_blank(&content) {
        let c = string_of(content.as_slice());
        columns.push(c);
        assert(columns@.map_values(|s: String| s@) =~= before.push(c@));
    }
    current.clear();
}

/// Cut a slide's source into its columns at `|||` lines outside fenced
/// code blocks, dropping blank columns.
pub fn split_columns(content: &str) -> (r: Vec<String>)
    ensures
        r@.map_values(|s: String| s@) == spec_columns(content@),
{
    let chars = chars_of(content);
    let ls = split_lines(&chars);
    let ghost sl = views(ls@);
    let ghost init = ColumnScan { fence: None, columns: Seq::empty(), current: Seq::empty() };
    let mut fence: Option<Fence> = None;
    let mut columns: Vec<String> = Vec::new();
    let mut current: Vec<Vec<char>> = Vec::new();
    let mut k: usize = 0;
    assert(columns@.map_values(|s: String| s@) =~= Seq::<Seq<char>>::empty());
    assert(views(current@) =~= Seq::<Seq<char>>::empty());
    while k < ls.len()
        invariant
            k <= ls@.len(),
            sl == views(ls@),
            sl.len() == ls@.len(),
            columns_from(sl, 0, init) == columns_from(
                sl,
                k as int,
                ColumnScan {
                    fence,
                    columns: columns@.map_values(|s: String| s@),
                    current: views(current@),
                },
            ),
        decreases ls@.len() - k,
    {
        let line = &ls[k];
        assert(sl[k as int] == line@);
        let ghost before = views(current@);
        let mut separator = false;
        match fence {
            Some(open) => {
                if open.closed_by(line) {
                    fence = None;
                }
            },
            None => {
                match Fence::opened_by(line) {
                    Some(f) => {
                        fence = Some(f);
                    },
                    None => {
                        if trimmed_is_three(line, '|') {
                            separator = true;
                        }
                    },
                }
            },
        }
        if separator {
            push_column(&mut columns, &mut current);
            assert(views(current@) =~= Seq::<Seq<char>>::empty());
        } else {
            current.push(copy_chars(line));
            assert(views(current@) =~= before.push(line@));
        }
        k = k + 1;
    }
    push_column(&mut columns, &mut current);
    columns
}

// ---------------------------------------------------------------------
// Laws
/// Every slide cut by a scan holds some non-whitespace text.
proof fn lemma_scan_keeps_slides_nonblank(ls: Seq<Seq<char>>, k: int, st: ScanState)
    requires
        forall|i: int| 0 <= i < st.slides.len() ==> !all_ws(#[trigger] st.slides[i].content),
    ensures
        forall|i: int|
            0 <= i < scan_from(ls, k, st).slides.len() ==> !all_ws(#[trigger] scan_from(ls, k, st).slides[i].content),
    decreases ls.len() - k,
{
    if 0 <= k < ls.len() {
        let next = scan_step(st, ls[k], k);
        assert forall|i: int| 0 <= i < next.slides.len() implies !all_ws(#[trigger] next.slides[i].content) by {
            if i < st.slides.len() {
                assert(next.slides[i] == st.slides[i]);
            }
        }
        lemma_scan_keeps_slides_nonblank(ls, k + 1, next);
    }
}

/// Slides that contain only whitespace are dropped: every slide of a
/// split holds some non-whitespace text.
pub proof fn law_split_drops_blank_slides(src: Seq<char>)
    ensures
        match spec_split(src) {
            Some(m) => forall|i: int| 0 <= i < m.slides.len() ==> !all_ws(#[trigger] m.slides[i].content),
            None => true,
        },
{
    let ls = lines(src);
    let close = close_from(ls, 1);
    if !(has_frontmatter(ls) && close >= ls.len()) {
        let idx = if has_frontmatter(ls) { close + 1 } else { 0 };
        let init = ScanState { fence: None, slides: Seq::empty(), current: Seq::empty(), start_line: idx + 1 };
        lemma_scan_keeps_slides_nonblank(ls, idx, init);
        let st = scan_from(ls, idx, init);
        let all = push_slide_spec(st.slides, st.current, st.start_line);
        assert forall|i: int| 0 <= i < all.len() implies !all_ws(#[trigger] all[i].content) by {
            if i < st.slides.len() {
                assert(all[i] == st.slides[i]);
            }
        }
    }
}

/// Every column cut by a scan holds some non-whitespace text.
proof fn lemma_column_scan_keeps_nonblank(ls: Seq<Seq<char>>, k: int, st: ColumnScan)
    requires
        forall|i: int| 0 <= i < st.columns.len() ==> !all_ws(#[trigger] st.columns[i]),
    ensures
        forall|i: int|
            0 <= i < columns_from(ls, k, st).columns.len() ==> !all_ws(#[trigger] columns_from(ls, k, st).columns[i]),
    decreases ls.len() - k,
{
    if 0 <= k < ls.len() {
        let next = column_step(st, ls[k]);
        assert forall|i: int| 0 <= i < next.columns.len() implies !all_ws(#[trigger] next.columns[i]) by {
            if i < st.columns.len() {
                assert(next.columns[i] == st.columns[i]);
            }
        }
        lemma_column_scan_keeps_nonblank(ls, k + 1, next);
    }
}

/// A column containing only whitespace is dropped: every column of a
/// slide holds some non-whitespace text.
pub proof fn law_columns_drop_blank_columns(content: Seq<char>)
    ensures
        forall|i: int| 0 <= i < spec_columns(content).len() ==> !all_ws(#[trigger] spec_columns(content)[i]),
{
    let init = ColumnScan { fence: None, columns: Seq::empty(), current: Seq::empty() };
    lemma_column_scan_keeps_nonblank(lines(content), 0, init);
    let st = columns_from(lines(content), 0, init);
    let all = push_column_spec(st.columns, st.current);
    assert forall|i: int| 0 <= i < all.len() implies !all_ws(#[trigger] all[i]) by {
        if i < st.columns.len() {
            assert(all[i] == st.columns[i]);
        }
    }
}

} // verus!
