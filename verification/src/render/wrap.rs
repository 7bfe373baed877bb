//! Style-preserving word wrap for styled spans.
//!
//! Text is pre-wrapped (rather than left to the terminal widget) so that
//! vertical centering, hanging indents for list items, and per-line
//! prefixes (quote bars) all know the real line count up front.
use vstd::prelude::*;

use super::style::{
    capped, cells, char_cells, default_style, display_width, line_models, line_of, line_width,
    run, runs, runs_display_width, text_width, Line, Span, Style, StyledLine, StyledRun,
};
use crate::text::{chars_of, extend_chars, find_ws_start_back, string_of, trim_end, ws_start_back};

verus! {

/// A piece of text as the wrapper sees it.
#[derive(Debug)]
pub enum Token {
    /// A run of characters that are neither spaces nor line breaks.
    Word(Vec<char>),
    /// A run of spaces.
    Space(Vec<char>),
    /// An explicit line break.
    Newline,
}

/// The model of a [`Token`].
pub enum SpecToken {
    Word(Seq<char>),
    Space(Seq<char>),
    Newline,
}

impl View for Token {
    type V = SpecToken;

    open spec fn view(&self) -> SpecToken {
        match self {
            Token::Word(w) => SpecToken::Word(w@),
            Token::Space(s) => SpecToken::Space(s@),
            Token::Newline => SpecToken::Newline,
        }
    }
}

/// The models of a run of tokens.
pub open spec fn token_models(t: Seq<Token>) -> Seq<SpecToken> {
    t.map_values(|x: Token| x@)
}

/// Where the chunk starting at `i` ends: at the first line break, or the
/// first character on the other side of the space/non-space divide.
pub open spec fn chunk_end(s: Seq<char>, i: int, space: bool) -> int
    decreases s.len() - i,
{
    if i < 0 || i >= s.len() || s[i] == '\n' || (s[i] == ' ') != space {
        i
    } else {
        chunk_end(s, i + 1, space)
    }
}

/// The tokens of `s` from index `i` on: a line break is a token of its
/// own, and the rest splits into maximal runs of spaces and of other
/// characters.
pub open spec fn tokens_from(s: Seq<char>, i: int) -> Seq<SpecToken>
    decreases s.len() - i, 1int,
{
    if i < 0 || i >= s.len() {
        Seq::empty()
    } else if s[i] == '\n' {
        seq![SpecToken::Newline] + tokens_from(s, i + 1)
    } else {
        let space = s[i] == ' ';
        let e = chunk_end(s, i + 1, space);
        proof {
            lemma_chunk_end_bounds(s, i + 1, space);
        }
        let chunk = s.subrange(i, e);
        seq![
            if space {
                SpecToken::Space(chunk)
            } else {
                SpecToken::Word(chunk)
            },
        ] + tokens_from(s, e)
    }
}

/// The tokens of `s`.
pub open spec fn spec_tokenize(s: Seq<char>) -> Seq<SpecToken> {
    tokens_from(s, 0)
}

pub proof fn lemma_chunk_end_bounds(s: Seq<char>, i: int, space: bool)
    requires
        0 <= i,
    ensures
        i <= chunk_end(s, i, space),
        i <= s.len() ==> chunk_end(s, i, space) <= s.len(),
    decreases s.len() - i,
{
    if i < s.len() && s[i] != '\n' && (s[i] == ' ') == space {
        lemma_chunk_end_bounds(s, i + 1, space);
    }
}

/// Split text into words, runs of spaces, and explicit newlines.
pub fn tokenize(text: &Vec<char>) -> (r: Vec<Token>)
    ensures
        token_models(r@) == spec_tokenize(text@),
{
    let mut tokens: Vec<Token> = Vec::new();
    let mut i: usize = 0;
    while i < text.len()
        invariant
            i <= text@.len(),
            token_models(tokens@) + tokens_from(text@, i as int) == spec_tokenize(text@),
        decreases text@.len() - i,
    {
        let ghost before = token_models(tokens@);
        if text[i] == '\n' {
            tokens.push(Token::Newline);
            assert(token_models(tokens@) =~= before.push(SpecToken::Newline));
            i = i + 1;
            assert(before + tokens_from(text@, i - 1) =~= token_models(tokens@) + tokens_from(
                text@,
                i as int,
            ));
        } else {
            let space = text[i] == ' ';
            let mut e = i + 1;
            while e < text.len() && text[e] != '\n' && (text[e] == ' ') == space
                invariant
                    i < e <= text@.len(),
                    chunk_end(text@, i + 1, space) == chunk_end(text@, e as int, space),
                decreases text@.len() - e,
            {
                e = e + 1;
            }
            proof {
                lemma_chunk_end_bounds(text@, i + 1, space);
            }
            let mut chunk: Vec<char> = Vec::new();
            let mut k = i;
            while k < e
                invariant
                    i <= k <= e <= text@.len(),
                    chunk@ == text@.subrange(i as int, k as int),
                decreases e - k,
            {
                chunk.push(text[k]);
                k = k + 1;
                assert(chunk@ =~= text@.subrange(i as int, k as int));
            }
            let tok = if space {
                Token::Space(chunk)
            } else {
                Token::Word(chunk)
            };
            let ghost tm = tok@;
            tokens.push(tok);
            assert(token_models(tokens@) =~= before.push(tm));
            let ghost old_i = i;
            i = e;
            assert(before + tokens_from(text@, old_i as int) =~= token_models(tokens@)
                + tokens_from(text@, i as int));
        }
    }
    assert(token_models(tokens@) =~= spec_tokenize(text@));
    tokens
}

/// `text` appended to a run of spans in `style`: merged into the last
/// span when that has the same style.
pub open spec fn spec_push_span(cur: Seq<StyledRun>, text: Seq<char>, style: Style) -> Seq<
    StyledRun,
> {
    if cur.len() > 0 && cur.last().style == style {
        cur.drop_last().push(run(cur.last().text + text, style))
    } else {
        cur.push(run(text, style))
    }
}

/// Trailing whitespace trimmed off a run of spans: whitespace-only spans
/// at the end go, and the last remaining span loses its trailing
/// whitespace.
pub open spec fn trim_trailing(cur: Seq<StyledRun>) -> Seq<StyledRun>
    decreases cur.len(),
{
    if cur.len() == 0 {
        cur
    } else {
        let t = trim_end(cur.last().text);
        if t.len() == cur.last().text.len() {
            cur
        } else if t.len() == 0 {
            trim_trailing(cur.drop_last())
        } else {
            cur.drop_last().push(run(t, cur.last().style))
        }
    }
}

/// Append `text` in `style`, merging into the last span when the styles
/// match.
pub fn push_span(current: &mut Vec<Span>, text: &Vec<char>, style: Style)
    ensures
        runs(final(current)@) == spec_push_span(runs(old(current)@), text@, style),
{
    let n = current.len();
    let ghost before = runs(current@);
    if n > 0 && current[n - 1].style == style {
        let last = current.pop().unwrap();
        assert(runs(current@) =~= before.drop_last());
        let mut chars = chars_of(last.content.as_str());
        extend_chars(&mut chars, text);
        let merged = Span::styled(string_of(chars.as_slice()), style);
        let ghost mid = runs(current@);
        current.push(merged);
        assert(runs(current@) =~= mid.push(merged@));
    } else {
        let s = Span::styled(string_of(text.as_slice()), style);
        current.push(s);
        assert(runs(current@) =~= before.push(s@));
    }
}

/// Drop trailing whitespace from a run of spans.
pub fn trim_trailing_space(current: &mut Vec<Span>)
    ensures
        runs(final(current)@) == trim_trailing(runs(old(current)@)),
{
    let ghost want = trim_trailing(runs(current@));
    while current.len() > 0
        invariant
            trim_trailing(runs(current@)) == want,
            want == trim_trailing(runs(old(current)@)),
        decreases current@.len(),
    {
        let n = current.len();
        let chars = chars_of(current[n - 1].content.as_str());
        let end = find_ws_start_back(&chars, chars.len());
        let ghost before = runs(current@);
        assert(before.last() == current@[n - 1]@);
        assert(trim_end(before.last().text) == chars@.take(end as int));
        if end == chars.len() {
            assert(chars@.take(end as int) =~= chars@);
            assert(trim_trailing(before) == before);
            return;
        }
        let last = current.pop().unwrap();
        assert(runs(current@) =~= before.drop_last());
        if end > 0 {
            let mut t: Vec<char> = Vec::new();
            let mut k: usize = 0;
            while k < end
                invariant
                    k <= end <= chars@.len(),
                    t@ == chars@.take(k as int),
                decreases end - k,
            {
                t.push(chars[k]);
                k = k + 1;
                assert(t@ =~= chars@.take(k as int));
            }
            let s = Span::styled(string_of(t.as_slice()), last.style);
            let ghost mid = runs(current@);
            current.push(s);
            assert(runs(current@) =~= mid.push(s@));
            assert(trim_trailing(before) == before.drop_last().push(run(t@, last.style)));
            return;
        }
    }
}

/// The wrapper's progress: finished lines, the line being filled, and
/// how many columns that line already takes.
pub struct WrapState {
    pub lines: Seq<Seq<StyledRun>>,
    pub current: Seq<StyledRun>,
    pub width: int,
}

/// Nothing wrapped yet.
pub open spec fn start_state() -> WrapState {
    WrapState { lines: Seq::empty(), current: Seq::empty(), width: 0 }
}

/// The line being filled ends (trailing whitespace trimmed).
pub open spec fn flushed(st: WrapState) -> WrapState {
    WrapState { lines: st.lines.push(trim_trailing(st.current)), current: Seq::empty(), width: 0 }
}

/// A hard split of a word: the state, the chunk collected so far, and
/// its width.
pub struct SplitState {
    pub st: WrapState,
    pub chunk: Seq<char>,
    pub chunk_width: int,
}

/// One character of a word too long for the line: when it does not fit
/// beside the chunk so far, the chunk is emitted and the line ends.
pub open spec fn split_step(s: SplitState, ch: char, style: Style, w: int) -> SplitState {
    let c = cells(ch) as int;
    if s.st.width + s.chunk_width + c > w && s.chunk.len() > 0 {
        SplitState {
            st: flushed(
                WrapState { current: spec_push_span(s.st.current, s.chunk, style), ..s.st },
            ),
            chunk: seq![ch],
            chunk_width: c,
        }
    } else {
        SplitState { chunk: s.chunk.push(ch), chunk_width: s.chunk_width + c, ..s }
    }
}

/// The hard split over the characters `t`.
pub open spec fn split_chars(s: SplitState, t: Seq<char>, style: Style, w: int) -> SplitState
    decreases t.len(),
{
    if t.len() == 0 {
        s
    } else {
        split_step(split_chars(s, t.drop_last(), style, w), t.last(), style, w)
    }
}

/// A word longer than the line, split by characters.
pub open spec fn split_word(st: WrapState, t: Seq<char>, style: Style, w: int) -> WrapState {
    let s = split_chars(SplitState { st, chunk: Seq::empty(), chunk_width: 0 }, t, style, w);
    if s.chunk.len() > 0 {
        WrapState {
            current: spec_push_span(s.st.current, s.chunk, style),
            width: s.st.width + s.chunk_width,
            ..s.st
        }
    } else {
        s.st
    }
}

/// One token of text in `style`, wrapped at `w` columns. A line never
/// starts with spaces, and spaces that do not fit are dropped; a word
/// that does not fit starts a new line, and one wider than the whole
/// line is split by characters.
pub open spec fn wrap_step(st: WrapState, tok: SpecToken, style: Style, w: int) -> WrapState {
    match tok {
        SpecToken::Newline => flushed(st),
        SpecToken::Space(t) => {
            let tw = display_width(t) as int;
            if st.width == 0 {
                st
            } else if st.width + tw <= w {
                WrapState {
                    current: spec_push_span(st.current, t, style),
                    width: st.width + tw,
                    ..st
                }
            } else {
                st
            }
        },
        SpecToken::Word(t) => {
            let tw = display_width(t) as int;
            let st1 = if st.width + tw > w && st.width > 0 {
                flushed(st)
            } else {
                st
            };
            if tw <= w && st1.width + tw <= w {
                WrapState {
                    current: spec_push_span(st1.current, t, style),
                    width: st1.width + tw,
                    ..st1
                }
            } else {
                split_word(st1, t, style, w)
            }
        },
    }
}

/// Tokens wrapped one after the other.
pub open spec fn wrap_tokens(st: WrapState, toks: Seq<SpecToken>, style: Style, w: int) -> WrapState
    decreases toks.len(),
{
    if toks.len() == 0 {
        st
    } else {
        wrap_step(wrap_tokens(st, toks.drop_last(), style, w), toks.last(), style, w)
    }
}

/// Spans wrapped one after the other, each token by token in its style.
pub open spec fn wrap_runs(st: WrapState, spans: Seq<StyledRun>, w: int) -> WrapState
    decreases spans.len(),
{
    if spans.len() == 0 {
        st
    } else {
        wrap_tokens(
            wrap_runs(st, spans.drop_last(), w),
            spec_tokenize(spans.last().text),
            spans.last().style,
            w,
        )
    }
}

/// `spans` wrapped to `width` columns (at least one): the lines of the
/// final state, each in the default style, without a trailing empty line
/// unless it is the only one.
pub open spec fn spec_wrap(spans: Seq<StyledRun>, width: int) -> Seq<StyledLine> {
    let w = if width < 1 {
        1
    } else {
        width
    };
    let done = flushed(wrap_runs(start_state(), spans, w));
    let ls = done.lines.map_values(|l: Seq<StyledRun>| line_of(l));
    if ls.len() > 1 && line_width(ls.last()) == 0 {
        ls.drop_last()
    } else {
        ls
    }
}

/// Wrapping always yields at least one (possibly empty) line.
pub proof fn law_wrap_yields_a_line(spans: Seq<StyledRun>, width: int)
    ensures
        spec_wrap(spans, width).len() >= 1,
{
}

// ---------------------------------------------------------------------
// Wrapped lines fit
/// No character of `s` is wider than `w` columns.
pub open spec fn narrow(s: Seq<char>, w: int) -> bool {
    forall|j: int| 0 <= j < s.len() ==> cells(#[trigger] s[j]) <= w
}

/// The text of a token (none for a line break).
pub open spec fn token_text(t: SpecToken) -> Seq<char> {
    match t {
        SpecToken::Word(x) => x,
        SpecToken::Space(x) => x,
        SpecToken::Newline => Seq::empty(),
    }
}

/// A text's width never passes the cap.
proof fn lemma_width_capped(s: Seq<char>)
    ensures
        display_width(s) <= usize::MAX,
{
}

/// A text's width only grows as characters are added.
proof fn lemma_width_grows(s: Seq<char>, k: int)
    requires
        0 <= k <= s.len(),
    ensures
        display_width(s.take(k)) <= display_width(s),
    decreases s.len(),
{
    if k < s.len() {
        assert(s.take(k) =~= s.drop_last().take(k));
        lemma_width_grows(s.drop_last(), k);
        lemma_width_capped(s.drop_last());
    } else {
        assert(s.take(k) =~= s);
    }
}

/// Widths add up while they stay below the cap.
proof fn lemma_width_adds(a: Seq<char>, b: Seq<char>)
    requires
        display_width(a) + display_width(b) < usize::MAX,
    ensures
        display_width(a + b) == display_width(a) + display_width(b),
    decreases b.len(),
{
    if b.len() == 0 {
        assert(a + b =~= a);
    } else {
        assert((a + b).drop_last() =~= a + b.drop_last());
        assert((a + b).last() == b.last());
        lemma_width_grows(b, b.len() - 1);
        assert(b.take(b.len() - 1) =~= b.drop_last());
        lemma_width_adds(a, b.drop_last());
    }
}

/// Dropping trailing whitespace never widens a text.
proof fn lemma_ws_start_back_bounds(s: Seq<char>, n: int)
    requires
        0 <= n <= s.len(),
    ensures
        0 <= ws_start_back(s, n) <= n,
    decreases n,
{
    if 0 < n && crate::text::is_ws(s[n - 1]) {
        lemma_ws_start_back_bounds(s, n - 1);
    }
}

/// Trimming trailing whitespace never widens a line.
proof fn lemma_trim_narrows(cur: Seq<StyledRun>)
    ensures
        runs_display_width(trim_trailing(cur)) <= runs_display_width(cur),
    decreases cur.len(),
{
    if cur.len() > 0 {
        let last = cur.last().text;
        let t = trim_end(last);
        lemma_ws_start_back_bounds(last, last.len() as int);
        if t.len() == last.len() {
        } else if t.len() == 0 {
            lemma_trim_narrows(cur.drop_last());
        } else {
            lemma_width_grows(last, ws_start_back(last, last.len() as int));
            let c2 = cur.drop_last().push(run(t, cur.last().style));
            assert(c2.drop_last() =~= cur.drop_last());
        }
    }
}

/// Appending text adds its width.
proof fn lemma_push_widens(cur: Seq<StyledRun>, t: Seq<char>, style: Style)
    requires
        runs_display_width(cur) + display_width(t) < usize::MAX,
    ensures
        runs_display_width(spec_push_span(cur, t, style)) == runs_display_width(cur) + display_width(t),
{
    if cur.len() > 0 && cur.last().style == style {
        let c2 = cur.drop_last().push(run(cur.last().text + t, style));
        assert(c2.drop_last() =~= cur.drop_last());
        lemma_width_adds(cur.last().text, t);
    } else {
        let c2 = cur.push(run(t, style));
        assert(c2.drop_last() =~= cur);
    }
}

/// The wrapper's state keeps its lines within `w` columns and knows the
/// width of the line being filled.
pub open spec fn wrap_fits(st: WrapState, w: int) -> bool {
    &&& st.width == runs_display_width(st.current)
    &&& 0 <= st.width <= w
    &&& forall|i: int| 0 <= i < st.lines.len() ==> runs_display_width(#[trigger] st.lines[i]) <= w
}

proof fn lemma_flushed_fits(st: WrapState, w: int)
    requires
        runs_display_width(st.current) <= w,
        forall|i: int| 0 <= i < st.lines.len() ==> runs_display_width(#[trigger] st.lines[i]) <= w,
    ensures
        wrap_fits(flushed(st), w),
{
    lemma_trim_narrows(st.current);
    let f = flushed(st);
    assert forall|i: int| 0 <= i < f.lines.len() implies runs_display_width(#[trigger] f.lines[i]) <= w by {
        if i < st.lines.len() {
            assert(f.lines[i] == st.lines[i]);
        }
    }
}

/// The hard split keeps its chunk within `w` and the line it fills empty.
pub open spec fn split_fits(s: SplitState, w: int) -> bool {
    &&& wrap_fits(s.st, w)
    &&& s.st.width == 0
    &&& s.chunk_width == display_width(s.chunk)
    &&& 0 <= s.chunk_width <= w
}

proof fn lemma_split_chars_fit(s: SplitState, t: Seq<char>, style: Style, w: int)
    requires
        split_fits(s, w),
        narrow(t, w),
        1 <= w < usize::MAX,
    ensures
        split_fits(split_chars(s, t, style, w), w),
    decreases t.len(),
{
    if t.len() > 0 {
        assert(narrow(t.drop_last(), w)) by {
            assert forall|j: int| 0 <= j < t.drop_last().len() implies cells(#[trigger] t.drop_last()[j]) <= w by {
                assert(t.drop_last()[j] == t[j]);
            }
        }
        lemma_split_chars_fit(s, t.drop_last(), style, w);
        let p = split_chars(s, t.drop_last(), style, w);
        let ch = t.last();
        let c = cells(ch) as int;
        assert(c <= w) by {
            assert(t[t.len() - 1] == ch);
        }
        if p.st.width + p.chunk_width + c > w && p.chunk.len() > 0 {
            lemma_push_widens(p.st.current, p.chunk, style);
            lemma_flushed_fits(WrapState { current: spec_push_span(p.st.current, p.chunk, style), ..p.st }, w);
            assert(seq![ch].drop_last() =~= Seq::<char>::empty());
            assert(seq![ch].last() == ch);
            assert(display_width(Seq::<char>::empty()) == 0);
            assert(display_width(seq![ch]) == capped(display_width(seq![ch].drop_last()) + c));
            assert(display_width(seq![ch]) == c);
            let f = flushed(WrapState { current: spec_push_span(p.st.current, p.chunk, style), ..p.st });
            assert(wrap_fits(f, w));
            assert(split_step(p, ch, style, w) == SplitState { st: f, chunk: seq![ch], chunk_width: c });
        } else {
            assert(p.chunk.push(ch).drop_last() =~= p.chunk);
            assert(p.chunk.len() == 0 ==> p.chunk_width == 0);
            assert(p.chunk_width + c <= w);
            assert(display_width(p.chunk.push(ch)) == p.chunk_width + c);
        }
    }
}

proof fn lemma_split_word_fits(st: WrapState, t: Seq<char>, style: Style, w: int)
    requires
        wrap_fits(st, w),
        st.width == 0,
        narrow(t, w),
        1 <= w < usize::MAX,
    ensures
        wrap_fits(split_word(st, t, style, w), w),
{
    let s0 = SplitState { st, chunk: Seq::empty(), chunk_width: 0 };
    lemma_split_chars_fit(s0, t, style, w);
    let s = split_chars(s0, t, style, w);
    if s.chunk.len() > 0 {
        lemma_push_widens(s.st.current, s.chunk, style);
    }
}

proof fn lemma_step_fits(st: WrapState, tok: SpecToken, style: Style, w: int)
    requires
        wrap_fits(st, w),
        narrow(token_text(tok), w),
        1 <= w < usize::MAX,
    ensures
        wrap_fits(wrap_step(st, tok, style, w), w),
{
    match tok {
        SpecToken::Newline => {
            lemma_flushed_fits(st, w);
        },
        SpecToken::Space(t) => {
            let tw = display_width(t) as int;
            if st.width != 0 && st.width + tw <= w {
                lemma_push_widens(st.current, t, style);
            }
        },
        SpecToken::Word(t) => {
            let tw = display_width(t) as int;
            if st.width + tw > w && st.width > 0 {
                lemma_flushed_fits(st, w);
            }
            let st1 = if st.width + tw > w && st.width > 0 {
                flushed(st)
            } else {
                st
            };
            if tw <= w && st1.width + tw <= w {
                lemma_push_widens(st1.current, t, style);
            } else {
                lemma_split_word_fits(st1, t, style, w);
            }
        },
    }
}

/// Every token of a narrow text is narrow.
proof fn lemma_tokens_narrow(s: Seq<char>, i: int, w: int)
    requires
        narrow(s, w),
        0 <= i,
    ensures
        forall|k: int| 0 <= k < tokens_from(s, i).len() ==> narrow(token_text(#[trigger] tokens_from(s, i)[k]), w),
    decreases s.len() - i,
{
    if i < s.len() {
        if s[i] == '\n' {
            lemma_tokens_narrow(s, i + 1, w);
            let ts = tokens_from(s, i);
            assert forall|k: int| 0 <= k < ts.len() implies narrow(token_text(#[trigger] ts[k]), w) by {
                if k > 0 {
                    assert(ts[k] == tokens_from(s, i + 1)[k - 1]);
                }
            }
        } else {
            let space = s[i] == ' ';
            let e = chunk_end(s, i + 1, space);
            lemma_chunk_end_bounds(s, i + 1, space);
            lemma_tokens_narrow(s, e, w);
            let chunk = s.subrange(i, e);
            assert(narrow(chunk, w)) by {
                assert forall|j: int| 0 <= j < chunk.len() implies cells(#[trigger] chunk[j]) <= w by {
                    assert(chunk[j] == s[i + j]);
                }
            }
            let ts = tokens_from(s, i);
            assert forall|k: int| 0 <= k < ts.len() implies narrow(token_text(#[trigger] ts[k]), w) by {
                if k > 0 {
                    assert(ts[k] == tokens_from(s, e)[k - 1]);
                }
            }
        }
    }
}

proof fn lemma_tokens_fit(st: WrapState, toks: Seq<SpecToken>, style: Style, w: int)
    requires
        wrap_fits(st, w),
        forall|k: int| 0 <= k < toks.len() ==> narrow(token_text(#[trigger] toks[k]), w),
        1 <= w < usize::MAX,
    ensures
        wrap_fits(wrap_tokens(st, toks, style, w), w),
    decreases toks.len(),
{
    if toks.len() > 0 {
        lemma_tokens_fit(st, toks.drop_last(), style, w);
        assert(toks.drop_last().len() == toks.len() - 1);
        assert(toks[toks.len() - 1] == toks.last());
        lemma_step_fits(wrap_tokens(st, toks.drop_last(), style, w), toks.last(), style, w);
    }
}

proof fn lemma_runs_fit(st: WrapState, spans: Seq<StyledRun>, w: int)
    requires
        wrap_fits(st, w),
        forall|i: int| 0 <= i < spans.len() ==> narrow(#[trigger] spans[i].text, w),
        1 <= w < usize::MAX,
    ensures
        wrap_fits(wrap_runs(st, spans, w), w),
    decreases spans.len(),
{
    if spans.len() > 0 {
        assert forall|i: int| 0 <= i < spans.drop_last().len() implies narrow(#[trigger] spans.drop_last()[i].text, w) by {
            assert(spans.drop_last()[i] == spans[i]);
        }
        lemma_runs_fit(st, spans.drop_last(), w);
        assert(spans[spans.len() - 1] == spans.last());
        lemma_tokens_narrow(spans.last().text, 0, w);
        lemma_tokens_fit(wrap_runs(st, spans.drop_last(), w), spec_tokenize(spans.last().text), spans.last().style, w);
    }
}

/// Wrapped lines fit: every line of the wrap is at most `width` columns
/// wide (at least one), counted character by character, as long as no
/// single character is wider than that.
pub proof fn law_wrapped_lines_fit(spans: Seq<StyledRun>, width: int)
    requires
        width < usize::MAX,
        forall|i: int| 0 <= i < spans.len() ==> narrow(#[trigger] spans[i].text, if width < 1 { 1 } else { width }),
    ensures
        forall|i: int|
            0 <= i < spec_wrap(spans, width).len() ==> runs_display_width(#[trigger] spec_wrap(spans, width)[i].spans)
                <= (if width < 1 { 1 } else { width }),
{
    let w = if width < 1 { 1 } else { width };
    lemma_runs_fit(start_state(), spans, w);
    let done = flushed(wrap_runs(start_state(), spans, w));
    lemma_flushed_fits(wrap_runs(start_state(), spans, w), w);
    let ls = done.lines.map_values(|l: Seq<StyledRun>| line_of(l));
    assert forall|i: int| 0 <= i < spec_wrap(spans, width).len() implies runs_display_width(
        #[trigger] spec_wrap(spans, width)[i].spans,
    ) <= w by {
        assert(ls[i].spans == done.lines[i]);
    }
}

/// The wrapper's progress, executable.
struct Wrapper {
    lines: Vec<Vec<Span>>,
    current: Vec<Span>,
    width: usize,
}

/// The models of finished lines.
pub open spec fn span_rows(l: Seq<Vec<Span>>) -> Seq<Seq<StyledRun>> {
    l.map_values(|x: Vec<Span>| runs(x@))
}

/// The larger of `w` and three (the widest a character can be).
pub open spec fn roomy(w: int) -> int {
    if w < 3 {
        3
    } else {
        w
    }
}

impl Wrapper {
    spec fn model(&self) -> WrapState {
        WrapState { lines: span_rows(self.lines@), current: runs(self.current@), width: self.width as int }
    }

    fn new() -> (r: Wrapper)
        ensures
            r.model() == start_state(),
    {
        let r = Wrapper { lines: Vec::new(), current: Vec::new(), width: 0 };
        assert(span_rows(r.lines@) =~= Seq::<Seq<StyledRun>>::empty());
        assert(runs(r.current@) =~= Seq::<StyledRun>::empty());
        r
    }

    /// End the line being filled.
    fn flush(&mut self)
        ensures
            final(self).model() == flushed(old(self).model()),
    {
        trim_trailing_space(&mut self.current);
        let mut cur: Vec<Span> = Vec::new();
        std::mem::swap(&mut cur, &mut self.current);
        let ghost before = span_rows(self.lines@);
        let ghost row = runs(cur@);
        self.lines.push(cur);
        assert(span_rows(self.lines@) =~= before.push(row));
        assert(runs(self.current@) =~= Seq::<StyledRun>::empty());
        self.width = 0;
    }

    /// A word wider than the line, split by characters; the line being
    /// filled is empty when it starts.
    fn split_word(&mut self, t: &Vec<char>, style: Style, w: usize)
        requires
            old(self).width == 0,
            w >= 1,
        ensures
            final(self).model() == split_word(old(self).model(), t@, style, w as int),
            final(self).width <= roomy(w as int),
    {
        let ghost st0 = self.model();
        let ghost s0 = SplitState { st: st0, chunk: Seq::empty(), chunk_width: 0 };
        let mut chunk: Vec<char> = Vec::new();
        let mut cw: usize = 0;
        let mut k: usize = 0;
        while k < t.len()
            invariant
                k <= t@.len(),
                w >= 1,
                self.width == 0,
                cw <= roomy(w as int),
                chunk@.len() == 0 ==> cw == 0,
                (SplitState { st: self.model(), chunk: chunk@, chunk_width: cw as int })
                    == split_chars(s0, t@.take(k as int), style, w as int),
            decreases t@.len() - k,
        {
            let ch = t[k];
            let c = char_cells(ch);
            let ghost prev = SplitState { st: self.model(), chunk: chunk@, chunk_width: cw as int };
            assert(t@.take(k + 1).drop_last() =~= t@.take(k as int));
            if chunk.len() > 0 && (c > w || cw > w - c) {
                push_span(&mut self.current, &chunk, style);
                self.flush();
                chunk = Vec::new();
                chunk.push(ch);
                assert(chunk@ =~= seq![ch]);
                cw = c;
            } else {
                chunk.push(ch);
                cw = cw + c;
            }
            k = k + 1;
        }
        assert(t@.take(t@.len() as int) =~= t@);
        if chunk.len() > 0 {
            push_span(&mut self.current, &chunk, style);
            self.width = cw;
        }
    }

    /// Wrap one token in `style` at `w` columns.
    fn step(&mut self, tok: &Token, style: Style, w: usize)
        requires
            w >= 1,
            old(self).width <= roomy(w as int),
        ensures
            final(self).model() == wrap_step(old(self).model(), tok@, style, w as int),
            final(self).width <= roomy(w as int),
    {
        match tok {
            Token::Newline => {
                self.flush();
            },
            Token::Space(t) => {
                let tw = text_width(t);
                if self.width > 0 && self.width <= w && tw <= w - self.width {
                    push_span(&mut self.current, t, style);
                    self.width = self.width + tw;
                }
            },
            Token::Word(t) => {
                let tw = text_width(t);
                if self.width > 0 && (self.width > w || tw > w - self.width) {
                    self.flush();
                }
                if tw <= w && self.width <= w && tw <= w - self.width {
                    push_span(&mut self.current, t, style);
                    self.width = self.width + tw;
                } else {
                    self.split_word(t, style, w);
                }
            },
        }
    }
}

/// Wrap styled spans to `width` columns. A `"\n"` inside span text forces a
/// line break. Words longer than the width are hard-split. Returns at least
/// one (possibly empty) line.
pub fn wrap_spans(spans: Vec<Span>, width: usize) -> (r: Vec<Line>)
    ensures
        line_models(r@) == spec_wrap(runs(spans@), width as int),
{
    let w: usize = if width < 1 {
        1
    } else {
        width
    };
    let ghost all = runs(spans@);
    let mut st = Wrapper::new();
    let mut i: usize = 0;
    while i < spans.len()
        invariant
            i <= spans@.len(),
            w >= 1,
            all == runs(spans@),
            st.width <= roomy(w as int),
            st.model() == wrap_runs(start_state(), all.take(i as int), w as int),
        decreases spans@.len() - i,
    {
        let chars = chars_of(spans[i].content.as_str());
        let style = spans[i].style;
        let toks = tokenize(&chars);
        let ghost base = wrap_runs(start_state(), all.take(i as int), w as int);
        let mut j: usize = 0;
        while j < toks.len()
            invariant
                j <= toks@.len(),
                w >= 1,
                st.width <= roomy(w as int),
                st.model() == wrap_tokens(base, token_models(toks@).take(j as int), style, w as int),
            decreases toks@.len() - j,
        {
            st.step(&toks[j], style, w);
            assert(token_models(toks@).take(j + 1).drop_last() =~= token_models(toks@).take(j as int));
            j = j + 1;
        }
        assert(token_models(toks@).take(toks@.len() as int) =~= token_models(toks@));
        assert(all.take(i + 1).drop_last() =~= all.take(i as int));
        assert(all[i as int] == spans@[i as int]@);
        i = i + 1;
    }
    assert(all.take(spans@.len() as int) =~= all);
    st.flush();
    let ghost rows = span_rows(st.lines@);
    let ghost ls = rows.map_values(|l: Seq<StyledRun>| line_of(l));
    let mut out: Vec<Line> = Vec::new();
    let mut k: usize = 0;
    while k < st.lines.len()
        invariant
            k <= st.lines@.len(),
            rows == span_rows(st.lines@),
            ls == rows.map_values(|l: Seq<StyledRun>| line_of(l)),
            line_models(out@) == ls.take(k as int),
        decreases st.lines@.len() - k,
    {
        let line = Line::from_spans(super::style::copy_spans(&st.lines[k]));
        let ghost before = line_models(out@);
        out.push(line);
        assert(line_models(out@) =~= before.push(line@));
        k = k + 1;
        assert(ls.take(k as int) =~= before.push(line@));
    }
    assert(ls.take(st.lines@.len() as int) =~= ls);
    let n = out.len();
    if n > 1 && out[n - 1].width() == 0 {
        let ghost before = line_models(out@);
        out.pop();
        assert(line_models(out@) =~= before.drop_last());
    }
    out
}

/// `n` spaces.
pub open spec fn spaces(n: int) -> Seq<char> {
    Seq::new(n as nat, |i: int| ' ')
}

/// Splitting one span's characters at a column: what stays left, what
/// goes right, and the column reached on the left.
pub struct CutState {
    pub head: Seq<char>,
    pub tail: Seq<char>,
    pub width: int,
}

/// Characters cut at column `at`: each goes left while it fits and
/// nothing has gone right yet.
pub open spec fn cut_chars(s: CutState, t: Seq<char>, at: int) -> CutState
    decreases t.len(),
{
    if t.len() == 0 {
        s
    } else {
        let p = cut_chars(s, t.drop_last(), at);
        let c = cells(t.last()) as int;
        if p.width + c <= at && p.tail.len() == 0 {
            CutState { head: p.head.push(t.last()), width: p.width + c, ..p }
        } else {
            CutState { tail: p.tail.push(t.last()), ..p }
        }
    }
}

/// Splitting spans at a column: the left side, the right side, and the
/// column reached on the left.
pub struct SplitAt {
    pub left: Seq<StyledRun>,
    pub right: Seq<StyledRun>,
    pub width: int,
}

/// One span placed by a split at column `at`: wholly left while it fits
/// and nothing went right; wholly right once the column is reached or
/// something went right; otherwise cut, with the left part padded with
/// spaces to the column (so a wide character straddling it goes right).
pub open spec fn split_at_step(s: SplitAt, r: StyledRun, at: int) -> SplitAt {
    let sw = display_width(r.text) as int;
    if s.width + sw <= at && s.right.len() == 0 {
        SplitAt { left: s.left.push(r), width: s.width + sw, ..s }
    } else if s.width >= at || s.right.len() > 0 {
        SplitAt { right: s.right.push(r), ..s }
    } else {
        let c = cut_chars(CutState { head: Seq::empty(), tail: Seq::empty(), width: s.width }, r.text, at);
        let head = if c.width < at {
            c.head + spaces(at - c.width)
        } else {
            c.head
        };
        let width = if c.width < at {
            at
        } else {
            c.width
        };
        SplitAt {
            left: if head.len() > 0 {
                s.left.push(run(head, r.style))
            } else {
                s.left
            },
            right: if c.tail.len() > 0 {
                s.right.push(run(c.tail, r.style))
            } else {
                s.right
            },
            width,
        }
    }
}

/// Spans split at column `at`, one after the other.
pub open spec fn split_runs(spans: Seq<StyledRun>, at: int) -> SplitAt
    decreases spans.len(),
{
    if spans.len() == 0 {
        SplitAt { left: Seq::empty(), right: Seq::empty(), width: 0 }
    } else {
        split_at_step(split_runs(spans.drop_last(), at), spans.last(), at)
    }
}

/// Append `n` spaces.
fn push_spaces(v: &mut Vec<char>, n: usize)
    ensures
        final(v)@ == old(v)@ + spaces(n as int),
{
    let mut k: usize = 0;
    while k < n
        invariant
            k <= n,
            v@ == old(v)@ + spaces(k as int),
        decreases n - k,
    {
        v.push(' ');
        k = k + 1;
        assert(v@ =~= old(v)@ + spaces(k as int));
    }
}

// ---------------------------------------------------------------------
// What a split keeps
/// The text of a run of spans, one after the other.
pub open spec fn run_texts(s: Seq<StyledRun>) -> Seq<char>
    decreases s.len(),
{
    if s.len() == 0 {
        Seq::empty()
    } else {
        run_texts(s.drop_last()) + s.last().text
    }
}

/// Cutting a text's characters keeps them all, in order; the column
/// reached is where the left part ends, and stays within `at`.
proof fn lemma_cut_keeps_text(w0: int, t: Seq<char>, at: int)
    requires
        0 <= w0 <= at,
        display_width(t) < usize::MAX,
    ensures
        ({
            let c = cut_chars(CutState { head: Seq::empty(), tail: Seq::empty(), width: w0 }, t, at);
            &&& c.head + c.tail == t
            &&& c.width == w0 + display_width(c.head)
            &&& c.width <= at
        }),
    decreases t.len(),
{
    let s0 = CutState { head: Seq::empty(), tail: Seq::empty(), width: w0 };
    if t.len() == 0 {
        assert(s0.head + s0.tail =~= t);
    } else {
        let t1 = t.drop_last();
        lemma_width_grows(t, t.len() - 1);
        assert(t.take(t.len() - 1) =~= t1);
        lemma_cut_keeps_text(w0, t1, at);
        let p = cut_chars(s0, t1, at);
        let ch = t.last();
        let c = cells(ch) as int;
        if p.width + c <= at && p.tail.len() == 0 {
            assert(p.head =~= t1);
            assert(p.head.push(ch) =~= t);
            assert(p.head.push(ch).drop_last() =~= p.head);
            lemma_width_capped(p.head);
            assert(p.head.push(ch) + Seq::<char>::empty() =~= t);
        } else {
            assert(t =~= t1.push(ch));
            assert(p.head + p.tail.push(ch) =~= (p.head + p.tail).push(ch));
        }
    }
}

/// A split keeps every character: the left side is a prefix of the text
/// followed by padding spaces, and that prefix followed by the right side
/// is the whole text; there is padding only when something went right.
pub open spec fn split_keeps_text(r: SplitAt, all: Seq<char>) -> bool {
    let l = run_texts(r.left);
    exists|k: int|
        0 <= k <= l.len() && l.skip(l.len() - k) == spaces(k) && #[trigger] l.take(l.len() - k) + run_texts(r.right)
            == all && (r.right.len() == 0 ==> k == 0)
}

#[verifier::rlimit(40)]
proof fn lemma_split_keeps_text(spans: Seq<StyledRun>, at: int)
    requires
        at >= 0,
        forall|i: int| 0 <= i < spans.len() ==> display_width(#[trigger] spans[i].text) < usize::MAX,
    ensures
        split_keeps_text(split_runs(spans, at), run_texts(spans)),
        split_runs(spans, at).width <= at || split_runs(spans, at).right.len() > 0,
        split_runs(spans, at).width >= 0,
    decreases spans.len(),
{
    if spans.len() == 0 {
        let r = split_runs(spans, at);
        assert(run_texts(r.left).take(0) + run_texts(r.right) =~= run_texts(spans));
        assert(run_texts(r.left).skip(0) =~= spaces(0));
        assert(split_keeps_text(r, run_texts(spans)));
    } else {
        let prev = spans.drop_last();
        assert forall|i: int| 0 <= i < prev.len() implies display_width(#[trigger] prev[i].text) < usize::MAX by {
            assert(prev[i] == spans[i]);
        }
        lemma_split_keeps_text(prev, at);
        let s = split_runs(prev, at);
        let r = spans.last();
        assert(spans[spans.len() - 1] == r);
        let all0 = run_texts(prev);
        let all = run_texts(spans);
        assert(all == all0 + r.text);
        let l = run_texts(s.left);
        let rt = run_texts(s.right);
        let k = choose|k: int|
            0 <= k <= l.len() && l.skip(l.len() - k) == spaces(k) && #[trigger] l.take(l.len() - k) + rt == all0
                && (s.right.len() == 0 ==> k == 0);
        let sw = display_width(r.text) as int;
        let n = split_at_step(s, r, at);
        assert(split_runs(spans, at) == n);
        if s.width + sw <= at && s.right.len() == 0 {
            assert(run_texts(s.right) =~= Seq::<char>::empty());
            assert(l.take(l.len() - 0) =~= l);
            let nl = run_texts(n.left);
            assert(n.left.drop_last() == s.left);
            assert(nl == l + r.text);
            assert(nl.take(nl.len() - 0) + run_texts(n.right) =~= all);
            assert(nl.skip(nl.len() - 0) =~= spaces(0));
            assert(split_keeps_text(n, all));
        } else if s.width >= at || s.right.len() > 0 {
            assert(n.right.drop_last() == s.right);
            assert(run_texts(n.right) == rt + r.text);
            assert(l.take(l.len() - k) + run_texts(n.right) =~= all);
            assert(run_texts(n.left) == l);
            assert(split_keeps_text(n, all));
        } else {
            assert(run_texts(s.right) =~= Seq::<char>::empty());
            assert(l.take(l.len() - 0) =~= l);
            assert(l == all0);
            lemma_cut_keeps_text(s.width, r.text, at);
            let c = cut_chars(CutState { head: Seq::empty(), tail: Seq::empty(), width: s.width }, r.text, at);
            if c.tail.len() == 0 {
                assert(c.head =~= r.text);
                assert(false);
            }
            let head = if c.width < at { c.head + spaces(at - c.width) } else { c.head };
            let pad = if c.width < at { at - c.width } else { 0 };
            assert(head =~= c.head + spaces(pad));
            let nl = run_texts(n.left);
            if head.len() > 0 {
                assert(n.left.drop_last() == s.left);
                assert(nl == l + head);
            } else {
                assert(nl == l);
                assert(l + head =~= l);
            }
            assert(nl =~= l + c.head + spaces(pad));
            assert(n.right.drop_last() == s.right);
            assert(run_texts(n.right) =~= c.tail);
            assert(nl.skip(nl.len() - pad) =~= spaces(pad));
            assert(nl.take(nl.len() - pad) =~= l + c.head);
            assert(nl.take(nl.len() - pad) + run_texts(n.right) =~= all);
            assert(split_keeps_text(n, all));
        }
    }
}

/// Splitting spans keeps their text: the left side is a prefix of the
/// text, padded with spaces only where a character straddling the column
/// went right, and that prefix followed by the right side is the whole
/// text. (Widths are counted without hitting the cap.)
pub proof fn law_split_keeps_the_text(spans: Seq<StyledRun>, at: int)
    requires
        at >= 0,
        forall|i: int| 0 <= i < spans.len() ==> display_width(#[trigger] spans[i].text) < usize::MAX,
    ensures
        split_keeps_text(split_runs(spans, at), run_texts(spans)),
{
    lemma_split_keeps_text(spans, at);
}

// ---------------------------------------------------------------------
// Where each cell of a split goes
/// The characters of a run of spans, each with its span's style.
pub open spec fn styled_chars(s: Seq<StyledRun>) -> Seq<(char, Style)>
    decreases s.len(),
{
    if s.len() == 0 {
        Seq::empty()
    } else {
        styled_chars(s.drop_last()) + with_style(s.last().text, s.last().style)
    }
}

/// The characters of `t`, each in style `st`.
pub open spec fn with_style(t: Seq<char>, st: Style) -> Seq<(char, Style)> {
    t.map_values(|c: char| (c, st))
}

/// `n` spaces in style `st`.
pub open spec fn styled_spaces(n: int, st: Style) -> Seq<(char, Style)> {
    Seq::new(n as nat, |i: int| (' ', st))
}

/// A split places every character, in its span's style: the left side is
/// a prefix of the styled text followed by `k` pad spaces, and that prefix
/// followed by the right side is the whole styled text. Padding comes only
/// where the right side starts with a character wider than the pad, which
/// straddled the column; the pad takes that character's style.
pub open spec fn split_keeps_styles(r: SplitAt, all: Seq<(char, Style)>) -> bool {
    let l = styled_chars(r.left);
    let rr = styled_chars(r.right);
    exists|k: int|
        0 <= k <= l.len() && #[trigger] l.take(l.len() - k) + rr == all && (k == 0 || (rr.len() > 0
            && l.skip(l.len() - k) == styled_spaces(k, rr[0].1) && cells(rr[0].0) > k))
}

/// Uncapped widths add up, and each part stays below the cap.
proof fn lemma_width_parts(a: Seq<char>, b: Seq<char>)
    requires
        display_width(a + b) < usize::MAX,
    ensures
        display_width(a) + display_width(b) == display_width(a + b),
    decreases b.len(),
{
    if b.len() == 0 {
        assert(a + b =~= a);
    } else {
        let b1 = b.drop_last();
        assert((a + b).drop_last() =~= a + b1);
        assert((a + b).last() == b.last());
        lemma_width_capped(a + b1);
        lemma_width_parts(a, b1);
    }
}

/// Spaces are one column each.
proof fn lemma_spaces_width(n: int)
    requires
        0 <= n < usize::MAX,
    ensures
        display_width(spaces(n)) == n,
    decreases n,
{
    if n > 0 {
        assert(spaces(n).drop_last() =~= spaces(n - 1));
        lemma_spaces_width(n - 1);
    } else {
        assert(spaces(n) =~= Seq::<char>::empty());
    }
}

/// The first character that does not fit starts the cut's tail; the
/// column reached stays where it was.
proof fn lemma_cut_tail_starts_wide(w0: int, t: Seq<char>, at: int)
    ensures
        ({
            let c = cut_chars(CutState { head: Seq::empty(), tail: Seq::empty(), width: w0 }, t, at);
            c.tail.len() > 0 ==> c.width + cells(c.tail[0]) > at
        }),
    decreases t.len(),
{
    if t.len() > 0 {
        lemma_cut_tail_starts_wide(w0, t.drop_last(), at);
    }
}

proof fn lemma_split_styles(spans: Seq<StyledRun>, at: int)
    requires
        at >= 0,
        display_width(run_texts(spans)) < usize::MAX,
    ensures
        ({
            let r = split_runs(spans, at);
            &&& split_keeps_styles(r, styled_chars(spans))
            &&& r.width == display_width(run_texts(r.left))
            &&& 0 <= r.width <= at
            &&& r.right.len() == 0 ==> run_texts(r.left) == run_texts(spans)
            &&& r.right.len() > 0 ==> r.width == at && display_width(run_texts(spans)) >= at
        }),
    decreases spans.len(),
{
    let r0 = split_runs(spans, at);
    if spans.len() == 0 {
        assert(styled_chars(r0.left).take(0) + styled_chars(r0.right) =~= styled_chars(spans));
    } else {
        let prev = spans.drop_last();
        let x = spans.last();
        lemma_width_parts(run_texts(prev), x.text);
        lemma_split_styles(prev, at);
        let s = split_runs(prev, at);
        let l = styled_chars(s.left);
        let rr = styled_chars(s.right);
        let all0 = styled_chars(prev);
        let all = styled_chars(spans);
        let cx = with_style(x.text, x.style);
        assert(all == all0 + cx);
        let k0 = choose|k: int|
            0 <= k <= l.len() && #[trigger] l.take(l.len() - k) + rr == all0 && (k == 0 || (rr.len() > 0
                && l.skip(l.len() - k) == styled_spaces(k, rr[0].1) && cells(rr[0].0) > k));
        let sw = display_width(x.text) as int;
        let n = split_at_step(s, x, at);
        assert(n == r0);
        if s.width + sw <= at && s.right.len() == 0 {
            assert(rr =~= Seq::<(char, Style)>::empty());
            assert(k0 == 0);
            let nl = styled_chars(n.left);
            assert(n.left.drop_last() == s.left);
            assert(nl == l + cx);
            assert(l.take(l.len() - 0) =~= l);
            assert(nl.take(nl.len() - 0) + styled_chars(n.right) =~= all);
            assert(run_texts(n.left) == run_texts(s.left) + x.text);
            lemma_width_parts(run_texts(s.left), x.text);
        } else if s.width >= at || s.right.len() > 0 {
            assert(n.right.drop_last() == s.right);
            let nr = styled_chars(n.right);
            assert(nr == rr + cx);
            assert(l.take(l.len() - k0) + nr =~= all);
            if k0 > 0 {
                assert(nr[0] == rr[0]);
            }
            assert(styled_chars(n.left) == l);
            assert(0 <= k0 <= l.len() && l.take(l.len() - k0) + nr == all && (k0 == 0 || (nr.len() > 0
                && l.skip(l.len() - k0) == styled_spaces(k0, nr[0].1) && cells(nr[0].0) > k0)));
            assert(split_keeps_styles(n, all));
            if s.right.len() == 0 {
                assert(run_texts(s.left) == run_texts(prev));
            }
        } else {
            assert(rr =~= Seq::<(char, Style)>::empty());
            assert(k0 == 0);
            assert(l.take(l.len() - 0) =~= l);
            assert(l == all0);
            assert(run_texts(s.left) == run_texts(prev));
            assert(at < usize::MAX);
            lemma_cut_keeps_text(s.width, x.text, at);
            lemma_cut_tail_starts_wide(s.width, x.text, at);
            let c = cut_chars(CutState { head: Seq::empty(), tail: Seq::empty(), width: s.width }, x.text, at);
            if c.tail.len() == 0 {
                assert(c.head =~= x.text);
                assert(false);
            }
            let pad = if c.width < at { at - c.width } else { 0 };
            let head = if c.width < at { c.head + spaces(at - c.width) } else { c.head };
            assert(head =~= c.head + spaces(pad));
            let nl = styled_chars(n.left);
            let nr = styled_chars(n.right);
            assert(n.right.drop_last() == s.right);
            assert(nr =~= with_style(c.tail, x.style));
            assert(c.head + c.tail == x.text);
            assert(with_style(c.head, x.style) + with_style(c.tail, x.style) =~= cx);
            if head.len() > 0 {
                assert(n.left.drop_last() == s.left);
                assert(nl == l + with_style(head, x.style));
                assert(run_texts(n.left) == run_texts(s.left) + head);
            } else {
                assert(nl == l);
                assert(run_texts(n.left) == run_texts(s.left));
                assert(head =~= Seq::<char>::empty());
            }
            assert(nl =~= l + with_style(c.head, x.style) + styled_spaces(pad, x.style));
            assert(nl.take(nl.len() - pad) =~= l + with_style(c.head, x.style));
            assert(nl.skip(nl.len() - pad) =~= styled_spaces(pad, x.style));
            assert(nl.take(nl.len() - pad) + nr =~= all);
            assert(nr[0] == (c.tail[0], x.style));
            assert(split_keeps_styles(n, all));
            lemma_spaces_width(pad);
            lemma_width_adds(run_texts(s.left), c.head);
            lemma_width_adds(run_texts(s.left) + c.head, spaces(pad));
            assert(run_texts(s.left) + head =~= (run_texts(s.left) + c.head) + spaces(pad));
        }
    }
}

/// Splitting spans at column `at` places every cell: the left side is
/// `min(at, width)` columns wide, and every character keeps its span's
/// style, a pad space taking the style of the wide character that
/// straddled the column. (Widths are counted without hitting the cap.)
pub proof fn law_split_places_every_cell(spans: Seq<StyledRun>, at: int)
    requires
        at >= 0,
        display_width(run_texts(spans)) < usize::MAX,
    ensures
        display_width(run_texts(split_runs(spans, at).left)) == if at < display_width(run_texts(spans)) {
            at
        } else {
            display_width(run_texts(spans)) as int
        },
        split_keeps_styles(split_runs(spans, at), styled_chars(spans)),
{
    lemma_split_styles(spans, at);
}

/// Split spans at display column `at`: everything left of it, and
/// everything at or right of it. A wide character straddling the
/// boundary goes right, with a pad space keeping the left side's width.
pub fn split_spans_at(spans: Vec<Span>, at: usize) -> (r: (Vec<Span>, Vec<Span>))
    ensures
        runs(r.0@) == split_runs(runs(spans@), at as int).left,
        runs(r.1@) == split_runs(runs(spans@), at as int).right,
{
    let ghost all = runs(spans@);
    let mut left: Vec<Span> = Vec::new();
    let mut right: Vec<Span> = Vec::new();
    let mut width: usize = 0;
    let mut i: usize = 0;
    assert(runs(left@) =~= Seq::<StyledRun>::empty());
    assert(runs(right@) =~= Seq::<StyledRun>::empty());
    while i < spans.len()
        invariant
            i <= spans@.len(),
            all == runs(spans@),
            width <= at,
            (SplitAt { left: runs(left@), right: runs(right@), width: width as int }) == split_runs(
                all.take(i as int),
                at as int,
            ),
        decreases spans@.len() - i,
    {
        assert(all.take(i + 1).drop_last() =~= all.take(i as int));
        assert(all[i as int] == spans@[i as int]@);
        let span = spans[i].copy();
        let chars = chars_of(span.content.as_str());
        let sw = text_width(&chars);
        let ghost lb = runs(left@);
        let ghost rb = runs(right@);
        if sw <= at - width && right.len() == 0 {
            width = width + sw;
            let ghost m = span@;
            left.push(span);
            assert(runs(left@) =~= lb.push(m));
        } else if width >= at || right.len() > 0 {
            let ghost m = span@;
            right.push(span);
            assert(runs(right@) =~= rb.push(m));
        } else {
            let mut head: Vec<char> = Vec::new();
            let mut tail: Vec<char> = Vec::new();
            let ghost c0 = CutState { head: Seq::empty(), tail: Seq::empty(), width: width as int };
            let mut k: usize = 0;
            while k < chars.len()
                invariant
                    k <= chars@.len(),
                    width <= at,
                    (CutState { head: head@, tail: tail@, width: width as int }) == cut_chars(
                        c0,
                        chars@.take(k as int),
                        at as int,
                    ),
                decreases chars@.len() - k,
            {
                let ch = chars[k];
                let c = char_cells(ch);
                assert(chars@.take(k + 1).drop_last() =~= chars@.take(k as int));
                if c <= at - width && tail.len() == 0 {
                    head.push(ch);
                    width = width + c;
                } else {
                    tail.push(ch);
                }
                k = k + 1;
            }
            assert(chars@.take(chars@.len() as int) =~= chars@);
            if width < at {
                push_spaces(&mut head, at - width);
                width = at;
            }
            if head.len() > 0 {
                let s = Span::styled(string_of(head.as_slice()), span.style);
                left.push(s);
                assert(runs(left@) =~= lb.push(s@));
            }
            if tail.len() > 0 {
                let s = Span::styled(string_of(tail.as_slice()), span.style);
                right.push(s);
                assert(runs(right@) =~= rb.push(s@));
            }
        }
        i = i + 1;
    }
    assert(all.take(spans@.len() as int) =~= all);
    (left, right)
}

} // verus!
