//! The skeleton presentation written by `keynot new`: the tour example,
//! personalized with the new file's title.
use vstd::prelude::*;

use crate::markdown::metadata::Metadata;
use crate::text::{append_str, chars_of, extend_chars, string_of};

verus! {

/// The title a new deck takes from its file's stem: `-` and `_` read as
/// spaces; a file without a stem gets a generic title.
pub open spec fn spec_deck_title(stem: Seq<char>) -> Seq<char> {
    if stem.len() == 0 {
        "My Presentation"@
    } else {
        stem.map_values(|c: char| if c == '-' || c == '_' { ' ' } else { c })
    }
}

/// The title for a new deck stored under a file with stem `stem` (empty
/// where the path has none).
pub fn deck_title(stem: &str) -> (r: String)
    ensures
        r@ == spec_deck_title(stem@),
{
    let cs = chars_of(stem);
    if cs.len() == 0 {
        return string_of(chars_of("My Presentation").as_slice());
    }
    let mut out: Vec<char> = Vec::new();
    let mut i: usize = 0;
    while i < cs.len()
        invariant
            i <= cs@.len(),
            cs@ == stem@,
            out@ == cs@.take(i as int).map_values(|c: char| if c == '-' || c == '_' { ' ' } else { c }),
        decreases cs@.len() - i,
    {
        let c = cs[i];
        if c == '-' || c == '_' {
            out.push(' ');
        } else {
            out.push(c);
        }
        i = i + 1;
        assert(cs@.take(i as int) =~= cs@.take(i - 1).push(c));
    }
    assert(cs@.take(cs@.len() as int) =~= cs@);
    string_of(out.as_slice())
}

/// `s` with every occurrence of `p` replaced by `r`, matching left to
/// right without overlap, as `str::replace` does (an empty `p` matches
/// before every character and at the end).
pub open spec fn replace_all(s: Seq<char>, p: Seq<char>, r: Seq<char>) -> Seq<char>
    decreases s.len(),
{
    if p.len() == 0 {
        if s.len() == 0 {
            r
        } else {
            r + seq![s[0]] + replace_all(s.skip(1), p, r)
        }
    } else if s.len() < p.len() {
        s
    } else if s.take(p.len() as int) == p {
        r + replace_all(s.skip(p.len() as int), p, r)
    } else {
        seq![s[0]] + replace_all(s.skip(1), p, r)
    }
}

/// `s` with the first occurrence of `p` replaced by `r`, as
/// `str::replacen(p, r, 1)` does.
pub open spec fn replace_first(s: Seq<char>, p: Seq<char>, r: Seq<char>) -> Seq<char>
    decreases s.len(),
{
    if p.len() == 0 {
        r + s
    } else if s.len() < p.len() {
        s
    } else if s.take(p.len() as int) == p {
        r + s.skip(p.len() as int)
    } else {
        seq![s[0]] + replace_first(s.skip(1), p, r)
    }
}

/// Whether `p` occurs in `s` at `i`.
pub open spec fn occurs_at(s: Seq<char>, i: int, p: Seq<char>) -> bool {
    i + p.len() <= s.len() && s.subrange(i, i + p.len() as int) == p
}

/// The starter presentation made from `tour`: line endings normalized to
/// `\n`, the tour's title (frontmatter and title slide) replaced by
/// `title` everywhere, its author line made a placeholder and its date
/// line dropped. `m` is the tour's own metadata, so a field the tour
/// lacks is simply skipped.
pub open spec fn personalized(tour: Seq<char>, m: Metadata, title: Seq<char>) -> Seq<char> {
    let normal = replace_all(tour, "\r\n"@, "\n"@);
    let titled = match m.title {
        Some(t) => replace_all(normal, t@, title),
        None => normal,
    };
    let authored = match m.author {
        Some(a) => replace_first(titled, "author: "@ + a@ + "\n"@, "author: Your Name\n"@),
        None => titled,
    };
    match m.date {
        Some(d) => replace_first(authored, "date: "@ + d@ + "\n"@, Seq::empty()),
        None => authored,
    }
}

/// Whether `p` occurs in `s` at `i`.
pub(crate) fn matches_at(s: &Vec<char>, i: usize, p: &Vec<char>) -> (r: bool)
    requires
        i <= s@.len(),
    ensures
        r == occurs_at(s@, i as int, p@),
{
    if p.len() > s.len() - i {
        return false;
    }
    let n = s.len();
    let mut k: usize = 0;
    while k < p.len()
        invariant
            n == s@.len(),
            i + p@.len() <= s@.len(),
            k <= p@.len(),
            forall|j: int| 0 <= j < k ==> s@[i + j] == p@[j],
        decreases p@.len() - k,
    {
        assert(i + k < n);
        if s[i + k] != p[k] {
            assert(s@.subrange(i as int, i + p@.len())[k as int] != p@[k as int]);
            return false;
        }
        k = k + 1;
    }
    assert(s@.subrange(i as int, i + p@.len()) =~= p@);
    true
}

/// `replace_all` computed.
fn replace_all_vec(s: &Vec<char>, p: &Vec<char>, r: &Vec<char>) -> (out: Vec<char>)
    ensures
        out@ == replace_all(s@, p@, r@),
{
    let mut out: Vec<char> = Vec::new();
    let mut i: usize = 0;
    assert(s@.skip(0) =~= s@);
    while i < s.len()
        invariant
            i <= s@.len(),
            out@ + replace_all(s@.skip(i as int), p@, r@) == replace_all(s@, p@, r@),
        decreases s@.len() - i,
    {
        let ghost rest = s@.skip(i as int);
        if p.len() == 0 {
            extend_chars(&mut out, r);
            out.push(s[i]);
            assert(rest.skip(1) =~= s@.skip(i + 1));
            i = i + 1;
        } else if matches_at(s, i, p) {
            assert(rest.take(p@.len() as int) =~= s@.subrange(i as int, i + p@.len()));
            extend_chars(&mut out, r);
            assert(rest.skip(p@.len() as int) =~= s@.skip(i + p@.len()));
            i = i + p.len();
        } else if p.len() > s.len() - i {
            extend_chars(&mut out, &s_rest(s, i));
            assert(out@ =~= replace_all(s@, p@, r@));
            return out;
        } else {
            assert(rest.take(p@.len() as int) =~= s@.subrange(i as int, i + p@.len()));
            out.push(s[i]);
            assert(rest.skip(1) =~= s@.skip(i + 1));
            i = i + 1;
        }
        assert(out@ + replace_all(s@.skip(i as int), p@, r@) =~= replace_all(s@, p@, r@));
    }
    assert(s@.skip(i as int) =~= Seq::<char>::empty());
    if p.len() == 0 {
        extend_chars(&mut out, r);
    }
    assert(out@ =~= replace_all(s@, p@, r@));
    out
}

/// The characters of `s` from `i` on.
fn s_rest(s: &Vec<char>, i: usize) -> (r: Vec<char>)
    requires
        i <= s@.len(),
    ensures
        r@ == s@.skip(i as int),
{
    let mut r: Vec<char> = Vec::new();
    let mut k: usize = i;
    while k < s.len()
        invariant
            i <= k <= s@.len(),
            r@ == s@.subrange(i as int, k as int),
        decreases s@.len() - k,
    {
        r.push(s[k]);
        k = k + 1;
        assert(r@ =~= s@.subrange(i as int, k as int));
    }
    assert(r@ =~= s@.skip(i as int));
    r
}

/// `replace_first` computed.
fn replace_first_vec(s: &Vec<char>, p: &Vec<char>, r: &Vec<char>) -> (out: Vec<char>)
    ensures
        out@ == replace_first(s@, p@, r@),
{
    let mut out: Vec<char> = Vec::new();
    if p.len() == 0 {
        extend_chars(&mut out, r);
        extend_chars(&mut out, s);
        return out;
    }
    let mut i: usize = 0;
    assert(s@.skip(0) =~= s@);
    while i < s.len()
        invariant
            i <= s@.len(),
            p@.len() > 0,
            out@ + replace_first(s@.skip(i as int), p@, r@) == replace_first(s@, p@, r@),
        ensures
            i <= s@.len(),
            p@.len() > s@.len() - i,
            out@ + replace_first(s@.skip(i as int), p@, r@) == replace_first(s@, p@, r@),
        decreases s@.len() - i,
    {
        let ghost rest = s@.skip(i as int);
        if p.len() > s.len() - i {
            break;
        }
        assert(rest.take(p@.len() as int) =~= s@.subrange(i as int, i + p@.len()));
        if matches_at(s, i, p) {
            extend_chars(&mut out, r);
            let tail = s_rest(s, i + p.len());
            assert(rest.skip(p@.len() as int) =~= tail@);
            extend_chars(&mut out, &tail);
            assert(out@ =~= replace_first(s@, p@, r@));
            return out;
        }
        out.push(s[i]);
        assert(rest.skip(1) =~= s@.skip(i + 1));
        i = i + 1;
        assert(out@ + replace_first(s@.skip(i as int), p@, r@) =~= replace_first(s@, p@, r@));
    }
    let tail = s_rest(s, i);
    extend_chars(&mut out, &tail);
    assert(out@ =~= replace_first(s@, p@, r@));
    out
}

/// The starter presentation: `tour` (the tour example, whose parsed
/// metadata is `tour_metadata`) with its title replaced by `title`, a
/// placeholder author, and the date dropped.
///
/// The values to replace are read from the tour's own metadata rather
/// than hardcoded, so editing the tour cannot silently break this
/// personalization.
pub fn skeleton(tour: &str, tour_metadata: &Metadata, title: &str) -> (r: String)
    ensures
        r@ == personalized(tour@, *tour_metadata, title@),
{
    // Normalize first: a CRLF checkout would otherwise defeat the
    // line-exact replacements below.
    let raw = chars_of(tour);
    let mut out = replace_all_vec(&raw, &chars_of("\r\n"), &chars_of("\n"));
    match &tour_metadata.title {
        Some(t) => {
            out = replace_all_vec(&out, &chars_of(t.as_str()), &chars_of(title));
        },
        None => {},
    }
    match &tour_metadata.author {
        Some(a) => {
            let mut line: Vec<char> = Vec::new();
            append_str(&mut line, "author: ");
            append_str(&mut line, a.as_str());
            append_str(&mut line, "\n");
            out = replace_first_vec(&out, &line, &chars_of("author: Your Name\n"));
        },
        None => {},
    }
    match &tour_metadata.date {
        Some(d) => {
            let mut line: Vec<char> = Vec::new();
            append_str(&mut line, "date: ");
            append_str(&mut line, d.as_str());
            append_str(&mut line, "\n");
            out = replace_first_vec(&out, &line, &Vec::new());
        },
        None => {},
    }
    string_of(out.as_slice())
}

} // verus!
