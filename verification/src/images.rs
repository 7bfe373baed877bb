//! Image sizing and source classification, the decisions the player makes
//! before it loads and draws a picture.
use vstd::prelude::*;

use crate::markdown::slide::{Block, Slide};
use crate::text::{append_str, chars_of, str_eq, string_of};

verus! {

/// `http://`.
pub open spec fn http_prefix() -> Seq<char> {
    seq!['h', 't', 't', 'p', ':', '/', '/']
}

/// `https://`.
pub open spec fn https_prefix() -> Seq<char> {
    seq!['h', 't', 't', 'p', 's', ':', '/', '/']
}

/// `s` starts with `p`.
pub open spec fn starts_with(s: Seq<char>, p: Seq<char>) -> bool {
    p.len() <= s.len() && s.take(p.len() as int) == p
}

/// An image source fetched over the network rather than read from disk.
pub open spec fn spec_is_url(s: Seq<char>) -> bool {
    starts_with(s, http_prefix()) || starts_with(s, https_prefix())
}

/// `s` starts with the characters of `p`.
fn has_prefix(s: &Vec<char>, p: &Vec<char>) -> (r: bool)
    ensures
        r == starts_with(s@, p@),
{
    if p.len() > s.len() {
        return false;
    }
    let mut i: usize = 0;
    while i < p.len()
        invariant
            i <= p@.len() <= s@.len(),
            s@.take(i as int) == p@.take(i as int),
        decreases p@.len() - i,
    {
        if s[i] != p[i] {
            assert(s@.take(p@.len() as int)[i as int] != p@[i as int]);
            return false;
        }
        i = i + 1;
        assert(s@.take(i as int) =~= s@.take(i - 1).push(s@[i - 1]));
        assert(p@.take(i as int) =~= p@.take(i - 1).push(p@[i - 1]));
    }
    assert(p@.take(p@.len() as int) =~= p@);
    true
}

/// Whether an image source is an `http(s)` URL (fetched over the
/// network) rather than a filesystem path.
pub fn is_url(source: &str) -> (r: bool)
    ensures
        r == spec_is_url(source@),
{
    let s = chars_of(source);
    let http = vec!['h', 't', 't', 'p', ':', '/', '/'];
    let https = vec!['h', 't', 't', 'p', 's', ':', '/', '/'];
    assert(http@ =~= http_prefix());
    assert(https@ =~= https_prefix());
    has_prefix(&s, &http) || has_prefix(&s, &https)
}

/// `x`, but at least 1.
pub open spec fn at_least_one(x: int) -> int {
    if x < 1 {
        1
    } else {
        x
    }
}

/// `natural` (cols, rows) scaled down proportionally to fit within `max`:
/// first the width is clamped (rows scaled with it), then the height
/// (columns scaled with it). Zero dimensions count as one, and no
/// dimension ever scales to zero.
pub open spec fn spec_fit(natural: (u16, u16), max: (u16, u16)) -> (int, int) {
    let w0 = at_least_one(natural.0 as int);
    let h0 = at_least_one(natural.1 as int);
    let max_w = at_least_one(max.0 as int);
    let max_h = at_least_one(max.1 as int);
    let (w1, h1) = if w0 > max_w {
        (max_w, at_least_one(h0 * max_w / w0))
    } else {
        (w0, h0)
    };
    if h1 > max_h {
        (at_least_one(w1 * max_h / h1), max_h)
    } else {
        (w1, h1)
    }
}

proof fn lemma_scale_down(a: int, num: int, den: int)
    requires
        0 <= a,
        0 < num < den,
    ensures
        0 <= a * num / den <= a,
{
    assert(a * num <= a * den) by (nonlinear_arith)
        requires
            0 <= a,
            num < den,
    ;
    assert(0 <= a * num) by (nonlinear_arith)
        requires
            0 <= a,
            0 < num,
    ;
    assert(a * num / den <= a * den / den) by (nonlinear_arith)
        requires
            a * num <= a * den,
            0 < den,
    ;
    assert(a * den / den == a) by (nonlinear_arith)
        requires
            0 < den,
    ;
    assert(0 <= a * num / den) by (nonlinear_arith)
        requires
            0 <= a * num,
            0 < den,
    ;
}

/// Scale `natural` (cols, rows) down proportionally to fit within `max`.
/// Never scales up, and never returns a zero dimension.
pub fn fit(natural: (u16, u16), max: (u16, u16)) -> (r: (u16, u16))
    ensures
        (r.0 as int, r.1 as int) == spec_fit(natural, max),
        1 <= r.0,
        1 <= r.1,
        r.0 <= at_least_one(max.0 as int),
        r.1 <= at_least_one(max.1 as int),
        r.0 <= at_least_one(natural.0 as int),
        r.1 <= at_least_one(natural.1 as int),
{
    let mut w: u32 = if natural.0 < 1 { 1 } else { natural.0 as u32 };
    let mut h: u32 = if natural.1 < 1 { 1 } else { natural.1 as u32 };
    let max_w: u32 = if max.0 < 1 { 1 } else { max.0 as u32 };
    let max_h: u32 = if max.1 < 1 { 1 } else { max.1 as u32 };
    if w > max_w {
        proof {
            lemma_scale_down(h as int, max_w as int, w as int);
        }
        assert(h * max_w <= 0xffff * 0xffff) by (nonlinear_arith)
            requires
                h <= 0xffff,
                max_w <= 0xffff,
        ;
        let scaled = h * max_w / w;
        h = if scaled < 1 { 1 } else { scaled };
        w = max_w;
    }
    if h > max_h {
        proof {
            lemma_scale_down(w as int, max_h as int, h as int);
        }
        assert(w * max_h <= 0xffff * 0xffff) by (nonlinear_arith)
            requires
                w <= 0xffff,
                max_h <= 0xffff,
        ;
        let scaled = w * max_h / h;
        w = if scaled < 1 { 1 } else { scaled };
        h = max_h;
    }
    (w as u16, h as u16)
}

/// The sources of the pictures that stand alone among `bs`, in order.
pub open spec fn pictures_in(bs: Seq<Block>) -> Seq<Seq<char>>
    decreases bs.len(),
{
    if bs.len() == 0 {
        Seq::empty()
    } else {
        let rest = pictures_in(bs.drop_last());
        match bs.last() {
            Block::Image { source, alt } => rest.push(source@),
            _ => rest,
        }
    }
}

/// The picture sources of a slide's columns, column by column.
pub open spec fn pictures_in_columns(cols: Seq<Vec<Block>>) -> Seq<Seq<char>>
    decreases cols.len(),
{
    if cols.len() == 0 {
        Seq::empty()
    } else {
        pictures_in_columns(cols.drop_last()) + pictures_in(cols.last()@)
    }
}

impl Slide {
    /// The sources of the slide's stand-alone pictures (the ones the
    /// player draws), column by column, in order.
    pub fn image_sources(&self) -> (r: Vec<String>)
        ensures
            r@.map_values(|s: String| s@) == pictures_in_columns(self.columns@),
    {
        let mut out: Vec<String> = Vec::new();
        let mut c: usize = 0;
        while c < self.columns.len()
            invariant
                c <= self.columns@.len(),
                out@.map_values(|s: String| s@) == pictures_in_columns(self.columns@.take(c as int)),
            decreases self.columns@.len() - c,
        {
            let blocks = &self.columns[c];
            let ghost before = out@.map_values(|s: String| s@);
            let mut i: usize = 0;
            while i < blocks.len()
                invariant
                    i <= blocks@.len(),
                    out@.map_values(|s: String| s@) == before + pictures_in(blocks@.take(i as int)),
                decreases blocks@.len() - i,
            {
                assert(blocks@.take(i + 1).drop_last() =~= blocks@.take(i as int));
                match &blocks[i] {
                    Block::Image { source, alt: _ } => {
                        let ghost ob = out@.map_values(|s: String| s@);
                        out.push(source.clone());
                        assert(out@.map_values(|s: String| s@) =~= ob.push(source@));
                    },
                    _ => {},
                }
                i = i + 1;
            }
            assert(blocks@.take(blocks@.len() as int) =~= blocks@);
            assert(self.columns@.take(c + 1).drop_last() =~= self.columns@.take(c as int));
            c = c + 1;
        }
        assert(self.columns@.take(self.columns@.len() as int) =~= self.columns@);
        out
    }
}

/// The picture sources of a whole deck, slide by slide.
pub open spec fn deck_pictures(slides: Seq<Slide>) -> Seq<Seq<char>>
    decreases slides.len(),
{
    if slides.len() == 0 {
        Seq::empty()
    } else {
        deck_pictures(slides.drop_last()) + pictures_in_columns(slides.last().columns@)
    }
}

/// `s` with later repeats dropped: each item once, where it first occurs.
pub open spec fn first_occurrences(s: Seq<Seq<char>>) -> Seq<Seq<char>>
    decreases s.len(),
{
    if s.len() == 0 {
        Seq::empty()
    } else {
        let d = first_occurrences(s.drop_last());
        if d.contains(s.last()) {
            d
        } else {
            d.push(s.last())
        }
    }
}

/// Whether `v` holds a string equal to `s`.
fn holds(v: &Vec<String>, s: &String) -> (r: bool)
    ensures
        r == v@.map_values(|x: String| x@).contains(s@),
{
    let ghost m = v@.map_values(|x: String| x@);
    let mut i: usize = 0;
    while i < v.len()
        invariant
            i <= v@.len(),
            m == v@.map_values(|x: String| x@),
            forall|j: int| 0 <= j < i ==> m[j] != s@,
        decreases v@.len() - i,
    {
        if str_eq(v[i].as_str(), s.as_str()) {
            assert(m[i as int] == s@);
            return true;
        }
        i = i + 1;
    }
    false
}

/// Every picture source in the deck, each once, in the order the slides
/// first show it: the images the player decodes before it starts.
pub fn deck_image_sources(slides: &Vec<Slide>) -> (r: Vec<String>)
    ensures
        r@.map_values(|s: String| s@) == first_occurrences(deck_pictures(slides@)),
{
    let mut out: Vec<String> = Vec::new();
    let ghost mut seen: Seq<Seq<char>> = Seq::empty();
    let mut k: usize = 0;
    while k < slides.len()
        invariant
            k <= slides@.len(),
            seen == deck_pictures(slides@.take(k as int)),
            out@.map_values(|s: String| s@) == first_occurrences(seen),
        decreases slides@.len() - k,
    {
        assert(slides@.take(k + 1).drop_last() =~= slides@.take(k as int));
        let srcs = slides[k].image_sources();
        let ghost base = seen;
        let ghost pics = srcs@.map_values(|s: String| s@);
        let mut i: usize = 0;
        while i < srcs.len()
            invariant
                i <= srcs@.len(),
                pics == srcs@.map_values(|s: String| s@),
                seen == base + pics.take(i as int),
                out@.map_values(|s: String| s@) == first_occurrences(seen),
            decreases srcs@.len() - i,
        {
            let ghost before = seen;
            proof {
                seen = seen.push(pics[i as int]);
                assert(base + pics.take(i + 1) =~= seen);
                assert(seen.drop_last() =~= before);
            }
            if !holds(&out, &srcs[i]) {
                let ghost ob = out@.map_values(|s: String| s@);
                out.push(srcs[i].clone());
                assert(out@.map_values(|s: String| s@) =~= ob.push(srcs@[i as int]@));
            }
            i = i + 1;
        }
        assert(pics.take(srcs@.len() as int) =~= pics);
        k = k + 1;
    }
    assert(slides@.take(slides@.len() as int) =~= slides@);
    out
}

/// Keeping first occurrences leaves each item once, and exactly the items
/// of the sequence it started from.
pub proof fn law_first_occurrences_once_each(s: Seq<Seq<char>>)
    ensures
        forall|i: int, j: int|
            0 <= i < j < first_occurrences(s).len() ==> first_occurrences(s)[i] != first_occurrences(s)[j],
        forall|x: Seq<char>| first_occurrences(s).contains(x) <==> s.contains(x),
    decreases s.len(),
{
    if s.len() > 0 {
        law_first_occurrences_once_each(s.drop_last());
        let d = first_occurrences(s.drop_last());
        assert forall|x: Seq<char>| first_occurrences(s).contains(x) <==> s.contains(x) by {
            if s.contains(x) && x != s.last() {
                let j = choose|j: int| 0 <= j < s.len() && s[j] == x;
                assert(s.drop_last()[j] == x);
            }
            if s.drop_last().contains(x) {
                let j = choose|j: int| 0 <= j < s.drop_last().len() && s.drop_last()[j] == x;
                assert(s[j] == x);
            }
            if x == s.last() {
                assert(s[s.len() - 1] == x);
                if !d.contains(x) {
                    assert(first_occurrences(s)[d.len() as int] == x);
                }
            }
            if d.contains(x) {
                let j = choose|j: int| 0 <= j < d.len() && d[j] == x;
                if !d.contains(s.last()) {
                    assert(first_occurrences(s)[j] == x);
                }
            }
            if !d.contains(s.last()) && first_occurrences(s).contains(x) {
                let j = choose|j: int| 0 <= j < first_occurrences(s).len() && first_occurrences(s)[j] == x;
                if j < d.len() {
                    assert(d[j] == x);
                }
            }
        }
    }
}

/// The size in terminal cells of an image `width` by `height` pixels, at
/// a font of `font` (width, height) pixels per cell (a zero font size
/// counts as one): the pixels divided up, rounding up, as 16-bit
/// numbers (the low bits), and never less than one.
pub open spec fn spec_cell_size(width: u32, height: u32, font: (u16, u16)) -> (u16, u16) {
    let fw: int = if font.0 < 1 { 1 } else { font.0 as int };
    let fh: int = if font.1 < 1 { 1 } else { font.1 as int };
    let cols = ((width as int + fw - 1) / fw) as u16;
    let rows = ((height as int + fh - 1) / fh) as u16;
    (if cols < 1 { 1 } else { cols }, if rows < 1 { 1 } else { rows })
}

/// `n / d`, rounded up.
fn ceil_div(n: u32, d: u32) -> (r: u32)
    requires
        d >= 1,
    ensures
        r as int == (n as int + d - 1) / (d as int),
{
    let q = n / d;
    if n % d != 0 {
        assert(q < 0xffff_ffff && q as int + 1 == (n as int + d - 1) / (d as int)) by (nonlinear_arith)
            requires
                d >= 1,
                n % d != 0,
                q == n / d,
                n <= 0xffff_ffff,
        ;
        q + 1
    } else {
        assert(q as int == (n as int + d - 1) / (d as int)) by (nonlinear_arith)
            requires
                d >= 1,
                n % d == 0,
                q == n / d,
        ;
        q
    }
}

/// The natural size in cells of a decoded image, given the terminal's
/// font size in pixels.
pub fn cell_size(width: u32, height: u32, font: (u16, u16)) -> (r: (u16, u16))
    ensures
        r == spec_cell_size(width, height, font),
{
    let fw: u32 = if font.0 < 1 { 1 } else { font.0 as u32 };
    let fh: u32 = if font.1 < 1 { 1 } else { font.1 as u32 };
    let c = ceil_div(width, fw);
    let r = ceil_div(height, fh);
    let cols = #[verifier::truncate] (c as u16);
    let rows = #[verifier::truncate] (r as u16);
    (if cols < 1 { 1 } else { cols }, if rows < 1 { 1 } else { rows })
}

/// What the player reports when image `source` failed to load for
/// `reason`.
pub fn image_error(source: &str, reason: &str) -> (r: String)
    ensures
        r@ == "image "@ + source@ + ": "@ + reason@,
{
    let mut out: Vec<char> = Vec::new();
    append_str(&mut out, "image ");
    append_str(&mut out, source);
    append_str(&mut out, ": ");
    append_str(&mut out, reason);
    string_of(out.as_slice())
}

} // verus!
