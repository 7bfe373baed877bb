//! Character-level text helpers: Unicode whitespace, trimming, line
//! splitting and joining, and conversions between strings and character
//! vectors. Every helper is specified over `Seq<char>`.
use vstd::prelude::*;
use vstd::std_specs::iter::IteratorSpec;

verus! {

/// Unicode `White_Space`, exactly the set `char::is_whitespace` accepts.
pub open spec fn is_ws(c: char) -> bool {
    ||| c == ' '
    ||| ('\t' <= c && c <= '\r')
    ||| c == '\u{85}'
    ||| c == '\u{A0}'
    ||| c == '\u{1680}'
    ||| ('\u{2000}' <= c && c <= '\u{200A}')
    ||| c == '\u{2028}'
    ||| c == '\u{2029}'
    ||| c == '\u{202F}'
    ||| c == '\u{205F}'
    ||| c == '\u{3000}'
}

/// Executable `is_ws`.
pub fn is_whitespace(c: char) -> (r: bool)
    ensures
        r == is_ws(c),
{
    c == ' ' || ('\t' <= c && c <= '\r') || c == '\u{85}' || c == '\u{A0}' || c == '\u{1680}'
        || ('\u{2000}' <= c && c <= '\u{200A}') || c == '\u{2028}' || c == '\u{2029}'
        || c == '\u{202F}' || c == '\u{205F}' || c == '\u{3000}'
}

/// Every character of `s` is whitespace (so `s.trim()` is empty).
pub open spec fn all_ws(s: Seq<char>) -> bool {
    forall|i: int| 0 <= i < s.len() ==> is_ws(#[trigger] s[i])
}

/// The index of the first character at or after `i` that is not `c`.
pub open spec fn run_end(s: Seq<char>, c: char, i: int) -> int
    decreases s.len() - i,
{
    if 0 <= i < s.len() && s[i] == c {
        run_end(s, c, i + 1)
    } else {
        i
    }
}

/// The index of the first non-whitespace character at or after `i`.
pub open spec fn ws_end(s: Seq<char>, i: int) -> int
    decreases s.len() - i,
{
    if 0 <= i < s.len() && is_ws(s[i]) {
        ws_end(s, i + 1)
    } else {
        i
    }
}

/// The length of `s.take(n)` once trailing whitespace is dropped.
pub open spec fn ws_start_back(s: Seq<char>, n: int) -> int
    decreases n,
{
    if 0 < n <= s.len() && is_ws(s[n - 1]) {
        ws_start_back(s, n - 1)
    } else {
        n
    }
}

/// `str::trim_end`.
pub open spec fn trim_end(s: Seq<char>) -> Seq<char> {
    s.take(ws_start_back(s, s.len() as int))
}

/// `str::trim_start`.
pub open spec fn trim_start(s: Seq<char>) -> Seq<char> {
    s.skip(ws_end(s, 0))
}

/// `str::trim`.
pub open spec fn trim(s: Seq<char>) -> Seq<char> {
    trim_start(trim_end(s))
}

/// `s` is exactly three copies of `c` (like `"---"`).
pub open spec fn is_three(s: Seq<char>, c: char) -> bool {
    s.len() == 3 && s[0] == c && s[1] == c && s[2] == c
}

/// One step of `str::lines`: a line's trailing `'\r'` is dropped when a
/// `'\n'` ended it.
pub open spec fn strip_cr(l: Seq<char>) -> Seq<char> {
    if l.len() > 0 && l.last() == '\r' {
        l.drop_last()
    } else {
        l
    }
}

/// `str::lines` over characters `i..`, with `done` lines found so far and
/// the partial line `cur`: `'\n'` ends a line (dropping a `'\r'` just
/// before it); a final line without a newline is kept unless empty.
pub open spec fn lines_from(s: Seq<char>, i: int, done: Seq<Seq<char>>, cur: Seq<char>) -> Seq<
    Seq<char>,
>
    decreases s.len() - i,
{
    if i < 0 || i >= s.len() {
        if cur.len() == 0 {
            done
        } else {
            done.push(cur)
        }
    } else if s[i] == '\n' {
        lines_from(s, i + 1, done.push(strip_cr(cur)), Seq::empty())
    } else {
        lines_from(s, i + 1, done, cur.push(s[i]))
    }
}

/// The lines of `s`, as `str::lines` yields them.
pub open spec fn lines(s: Seq<char>) -> Seq<Seq<char>> {
    lines_from(s, 0, Seq::empty(), Seq::empty())
}

/// The views of a sequence of character vectors.
pub open spec fn views(v: Seq<Vec<char>>) -> Seq<Seq<char>> {
    v.map_values(|l: Vec<char>| l@)
}

/// `ls` joined with `'\n'` between neighbors.
pub open spec fn join_lines(ls: Seq<Seq<char>>) -> Seq<char>
    decreases ls.len(),
{
    if ls.len() == 0 {
        Seq::empty()
    } else if ls.len() == 1 {
        ls[0]
    } else {
        join_lines(ls.drop_last()) + seq!['\n'] + ls.last()
    }
}

/// The characters of `s`.
pub fn chars_of(s: &str) -> (v: Vec<char>)
    ensures
        v@ == s@,
{
    broadcast use vstd::string::group_string_axioms;

    let mut v: Vec<char> = Vec::new();
    for c in it: s.chars()
        invariant
            v@ == it.seq().take(it.index() as int),
    {
        v.push(c);
    }
    assert(v@ =~= s@);
    v
}

/// A `String` holding exactly `chars`.
#[verifier::external_body]
pub(crate) fn string_of(chars: &[char]) -> (s: String)
    ensures
        s@ == chars@,
{
    chars.iter().collect()
}

/// Append all of `src` to `dst`.
pub fn extend_chars(dst: &mut Vec<char>, src: &Vec<char>)
    ensures
        final(dst)@ == old(dst)@ + src@,
{
    let mut i: usize = 0;
    while i < src.len()
        invariant
            i <= src@.len(),
            dst@ == old(dst)@ + src@.take(i as int),
        decreases src@.len() - i,
    {
        dst.push(src[i]);
        i = i + 1;
        assert(src@.take(i as int) =~= src@.take(i - 1).push(src@[i - 1]));
    }
    assert(src@.take(src@.len() as int) =~= src@);
}

/// Append the characters of `s` to `dst`.
pub fn append_str(dst: &mut Vec<char>, s: &str)
    ensures
        final(dst)@ == old(dst)@ + s@,
{
    let v = chars_of(s);
    extend_chars(dst, &v);
}

/// Whether two character vectors are equal.
pub fn chars_eq(a: &Vec<char>, b: &Vec<char>) -> (r: bool)
    ensures
        r == (a@ == b@),
{
    if a.len() != b.len() {
        return false;
    }
    let mut i: usize = 0;
    while i < a.len()
        invariant
            i <= a@.len() == b@.len(),
            forall|j: int| 0 <= j < i ==> a@[j] == b@[j],
        decreases a@.len() - i,
    {
        if a[i] != b[i] {
            return false;
        }
        i = i + 1;
    }
    assert(a@ =~= b@);
    true
}

/// Whether two strings hold the same characters.
pub fn str_eq(a: &str, b: &str) -> (r: bool)
    ensures
        r == (a@ == b@),
{
    let x = chars_of(a);
    let y = chars_of(b);
    chars_eq(&x, &y)
}

/// `a` comes strictly before `b` in the order of `String`: compared
/// character by character by code point (which is how UTF-8 bytes
/// compare), a proper prefix first.
pub open spec fn chars_before(a: Seq<char>, b: Seq<char>) -> bool
    decreases a.len(),
{
    if a.len() == 0 {
        b.len() > 0
    } else if b.len() == 0 {
        false
    } else if a[0] != b[0] {
        (a[0] as int) < (b[0] as int)
    } else {
        chars_before(a.skip(1), b.skip(1))
    }
}

/// Nothing comes before itself.
pub proof fn lemma_before_irreflexive(a: Seq<char>)
    ensures
        !chars_before(a, a),
    decreases a.len(),
{
    if a.len() > 0 {
        lemma_before_irreflexive(a.skip(1));
    }
}

/// Of two different texts, one comes before the other.
pub proof fn lemma_before_total(a: Seq<char>, b: Seq<char>)
    requires
        a != b,
    ensures
        chars_before(a, b) || chars_before(b, a),
    decreases a.len(),
{
    if a.len() > 0 && b.len() > 0 {
        if a[0] == b[0] {
            if a.skip(1) == b.skip(1) {
                assert(a =~= seq![a[0]] + a.skip(1));
                assert(b =~= seq![b[0]] + b.skip(1));
            }
            lemma_before_total(a.skip(1), b.skip(1));
        } else {
            assert((a[0] as int) != (b[0] as int));
        }
    } else if a.len() == 0 && b.len() == 0 {
        assert(a =~= b);
    }
}

/// The order is transitive.
pub proof fn lemma_before_transitive(a: Seq<char>, b: Seq<char>, c: Seq<char>)
    requires
        chars_before(a, b),
        chars_before(b, c),
    ensures
        chars_before(a, c),
    decreases a.len(),
{
    if a.len() > 0 && b.len() > 0 && c.len() > 0 && a[0] == b[0] && b[0] == c[0] {
        lemma_before_transitive(a.skip(1), b.skip(1), c.skip(1));
    }
}

/// Whether `a` comes strictly before `b` (see [`chars_before`]).
pub fn str_before(a: &str, b: &str) -> (r: bool)
    ensures
        r == chars_before(a@, b@),
{
    let x = chars_of(a);
    let y = chars_of(b);
    let mut i: usize = 0;
    assert(x@.skip(0) =~= x@ && y@.skip(0) =~= y@);
    while i < x.len() && i < y.len() && x[i] == y[i]
        invariant
            i <= x@.len(),
            i <= y@.len(),
            chars_before(x@, y@) == chars_before(x@.skip(i as int), y@.skip(i as int)),
        decreases x@.len() - i,
    {
        assert(x@.skip(i as int).skip(1) =~= x@.skip(i + 1));
        assert(y@.skip(i as int).skip(1) =~= y@.skip(i + 1));
        i = i + 1;
    }
    if i == x.len() {
        i < y.len()
    } else if i == y.len() {
        false
    } else {
        let c = x[i];
        let d = y[i];
        assert(x@.skip(i as int)[0] == c && y@.skip(i as int)[0] == d);
        c < d
    }
}

/// The texts of some strings.
pub open spec fn texts(v: Seq<String>) -> Seq<Seq<char>> {
    v.map_values(|s: String| s@)
}

/// Texts in strictly increasing order: sorted, each once.
pub open spec fn in_order(s: Seq<Seq<char>>) -> bool {
    forall|i: int, j: int| 0 <= i < j < s.len() ==> chars_before(#[trigger] s[i], #[trigger] s[j])
}

/// Add `key` to keys kept sorted and each once, as a sorted map's keys
/// are: nothing changes when it is there already.
pub fn add_key(keys: &mut Vec<String>, key: String)
    requires
        in_order(texts(old(keys)@)),
    ensures
        in_order(texts(final(keys)@)),
        forall|x: Seq<char>| texts(final(keys)@).contains(x) <==> (texts(old(keys)@).contains(x) || x == key@),
{
    let ghost old_t = texts(keys@);
    let mut p: usize = 0;
    while p < keys.len() && str_before(keys[p].as_str(), key.as_str())
        invariant
            p <= keys@.len(),
            old_t == texts(keys@),
            in_order(old_t),
            forall|j: int| 0 <= j < p ==> chars_before(#[trigger] old_t[j], key@),
        decreases keys@.len() - p,
    {
        p = p + 1;
    }
    if p < keys.len() && str_eq(keys[p].as_str(), key.as_str()) {
        assert forall|x: Seq<char>| texts(keys@).contains(x) <==> (old_t.contains(x) || x == key@) by {
            if x == key@ {
                assert(old_t[p as int] == x);
            }
        }
        return;
    }
    let ghost k = key@;
    keys.insert(p, key);
    let ghost new_t = texts(keys@);
    assert(new_t =~= old_t.insert(p as int, k));
    proof {
        if p < old_t.len() {
            lemma_before_total(old_t[p as int], k);
            assert(chars_before(k, old_t[p as int]));
        }
    }
    assert forall|i: int, j: int| 0 <= i < j < new_t.len() implies chars_before(#[trigger] new_t[i], #[trigger] new_t[j]) by {
        if j < p {
        } else if j == p {
        } else if i < p {
            assert(new_t[j] == old_t[j - 1]);
        } else if i == p {
            assert(new_t[j] == old_t[j - 1]);
            if j - 1 > p {
                lemma_before_transitive(k, old_t[p as int], old_t[j - 1]);
            }
        } else {
            assert(new_t[i] == old_t[i - 1] && new_t[j] == old_t[j - 1]);
        }
    }
    assert forall|x: Seq<char>| new_t.contains(x) <==> (old_t.contains(x) || x == k) by {
        if old_t.contains(x) {
            let j = choose|j: int| 0 <= j < old_t.len() && old_t[j] == x;
            if j < p {
                assert(new_t[j] == x);
            } else {
                assert(new_t[j + 1] == x);
            }
        }
        if x == k {
            assert(new_t[p as int] == x);
        }
        if new_t.contains(x) {
            let j = choose|j: int| 0 <= j < new_t.len() && new_t[j] == x;
            if j < p {
                assert(old_t[j] == x);
            } else if j > p {
                assert(old_t[j - 1] == x);
            }
        }
    }
}

/// `n` copies of `c`.
pub open spec fn repeat(c: char, n: int) -> Seq<char> {
    Seq::new(if n < 0 { 0 } else { n as nat }, |i: int| c)
}

/// Append `n` copies of `c`.
pub fn push_repeat(v: &mut Vec<char>, c: char, n: usize)
    ensures
        final(v)@ == old(v)@ + repeat(c, n as int),
{
    let mut k: usize = 0;
    while k < n
        invariant
            k <= n,
            v@ == old(v)@ + repeat(c, k as int),
        decreases n - k,
    {
        v.push(c);
        k = k + 1;
        assert(v@ =~= old(v)@ + repeat(c, k as int));
    }
}

/// `n` copies of `c`, as a string.
pub fn repeat_string(c: char, n: usize) -> (r: String)
    ensures
        r@ == repeat(c, n as int),
{
    let mut v: Vec<char> = Vec::new();
    push_repeat(&mut v, c, n);
    assert(v@ =~= repeat(c, n as int));
    string_of(v.as_slice())
}

/// `run_end` computed: the first index at or after `from` whose character
/// is not `c`.
pub fn find_run_end(s: &Vec<char>, c: char, from: usize) -> (r: usize)
    requires
        from <= s@.len(),
    ensures
        r == run_end(s@, c, from as int),
        from <= r <= s@.len(),
{
    let mut i = from;
    while i < s.len() && s[i] == c
        invariant
            from <= i <= s@.len(),
            run_end(s@, c, from as int) == run_end(s@, c, i as int),
        decreases s@.len() - i,
    {
        i = i + 1;
    }
    i
}

/// `ws_end` computed.
pub fn find_ws_end(s: &Vec<char>, from: usize) -> (r: usize)
    requires
        from <= s@.len(),
    ensures
        r == ws_end(s@, from as int),
        from <= r <= s@.len(),
{
    let mut i = from;
    while i < s.len() && is_whitespace(s[i])
        invariant
            from <= i <= s@.len(),
            ws_end(s@, from as int) == ws_end(s@, i as int),
        decreases s@.len() - i,
    {
        i = i + 1;
    }
    i
}

/// `ws_start_back` computed.
pub fn find_ws_start_back(s: &Vec<char>, n: usize) -> (r: usize)
    requires
        n <= s@.len(),
    ensures
        r == ws_start_back(s@, n as int),
        r <= n,
{
    let mut i = n;
    while i > 0 && is_whitespace(s[i - 1])
        invariant
            i <= n <= s@.len(),
            ws_start_back(s@, n as int) == ws_start_back(s@, i as int),
        decreases i,
    {
        i = i - 1;
    }
    i
}

/// The bounds `(start, end)` of `trim(s)` within `s`.
pub fn trim_bounds(s: &Vec<char>) -> (r: (usize, usize))
    ensures
        r.0 <= r.1 <= s@.len(),
        s@.subrange(r.0 as int, r.1 as int) == trim(s@),
{
    let end = find_ws_start_back(s, s.len());
    let ghost t = s@.take(end as int);
    let mut i: usize = 0;
    while i < end && is_whitespace(s[i])
        invariant
            i <= end <= s@.len(),
            t == s@.take(end as int),
            ws_end(t, 0) == ws_end(t, i as int),
        decreases end - i,
    {
        i = i + 1;
    }
    assert(s@.subrange(i as int, end as int) =~= t.skip(i as int));
    (i, end)
}

/// `trim(s)` is exactly three copies of `c`.
pub fn trimmed_is_three(s: &Vec<char>, c: char) -> (r: bool)
    ensures
        r == is_three(trim(s@), c),
{
    let (a, b) = trim_bounds(s);
    b - a == 3 && s[a] == c && s[a + 1] == c && s[a + 2] == c
}

/// `trim_end(s)` is exactly three copies of `c`.
pub fn trimmed_end_is_three(s: &Vec<char>, c: char) -> (r: bool)
    ensures
        r == is_three(trim_end(s@), c),
{
    let b = find_ws_start_back(s, s.len());
    b == 3 && s[0] == c && s[1] == c && s[2] == c
}

/// Whether every character of `s` is whitespace.
pub fn is_blank(s: &Vec<char>) -> (r: bool)
    ensures
        r == all_ws(s@),
{
    let mut i: usize = 0;
    while i < s.len()
        invariant
            i <= s@.len(),
            forall|j: int| 0 <= j < i ==> is_ws(#[trigger] s@[j]),
        decreases s@.len() - i,
    {
        if !is_whitespace(s[i]) {
            return false;
        }
        i = i + 1;
    }
    true
}

/// `str::lines`, over characters.
pub fn split_lines(s: &Vec<char>) -> (r: Vec<Vec<char>>)
    ensures
        views(r@) == lines(s@),
{
    let mut done: Vec<Vec<char>> = Vec::new();
    let mut cur: Vec<char> = Vec::new();
    let mut i: usize = 0;
    assert(views(done@) =~= Seq::<Seq<char>>::empty());
    assert(cur@ =~= Seq::<char>::empty());
    while i < s.len()
        invariant
            i <= s@.len(),
            lines(s@) == lines_from(s@, i as int, views(done@), cur@),
        decreases s@.len() - i,
    {
        let c = s[i];
        if c == '\n' {
            let ghost before = views(done@);
            let ghost prev = cur@;
            let len = cur.len();
            if len > 0 && cur[len - 1] == '\r' {
                cur.pop();
            }
            assert(cur@ =~= strip_cr(prev));
            done.push(cur);
            assert(views(done@) =~= before.push(cur@));
            cur = Vec::new();
        } else {
            cur.push(c);
        }
        i = i + 1;
    }
    if cur.len() > 0 {
        let ghost before = views(done@);
        done.push(cur);
        assert(views(done@) =~= before.push(cur@));
    }
    done
}

} // verus!
