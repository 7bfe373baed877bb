//! The slide builder: walks one column's markdown events and builds its
//! blocks and speaker notes, exactly as `builder_spec` states.
use vstd::prelude::*;

use super::builder_spec::{
    char_eq_lower, column_of, comment_close, comment_open, comment_texts, comments_from, decimal,
    empty_builder, eq_lower, expand_tabs, find_from, first_word, index_of_name, insert_pos,
    last_link, lemma_find_from_bounds, popped, sort_footnotes, spec_flush_inline,
    spec_footnote_number, spec_inline_html, spec_push_block, spec_push_span, top, u_close,
    u_open, word_end, SpecBuilder, SpecContainer,
};
use super::events::{markdown_events, cmark_events, MdEvent, MdTag, MdTagEnd};
use super::slide::{
    block_model, blocks_model, concat_texts, def_items_model, defs_model, footnotes_model,
    items_model, lemma_blocks_model_push, lemma_def_items_model_len, lemma_def_items_model_push,
    lemma_defs_model_push, lemma_footnotes_model_len, lemma_footnotes_model_push,
    lemma_items_model_push, opt_chars, spans_model, strings_model, table_model, cells_model,
    rows_model, AlertKind, Block, DefinitionItem, Footnote, InlineSpan, InlineStyle, ListBlock,
    ListItem, Slide, SpecBlock, SpecFootnote, SpecSlide, SpecSpan, TableBlock, columns_model,
};
use crate::text::{
    all_ws, chars_of, extend_chars, find_ws_end, is_blank, is_whitespace, string_of, trim,
    trim_bounds, ws_end,
};

verus! {

broadcast use vstd::seq_lib::group_seq_properties;

/// An open container while walking parser events.
enum Container {
    Quote(Option<AlertKind>, Vec<Block>),
    DefinitionList(Vec<DefinitionItem>),
    Definition(Vec<Block>),
    Footnote(usize, Vec<Block>),
    /// A table, and whether cells still collect into its header.
    Table(TableBlock, bool),
    List(ListBlock),
    Item(Vec<Block>, Option<bool>),
}

spec fn container_model(c: Container) -> SpecContainer {
    match c {
        Container::Quote(k, bl) => SpecContainer::Quote(k, blocks_model(bl@)),
        Container::DefinitionList(items) => SpecContainer::DefinitionList(def_items_model(items@)),
        Container::Definition(bl) => SpecContainer::Definition(blocks_model(bl@)),
        Container::Footnote(n, bl) => SpecContainer::Footnote(n as int, blocks_model(bl@)),
        Container::Table(t, h) => SpecContainer::Table(table_model(t), h),
        Container::List(l) => SpecContainer::List(
            super::slide::SpecList { ordered: l.ordered, start: l.start, items: items_model(l.items@) },
        ),
        Container::Item(bl, t) => SpecContainer::Item(blocks_model(bl@), t),
    }
}

spec fn containers_model(s: Seq<Container>) -> Seq<SpecContainer> {
    s.map_values(|c: Container| container_model(c))
}

struct SlideBuilder {
    blocks: Vec<Block>,
    containers: Vec<Container>,
    inline: Vec<InlineSpan>,
    style: InlineStyle,
    links: Vec<String>,
    notes: Vec<String>,
    code: Option<(Option<String>, String)>,
    html: Option<String>,
    image: Option<(usize, String)>,
    footnote_names: Vec<String>,
    footnotes: Vec<Footnote>,
}

impl View for SlideBuilder {
    type V = SpecBuilder;

    closed spec fn view(&self) -> SpecBuilder {
        SpecBuilder {
            blocks: blocks_model(self.blocks@),
            containers: containers_model(self.containers@),
            inline: spans_model(self.inline@),
            style: self.style,
            links: strings_model(self.links@),
            notes: strings_model(self.notes@),
            code: match self.code {
                Some((l, c)) => Some((opt_chars(l), c@)),
                None => None,
            },
            html: opt_chars(self.html),
            image: match self.image {
                Some((i, u)) => Some((i as int, u@)),
                None => None,
            },
            footnote_names: strings_model(self.footnote_names@),
            footnotes: footnotes_model(self.footnotes@),
        }
    }
}

/// `a` followed by `t`.
fn concat_string(a: &String, t: &Vec<char>) -> (r: String)
    ensures
        r@ == a@ + t@,
{
    let mut v = chars_of(a.as_str());
    extend_chars(&mut v, t);
    string_of(v.as_slice())
}

/// `t` with its tabs expanded to four spaces.
pub fn expand_tabs_vec(t: &Vec<char>) -> (r: Vec<char>)
    ensures
        r@ == expand_tabs(t@),
{
    let mut out: Vec<char> = Vec::new();
    let mut i: usize = 0;
    while i < t.len()
        invariant
            i <= t@.len(),
            out@ == expand_tabs(t@.take(i as int)),
        decreases t@.len() - i,
    {
        assert(t@.take(i + 1).drop_last() =~= t@.take(i as int));
        if t[i] == '\t' {
            out.push(' ');
            out.push(' ');
            out.push(' ');
            out.push(' ');
            assert(out@ =~= expand_tabs(t@.take(i as int)) + seq![' ', ' ', ' ', ' ']);
        } else {
            out.push(t[i]);
        }
        i = i + 1;
    }
    assert(t@.take(t@.len() as int) =~= t@);
    out
}

/// Whether two optional strings hold the same text.
fn opt_string_eq(a: &Option<String>, b: &Option<String>) -> (r: bool)
    ensures
        r == (opt_chars(*a) == opt_chars(*b)),
{
    match (a, b) {
        (Some(x), Some(y)) => *x == *y,
        (None, None) => true,
        _ => false,
    }
}

/// `n` in decimal, appended to `out`.
pub fn push_decimal(out: &mut Vec<char>, n: u128)
    ensures
        final(out)@ == old(out)@ + decimal(n as nat),
    decreases n,
{
    if n >= 10 {
        push_decimal(out, n / 10);
    }
    let d = n % 10;
    let c = if d == 0 {
        '0'
    } else if d == 1 {
        '1'
    } else if d == 2 {
        '2'
    } else if d == 3 {
        '3'
    } else if d == 4 {
        '4'
    } else if d == 5 {
        '5'
    } else if d == 6 {
        '6'
    } else if d == 7 {
        '7'
    } else if d == 8 {
        '8'
    } else {
        '9'
    };
    out.push(c);
    assert(out@ =~= old(out)@ + decimal(n as nat));
}

/// `find_from` computed.
fn find_pattern(h: &Vec<char>, p: &Vec<char>, from: usize) -> (r: Option<usize>)
    requires
        p@.len() > 0,
    ensures
        match r {
            Some(i) => find_from(h@, p@, from as int) == i as int,
            None => find_from(h@, p@, from as int) == -1,
        },
{
    let hl = h.len();
    let mut i = from;
    while i < hl
        invariant
            from <= i,
            hl == h@.len(),
            p@.len() > 0,
            find_from(h@, p@, from as int) == find_from(h@, p@, i as int),
        decreases h@.len() - i,
    {
        if p.len() > hl - i {
            return None;
        }
        let mut j: usize = 0;
        let mut same = true;
        while j < p.len()
            invariant
                j <= p@.len(),
                hl == h@.len(),
                i + p@.len() <= hl,
                same == (forall|k: int| 0 <= k < j ==> h@[i + k] == p@[k]),
            decreases p@.len() - j,
        {
            if h[i + j] != p[j] {
                same = false;
            }
            j = j + 1;
        }
        if same {
            assert(h@.subrange(i as int, i + p@.len()) =~= p@);
            return Some(i);
        } else {
            assert(h@.subrange(i as int, i + p@.len()) != p@) by {
                let k = choose|k: int| 0 <= k < p@.len() && h@[i + k] != p@[k];
                assert(h@.subrange(i as int, i + p@.len())[k] != p@[k]);
            }
        }
        i = i + 1;
    }
    None
}

/// The characters `a..b` of `h`.
fn sub_chars(h: &Vec<char>, a: usize, b: usize) -> (r: Vec<char>)
    requires
        a <= b <= h@.len(),
    ensures
        r@ == h@.subrange(a as int, b as int),
{
    let mut out: Vec<char> = Vec::new();
    let mut i = a;
    while i < b
        invariant
            a <= i <= b <= h@.len(),
            out@ == h@.subrange(a as int, i as int),
        decreases b - i,
    {
        out.push(h[i]);
        i = i + 1;
        assert(out@ =~= h@.subrange(a as int, i as int));
    }
    out
}

/// The notes in a run of HTML: the trimmed text of each comment.
fn comment_texts_vec(h: &Vec<char>) -> (r: Vec<String>)
    ensures
        strings_model(r@) == comment_texts(h@),
{
    let open = vec!['<', '!', '-', '-'];
    let close = vec!['-', '-', '>'];
    assert(open@ =~= comment_open());
    assert(close@ =~= comment_close());
    let mut notes: Vec<String> = Vec::new();
    let mut i: usize = 0;
    let hl = h.len();
    assert(strings_model(notes@) =~= Seq::<Seq<char>>::empty());
    loop
        invariant
            i <= h@.len(),
            hl == h@.len(),
            open@ == comment_open(),
            close@ == comment_close(),
            comment_texts(h@) == strings_model(notes@) + comments_from(h@, i as int),
        decreases h@.len() - i,
    {
        let s = match find_pattern(h, &open, i) {
            Some(s) => s,
            None => {
                assert(comments_from(h@, i as int) =~= Seq::<Seq<char>>::empty());
                assert(strings_model(notes@) + Seq::<Seq<char>>::empty() =~= strings_model(notes@));
                return notes;
            },
        };
        proof {
            lemma_find_from_bounds(h@, comment_open(), i as int);
        }
        let e = match find_pattern(h, &close, s + 4) {
            Some(e) => e,
            None => {
                assert(strings_model(notes@) + Seq::<Seq<char>>::empty() =~= strings_model(notes@));
                return notes;
            },
        };
        proof {
            lemma_find_from_bounds(h@, comment_close(), s + 4);
        }
        let inner = sub_chars(h, s + 4, e);
        let (a, b) = trim_bounds(&inner);
        let ghost rest = comments_from(h@, e + 3);
        if a < b {
            let note = string_of(sub_chars(&inner, a, b).as_slice());
            let ghost before = strings_model(notes@);
            notes.push(note);
            assert(strings_model(notes@) =~= before.push(note@));
            assert(comments_from(h@, i as int) == seq![trim(inner@)] + rest);
            assert(before + (seq![trim(inner@)] + rest) =~= before.push(note@) + rest);
        } else {
            assert(trim(inner@).len() == 0);
        }
        i = e + 3;
    }
}

/// `s` is `p` ignoring ASCII case (`p` lowercase).
fn eq_lower_vec(s: &Vec<char>, p: &Vec<char>) -> (r: bool)
    ensures
        r == eq_lower(s@, p@),
{
    if s.len() != p.len() {
        return false;
    }
    let mut i: usize = 0;
    while i < s.len()
        invariant
            i <= s@.len(),
            s@.len() == p@.len(),
            forall|k: int| 0 <= k < i ==> char_eq_lower(s@[k], p@[k]),
        decreases s@.len() - i,
    {
        let c = s[i];
        let q = p[i];
        if !(c == q || ('a' <= q && q <= 'z' && (c as u32) == (q as u32) - 32)) {
            return false;
        }
        i = i + 1;
    }
    true
}

/// The first whitespace-separated word of `s`, if any.
fn first_word_of(s: &String) -> (r: Option<String>)
    ensures
        opt_chars(r) == first_word(s@),
{
    let v = chars_of(s.as_str());
    let a = find_ws_end(&v, 0);
    if a >= v.len() {
        return None;
    }
    let mut b = a;
    while b < v.len() && !is_whitespace(v[b])
        invariant
            a <= b <= v@.len(),
            word_end(v@, a as int) == word_end(v@, b as int),
        decreases v@.len() - b,
    {
        b = b + 1;
    }
    Some(string_of(sub_chars(&v, a, b).as_slice()))
}

/// Footnotes sorted by number, stably.
fn sort_footnotes_vec(v: Vec<Footnote>) -> (r: Vec<Footnote>)
    ensures
        footnotes_model(r@) == sort_footnotes(footnotes_model(v@)),
{
    let ghost s = footnotes_model(v@);
    proof {
        lemma_footnotes_model_len(v@);
    }
    let ghost orig = v@;
    let mut rest = v;
    let mut sorted: Vec<Footnote> = Vec::new();
    let mut k: usize = 0;
    let n = rest.len();
    assert(s.take(0) =~= Seq::<SpecFootnote>::empty());
    while k < n
        invariant
            k <= n == orig.len(),
            s == footnotes_model(orig),
            s.len() == orig.len(),
            rest@ == orig.skip(k as int),
            footnotes_model(sorted@) == sort_footnotes(s.take(k as int)),
        decreases n - k,
    {
        let f = rest.remove(0);
        assert(f == orig[k as int]);
        assert(rest@ =~= orig.skip(k + 1));
        proof {
            lemma_footnotes_model_index(orig, k as int);
            lemma_footnotes_model_len(sorted@);
        }
        let ghost sm = footnotes_model(sorted@);
        let mut j = sorted.len();
        while j > 0 && sorted[j - 1].number > f.number
            invariant
                j <= sorted@.len(),
                sm == footnotes_model(sorted@),
                sm.len() == sorted@.len(),
                insert_pos(sm, f.number as int, sm.len() as int) == insert_pos(sm, f.number as int, j as int),
            decreases j,
        {
            proof {
                lemma_footnotes_model_index(sorted@, j - 1);
            }
            j = j - 1;
        }
        if j > 0 {
            proof {
                lemma_footnotes_model_index(sorted@, j - 1);
            }
        }
        let ghost before = sorted@;
        sorted.insert(j, f);
        proof {
            lemma_footnotes_model_insert(before, j as int, f);
            assert(s.take(k + 1).drop_last() =~= s.take(k as int));
        }
        k = k + 1;
    }
    assert(s.take(n as int) =~= s);
    sorted
}

proof fn lemma_footnotes_model_index(s: Seq<Footnote>, i: int)
    requires
        0 <= i < s.len(),
    ensures
        footnotes_model(s)[i] == (SpecFootnote {
            number: s[i].number as int,
            blocks: blocks_model(s[i].blocks@),
        }),
        footnotes_model(s).len() == s.len(),
    decreases s.len(),
{
    lemma_footnotes_model_len(s);
    if i < s.len() - 1 {
        lemma_footnotes_model_index(s.drop_last(), i);
    }
}

proof fn lemma_footnotes_model_insert(s: Seq<Footnote>, j: int, f: Footnote)
    requires
        0 <= j <= s.len(),
    ensures
        footnotes_model(s.insert(j, f)) == footnotes_model(s).insert(
            j,
            SpecFootnote { number: f.number as int, blocks: blocks_model(f.blocks@) },
        ),
{
    let l = footnotes_model(s.insert(j, f));
    let r = footnotes_model(s).insert(
        j,
        SpecFootnote { number: f.number as int, blocks: blocks_model(f.blocks@) },
    );
    lemma_footnotes_model_len(s.insert(j, f));
    lemma_footnotes_model_len(s);
    assert forall|i: int| 0 <= i < l.len() implies l[i] == r[i] by {
        lemma_footnotes_model_index(s.insert(j, f), i);
        if i < j {
            lemma_footnotes_model_index(s, i);
        } else if i > j {
            lemma_footnotes_model_index(s, i - 1);
        }
    }
    assert(l =~= r);
}

impl SlideBuilder {
    fn new() -> (b: SlideBuilder)
        ensures
            b@ == empty_builder(),
    {
        let b = SlideBuilder {
            blocks: Vec::new(),
            containers: Vec::new(),
            inline: Vec::new(),
            style: InlineStyle {
                footnote_ref: false,
                bold: false,
                italic: false,
                strikethrough: false,
                underline: false,
                code: false,
            },
            links: Vec::new(),
            notes: Vec::new(),
            code: None,
            html: None,
            image: None,
            footnote_names: Vec::new(),
            footnotes: Vec::new(),
        };
        assert(b@.blocks =~= Seq::<SpecBlock>::empty());
        assert(b@.containers =~= Seq::<SpecContainer>::empty());
        assert(b@.inline =~= Seq::<SpecSpan>::empty());
        assert(b@.links =~= Seq::<Seq<char>>::empty());
        assert(b@.notes =~= Seq::<Seq<char>>::empty());
        assert(b@.footnote_names =~= Seq::<Seq<char>>::empty());
        assert(b@.footnotes =~= Seq::<SpecFootnote>::empty());
        b
    }

    /// The destination of the innermost open link.
    fn last_link(&self) -> (r: Option<String>)
        ensures
            opt_chars(r) == last_link(self@.links),
    {
        let n = self.links.len();
        if n > 0 {
            Some(self.links[n - 1].clone())
        } else {
            None
        }
    }

    /// Add text in `style` (see `spec_push_span`).
    fn push_span(&mut self, text: &Vec<char>, style: InlineStyle)
        ensures
            final(self)@ == spec_push_span(old(self)@, text@, style),
            final(self).footnote_names@.len() == old(self).footnote_names@.len(),
    {
        if text.len() == 0 {
            return;
        }
        // Tabs would render as zero-width cells; expand them here so all
        // downstream width math is correct.
        let t = expand_tabs_vec(text);
        let link = self.last_link();
        let n = self.inline.len();
        let ghost old_inline = spans_model(self.inline@);
        // Merge adjacent spans with identical styling to keep the AST
        // small. Never merge across an image boundary, and never while
        // collecting alt text (it is drained by span index at image end).
        if self.image.is_none() && n > 0 && self.inline[n - 1].style == style && opt_string_eq(
            &self.inline[n - 1].link,
            &link,
        ) && self.inline[n - 1].image.is_none() {
            assert(old_inline.last() == self.inline@[n - 1]@);
            let last = self.inline.pop().unwrap();
            let merged = InlineSpan {
                text: concat_string(&last.text, &t),
                style: last.style,
                link: last.link,
                image: last.image,
            };
            self.inline.push(merged);
            assert(spans_model(self.inline@) =~= old_inline.drop_last().push(merged@));
        } else {
            let span = InlineSpan { text: string_of(t.as_slice()), style, link, image: None };
            self.inline.push(span);
            assert(spans_model(self.inline@) =~= old_inline.push(span@));
        }
    }

    /// Take the pending spans.
    fn take_inline(&mut self) -> (r: Vec<InlineSpan>)
        ensures
            spans_model(r@) == old(self)@.inline,
            final(self)@ == (SpecBuilder { inline: Seq::empty(), ..old(self)@ }),
            final(self).footnote_names@.len() == old(self).footnote_names@.len(),
    {
        let mut r: Vec<InlineSpan> = Vec::new();
        std::mem::swap(&mut r, &mut self.inline);
        assert(spans_model(self.inline@) =~= Seq::<SpecSpan>::empty());
        r
    }

    /// Add a finished block (see `spec_push_block`).
    fn push_block(&mut self, block: Block)
        ensures
            final(self)@ == spec_push_block(old(self)@, block_model(block)),
            final(self).footnote_names@.len() == old(self).footnote_names@.len(),
    {
        let ghost cm = containers_model(self.containers@);
        let ghost bm = blocks_model(self.blocks@);
        let ghost bk = block_model(block);
        proof {
            lemma_blocks_model_push(self.blocks@, block);
        }
        match self.containers.pop() {
            Some(Container::Quote(k, mut bl)) => {
                proof {
                    lemma_blocks_model_push(bl@, block);
                }
                bl.push(block);
                let c = Container::Quote(k, bl);
                self.containers.push(c);
                assert(containers_model(self.containers@) =~= cm.drop_last().push(container_model(c)));
            },
            Some(Container::Item(mut bl, t)) => {
                proof {
                    lemma_blocks_model_push(bl@, block);
                }
                bl.push(block);
                let c = Container::Item(bl, t);
                self.containers.push(c);
                assert(containers_model(self.containers@) =~= cm.drop_last().push(container_model(c)));
            },
            Some(Container::Definition(mut bl)) => {
                proof {
                    lemma_blocks_model_push(bl@, block);
                }
                bl.push(block);
                let c = Container::Definition(bl);
                self.containers.push(c);
                assert(containers_model(self.containers@) =~= cm.drop_last().push(container_model(c)));
            },
            Some(Container::Footnote(n, mut bl)) => {
                proof {
                    lemma_blocks_model_push(bl@, block);
                }
                bl.push(block);
                let c = Container::Footnote(n, bl);
                self.containers.push(c);
                assert(containers_model(self.containers@) =~= cm.drop_last().push(container_model(c)));
            },
            // A block can never be a direct child of a list, and GFM
            // table cells hold no blocks; defensively treat such a block
            // as a sibling instead of dropping it.
            Some(other) => {
                self.containers.push(other);
                assert(containers_model(self.containers@) =~= cm);
                self.blocks.push(block);
            },
            None => {
                assert(containers_model(self.containers@) =~= cm);
                self.blocks.push(block);
            },
        }
    }

    /// Flush pending spans as an implicit paragraph.
    fn flush_inline(&mut self)
        ensures
            final(self)@ == spec_flush_inline(old(self)@),
            final(self).footnote_names@.len() == old(self).footnote_names@.len(),
    {
        let spans = self.take_inline();
        if spans.len() > 0 {
            self.push_block(Block::Paragraph(spans));
        }
    }

    /// Open a container.
    fn open(&mut self, c: Container)
        ensures
            final(self)@ == (SpecBuilder {
                containers: old(self)@.containers.push(container_model(c)),
                ..old(self)@
            }),
            final(self).footnote_names@.len() == old(self).footnote_names@.len(),
    {
        let ghost cm = containers_model(self.containers@);
        self.containers.push(c);
        assert(containers_model(self.containers@) =~= cm.push(container_model(c)));
    }

    /// Close the innermost container, returning it.
    fn close(&mut self) -> (r: Option<Container>)
        ensures
            final(self)@ == popped(old(self)@),
            match r {
                Some(c) => top(old(self)@) == Some(container_model(c)),
                None => top(old(self)@) is None,
            },
            final(self).footnote_names@.len() == old(self).footnote_names@.len(),
    {
        let ghost cm = containers_model(self.containers@);
        let r = self.containers.pop();
        assert(containers_model(self.containers@) =~= if cm.len() > 0 {
            cm.drop_last()
        } else {
            cm
        });
        r
    }

    /// The stable number for footnote `name`, assigned on first sight.
    fn footnote_number(&mut self, name: &String) -> (r: usize)
        requires
            old(self).footnote_names@.len() < usize::MAX,
        ensures
            (final(self)@, r as int) == spec_footnote_number(old(self)@, name@),
            final(self).footnote_names@.len() <= old(self).footnote_names@.len() + 1,
    {
        let ghost names = strings_model(self.footnote_names@);
        let mut i: usize = 0;
        while i < self.footnote_names.len()
            invariant
                i <= self.footnote_names@.len(),
                names == strings_model(self.footnote_names@),
                index_of_name(names, name@, 0) == index_of_name(names, name@, i as int),
            decreases self.footnote_names@.len() - i,
        {
            if self.footnote_names[i] == *name {
                return i + 1;
            }
            i = i + 1;
        }
        let next = self.footnote_names.len() + 1;
        self.footnote_names.push(name.clone());
        assert(strings_model(self.footnote_names@) =~= names.push(name@));
        next
    }

    /// Inline HTML (see `spec_inline_html`).
    fn inline_html(&mut self, html: &String)
        ensures
            final(self)@ == spec_inline_html(old(self)@, html@),
            final(self).footnote_names@.len() == old(self).footnote_names@.len(),
    {
        let h = chars_of(html.as_str());
        let (a, b) = trim_bounds(&h);
        let t = sub_chars(&h, a, b);
        let u_open_v = vec!['<', 'u', '>'];
        let u_close_v = vec!['<', '/', 'u', '>'];
        let br1 = vec!['<', 'b', 'r', '>'];
        let br2 = vec!['<', 'b', 'r', '/', '>'];
        let br3 = vec!['<', 'b', 'r', ' ', '/', '>'];
        assert(u_open_v@ =~= u_open());
        assert(u_close_v@ =~= u_close());
        assert(br1@ =~= seq!['<', 'b', 'r', '>']);
        assert(br2@ =~= seq!['<', 'b', 'r', '/', '>']);
        assert(br3@ =~= seq!['<', 'b', 'r', ' ', '/', '>']);
        if eq_lower_vec(&t, &u_open_v) {
            self.style.underline = true;
        } else if eq_lower_vec(&t, &u_close_v) {
            self.style.underline = false;
        } else if eq_lower_vec(&t, &br1) || eq_lower_vec(&t, &br2) || eq_lower_vec(&t, &br3) {
            let nl = vec!['\n'];
            assert(nl@ =~= seq!['\n']);
            let style = self.style;
            self.push_span(&nl, style);
        } else {
            self.add_comment_notes(&h);
        }
    }

    /// Append notes found in `h`.
    fn add_comment_notes(&mut self, h: &Vec<char>)
        ensures
            final(self)@ == (SpecBuilder { notes: old(self)@.notes + comment_texts(h@), ..old(self)@ }),
            final(self).footnote_names@.len() == old(self).footnote_names@.len(),
    {
        let found = comment_texts_vec(h);
        let mut notes: Vec<String> = Vec::new();
        std::mem::swap(&mut notes, &mut self.notes);
        let ghost before = strings_model(notes@);
        let mut k: usize = 0;
        while k < found.len()
            invariant
                k <= found@.len(),
                strings_model(notes@) == before + strings_model(found@).take(k as int),
            decreases found@.len() - k,
        {
            let ghost prev = strings_model(notes@);
            let n = found[k].clone();
            assert(strings_model(found@)[k as int] == found@[k as int]@);
            notes.push(n);
            assert(strings_model(notes@) =~= prev.push(n@));
            assert(strings_model(found@).take(k + 1) =~= strings_model(found@).take(k as int).push(n@));
            k = k + 1;
        }
        assert(strings_model(found@).take(found@.len() as int) =~= strings_model(found@));
        std::mem::swap(&mut notes, &mut self.notes);
    }

    /// The builder after the start of a tag.
    #[verifier::spinoff_prover]
    #[verifier::rlimit(80)]
    fn start(&mut self, tag: &MdTag)
        requires
            old(self).footnote_names@.len() < usize::MAX,
        ensures
            final(self)@ == super::builder_spec::spec_start(old(self)@, *tag),
            final(self).footnote_names@.len() <= old(self).footnote_names@.len() + 1,
    {
        let ghost b = self@;
        match tag {
            MdTag::Paragraph | MdTag::Heading => self.flush_inline(),
            MdTag::BlockQuote(kind) => {
                self.flush_inline();
                self.open(Container::Quote(*kind, Vec::new()));
            },
            MdTag::List(start) => {
                // A nested list may start while the parent (tight) item's
                // text is still pending; flush it into the item first.
                self.flush_inline();
                let first = match start {
                    Some(n) => *n,
                    None => 1,
                };
                self.open(
                    Container::List(
                        ListBlock { ordered: start.is_some(), start: first, items: Vec::new() },
                    ),
                );
            },
            MdTag::Item => self.open(Container::Item(Vec::new(), None)),
            MdTag::Table(aligns) => {
                self.flush_inline();
                let mut alignments = Vec::new();
                let mut i: usize = 0;
                while i < aligns.len()
                    invariant
                        i <= aligns@.len(),
                        alignments@ == aligns@.take(i as int),
                    decreases aligns@.len() - i,
                {
                    alignments.push(aligns[i]);
                    i = i + 1;
                    assert(alignments@ =~= aligns@.take(i as int));
                }
                assert(aligns@.take(aligns@.len() as int) =~= aligns@);
                let t = TableBlock { alignments, header: Vec::new(), rows: Vec::new() };
                assert(cells_model(t.header@) =~= Seq::empty());
                assert(rows_model(t.rows@) =~= Seq::empty());
                self.open(Container::Table(t, true));
            },
            MdTag::TableRow => {
                match self.close() {
                    Some(Container::Table(mut t, false)) => {
                        let ghost r = rows_model(t.rows@);
                        let new_row: Vec<Vec<InlineSpan>> = Vec::new();
                        assert(cells_model(new_row@) =~= Seq::empty());
                        t.rows.push(new_row);
                        assert(rows_model(t.rows@) =~= r.push(Seq::empty()));
                        self.open(Container::Table(t, false));
                    },
                    Some(other) => {
                        self.open(other);
                        assert(self@.containers =~= b.containers);
                    },
                    None => {},
                }
            },
            MdTag::TableHead | MdTag::TableCell => {},
            MdTag::CodeBlock(info) => {
                self.flush_inline();
                let language = match info {
                    Some(s) => first_word_of(s),
                    None => None,
                };
                self.code = Some((language, String::new()));
            },
            MdTag::DefinitionList => {
                self.flush_inline();
                self.open(Container::DefinitionList(Vec::new()));
            },
            MdTag::DefinitionListTitle => self.flush_inline(),
            MdTag::DefinitionListDefinition => self.open(Container::Definition(Vec::new())),
            MdTag::FootnoteDefinition(name) => {
                self.flush_inline();
                let number = self.footnote_number(name);
                self.open(Container::Footnote(number, Vec::new()));
            },
            MdTag::HtmlBlock => self.html = Some(String::new()),
            MdTag::Emphasis => self.style.italic = true,
            MdTag::Strong => self.style.bold = true,
            MdTag::Strikethrough => self.style.strikethrough = true,
            MdTag::Link(url) => {
                let ghost l = strings_model(self.links@);
                self.links.push(url.clone());
                assert(strings_model(self.links@) =~= l.push(url@));
            },
            MdTag::Image(url) => {
                self.image = Some((self.inline.len(), url.clone()));
            },
            MdTag::Other => {},
        }
    }

    /// The end of an image: its collected alt text becomes one span.
    fn end_image(&mut self)
        ensures
            final(self)@ == super::builder_spec::spec_end_image(old(self)@),
            final(self).footnote_names@.len() == old(self).footnote_names@.len(),
    {
        let ghost b = self@;
        match self.image.take() {
            Some((start, url)) => {
                let n = self.inline.len();
                let s = if start <= n {
                    start
                } else {
                    n
                };
                let ghost sm = spans_model(self.inline@);
                let mut alt: Vec<char> = Vec::new();
                let mut k = s;
                assert(sm.subrange(s as int, s as int) =~= Seq::<SpecSpan>::empty());
                while k < n
                    invariant
                        s <= k <= n == self.inline@.len(),
                        sm == spans_model(self.inline@),
                        alt@ == concat_texts(sm.subrange(s as int, k as int)),
                    decreases n - k,
                {
                    let piece = chars_of(self.inline[k].text.as_str());
                    extend_chars(&mut alt, &piece);
                    assert(sm.subrange(s as int, k + 1).drop_last() =~= sm.subrange(s as int, k as int));
                    k = k + 1;
                }
                self.inline.truncate(s);
                let label = if is_blank(&alt) {
                    url.clone()
                } else {
                    string_of(alt.as_slice())
                };
                let span = InlineSpan {
                    text: label,
                    style: self.style,
                    link: self.last_link(),
                    image: Some(url),
                };
                self.inline.push(span);
                assert(spans_model(self.inline@) =~= sm.take(s as int).push(span@));
            },
            None => {},
        }
    }

    /// The end of a paragraph.
    fn end_paragraph(&mut self)
        ensures
            final(self)@ == super::builder_spec::spec_end_paragraph(old(self)@),
            final(self).footnote_names@.len() == old(self).footnote_names@.len(),
    {
        let mut spans = self.take_inline();
        // An image alone in its paragraph becomes a block so the player
        // can draw the actual picture.
        if spans.len() == 1 && spans[0].image.is_some() {
            assert(spans_model(spans@)[0] == spans@[0]@);
            let only = spans.pop().unwrap();
            match only.image {
                Some(source) => self.push_block(Block::Image { source, alt: only.text }),
                None => {},
            }
        } else if spans.len() > 0 {
            self.push_block(Block::Paragraph(spans));
        }
    }

    /// The end of a list item.
    fn end_item(&mut self)
        ensures
            final(self)@ == super::builder_spec::spec_end_item(old(self)@),
            final(self).footnote_names@.len() == old(self).footnote_names@.len(),
    {
        self.flush_inline();
        let ghost f = self@;
        match self.close() {
            Some(Container::Item(blocks, task)) => {
                let ghost p = self@;
                match self.close() {
                    Some(Container::List(mut list)) => {
                        let item = ListItem { blocks, task };
                        proof {
                            lemma_items_model_push(list.items@, item);
                        }
                        list.items.push(item);
                        self.open(Container::List(list));
                    },
                    Some(other) => {
                        self.open(other);
                        assert(self@.containers =~= p.containers);
                    },
                    None => {},
                }
            },
            _ => {},
        }
    }

    /// The end of a definition.
    fn end_definition(&mut self)
        ensures
            final(self)@ == super::builder_spec::spec_end_definition(old(self)@),
            final(self).footnote_names@.len() == old(self).footnote_names@.len(),
    {
        self.flush_inline();
        match self.close() {
            Some(Container::Definition(blocks)) => {
                let ghost p = self@;
                match self.close() {
                    Some(Container::DefinitionList(mut items)) => {
                        let ghost im = def_items_model(items@);
                        proof {
                            lemma_def_items_model_len(items@);
                        }
                        if items.len() > 0 {
                            let ghost orig = items@;
                            let mut last = items.pop().unwrap();
                            let ghost before = items@;
                            proof {
                                assert(orig =~= before.push(last));
                                lemma_def_items_model_push(before, last);
                                lemma_defs_model_push(last.definitions@, blocks);
                            }
                            assert(im.drop_last() =~= def_items_model(before));
                            last.definitions.push(blocks);
                            items.push(last);
                            proof {
                                lemma_def_items_model_push(before, last);
                            }
                        }
                        let ghost unchanged = items@.len() == 0;
                        self.open(Container::DefinitionList(items));
                        proof {
                            if unchanged {
                                assert(self@.containers =~= p.containers);
                            }
                        }
                    },
                    Some(other) => {
                        self.open(other);
                        assert(self@.containers =~= p.containers);
                    },
                    None => {},
                }
            },
            _ => {},
        }
    }

    /// The end of a table cell.
    fn end_cell(&mut self)
        ensures
            final(self)@ == super::builder_spec::spec_end_cell(old(self)@),
            final(self).footnote_names@.len() == old(self).footnote_names@.len(),
    {
        let cell = self.take_inline();
        let ghost c = self@;
        match self.close() {
            Some(Container::Table(mut t, in_head)) => {
                if in_head {
                    let ghost h = cells_model(t.header@);
                    t.header.push(cell);
                    assert(cells_model(t.header@) =~= h.push(spans_model(cell@)));
                } else if t.rows.len() > 0 {
                    let ghost r = rows_model(t.rows@);
                    let mut row = t.rows.pop().unwrap();
                    assert(r.last() == cells_model(row@));
                    let ghost rw = cells_model(row@);
                    row.push(cell);
                    assert(cells_model(row@) =~= rw.push(spans_model(cell@)));
                    t.rows.push(row);
                    assert(rows_model(t.rows@) =~= r.drop_last().push(cells_model(row@)));
                }
                let ghost unchanged = !in_head && t.rows@.len() == 0;
                self.open(Container::Table(t, in_head));
                proof {
                    if unchanged {
                        assert(self@.containers =~= c.containers);
                    }
                }
            },
            Some(other) => {
                self.open(other);
                assert(self@.containers =~= c.containers);
            },
            None => {},
        }
    }



    fn end_quote(&mut self)
        ensures
            final(self)@ == super::builder_spec::spec_end(old(self)@, MdTagEnd::BlockQuote),
            final(self).footnote_names@.len() == old(self).footnote_names@.len(),
    {
        self.flush_inline();
        match self.close() {
            Some(Container::Quote(kind, blocks)) => {
                self.push_block(Block::BlockQuote { kind, blocks });
            },
            _ => {},
        }
    }

    fn end_list(&mut self)
        ensures
            final(self)@ == super::builder_spec::spec_end(old(self)@, MdTagEnd::List),
            final(self).footnote_names@.len() == old(self).footnote_names@.len(),
    {
        match self.close() {
            Some(Container::List(list)) => self.push_block(Block::List(list)),
            _ => {},
        }
    }

    fn end_definition_list(&mut self)
        ensures
            final(self)@ == super::builder_spec::spec_end(old(self)@, MdTagEnd::DefinitionList),
            final(self).footnote_names@.len() == old(self).footnote_names@.len(),
    {
        match self.close() {
            Some(Container::DefinitionList(items)) => {
                self.push_block(Block::DefinitionList(items));
            },
            _ => {},
        }
    }

    fn end_title(&mut self)
        ensures
            final(self)@ == super::builder_spec::spec_end(old(self)@, MdTagEnd::DefinitionListTitle),
            final(self).footnote_names@.len() == old(self).footnote_names@.len(),
    {
        let term = self.take_inline();
        let ghost c = self@;
        match self.close() {
            Some(Container::DefinitionList(mut items)) => {
                let item = DefinitionItem { term, definitions: Vec::new() };
                assert(defs_model(item.definitions@) =~= Seq::empty());
                proof {
                    lemma_def_items_model_push(items@, item);
                }
                items.push(item);
                self.open(Container::DefinitionList(items));
            },
            Some(other) => {
                self.open(other);
                assert(self@.containers =~= c.containers);
            },
            None => {},
        }
    }

    fn end_footnote(&mut self)
        ensures
            final(self)@ == super::builder_spec::spec_end(old(self)@, MdTagEnd::FootnoteDefinition),
            final(self).footnote_names@.len() == old(self).footnote_names@.len(),
    {
        self.flush_inline();
        match self.close() {
            Some(Container::Footnote(number, blocks)) => {
                let f = Footnote { number, blocks };
                proof {
                    lemma_footnotes_model_push(self.footnotes@, f);
                }
                self.footnotes.push(f);
            },
            _ => {},
        }
    }

    fn end_table(&mut self)
        ensures
            final(self)@ == super::builder_spec::spec_end(old(self)@, MdTagEnd::Table),
            final(self).footnote_names@.len() == old(self).footnote_names@.len(),
    {
        match self.close() {
            Some(Container::Table(table, _)) => self.push_block(Block::Table(table)),
            _ => {},
        }
    }

    fn end_table_head(&mut self)
        ensures
            final(self)@ == super::builder_spec::spec_end(old(self)@, MdTagEnd::TableHead),
            final(self).footnote_names@.len() == old(self).footnote_names@.len(),
    {
        let ghost b = self@;
        match self.close() {
            Some(Container::Table(table, _)) => self.open(Container::Table(table, false)),
            Some(other) => {
                self.open(other);
                assert(self@.containers =~= b.containers);
            },
            None => {},
        }
    }

    fn end_code(&mut self)
        ensures
            final(self)@ == super::builder_spec::spec_end(old(self)@, MdTagEnd::CodeBlock),
            final(self).footnote_names@.len() == old(self).footnote_names@.len(),
    {
        match self.code.take() {
            Some((language, code)) => self.push_block(Block::CodeBlock { language, code }),
            None => {},
        }
    }

    fn end_html(&mut self)
        ensures
            final(self)@ == super::builder_spec::spec_end(old(self)@, MdTagEnd::HtmlBlock),
            final(self).footnote_names@.len() == old(self).footnote_names@.len(),
    {
        match self.html.take() {
            Some(html) => {
                let h = chars_of(html.as_str());
                self.add_comment_notes(&h);
            },
            None => {},
        }
    }

    fn end_heading(&mut self, level: u8)
        ensures
            final(self)@ == super::builder_spec::spec_end(old(self)@, MdTagEnd::Heading(level)),
            final(self).footnote_names@.len() == old(self).footnote_names@.len(),
    {
        let content = self.take_inline();
        self.push_block(Block::Heading { level, content });
    }

    fn end_link(&mut self)
        ensures
            final(self)@ == super::builder_spec::spec_end(old(self)@, MdTagEnd::Link),
            final(self).footnote_names@.len() == old(self).footnote_names@.len(),
    {
        let ghost l = strings_model(self.links@);
        self.links.pop();
        assert(strings_model(self.links@) =~= if l.len() > 0 {
            l.drop_last()
        } else {
            l
        });
    }

    /// The builder after the end of a tag.
    #[verifier::spinoff_prover]
    fn end(&mut self, tag: &MdTagEnd)
        ensures
            final(self)@ == super::builder_spec::spec_end(old(self)@, *tag),
            final(self).footnote_names@.len() == old(self).footnote_names@.len(),
    {
        match tag {
            MdTagEnd::Paragraph => self.end_paragraph(),
            MdTagEnd::Heading(level) => self.end_heading(*level),
            MdTagEnd::BlockQuote => self.end_quote(),
            MdTagEnd::List => self.end_list(),
            MdTagEnd::Item => self.end_item(),
            MdTagEnd::DefinitionList => self.end_definition_list(),
            MdTagEnd::DefinitionListTitle => self.end_title(),
            MdTagEnd::DefinitionListDefinition => self.end_definition(),
            MdTagEnd::FootnoteDefinition => self.end_footnote(),
            MdTagEnd::Table => self.end_table(),
            MdTagEnd::TableHead => self.end_table_head(),
            MdTagEnd::TableRow => {},
            MdTagEnd::TableCell => self.end_cell(),
            MdTagEnd::CodeBlock => self.end_code(),
            MdTagEnd::HtmlBlock => self.end_html(),
            MdTagEnd::Emphasis => self.style.italic = false,
            MdTagEnd::Strong => self.style.bold = false,
            MdTagEnd::Strikethrough => self.style.strikethrough = false,
            MdTagEnd::Link => self.end_link(),
            MdTagEnd::Image => self.end_image(),
            MdTagEnd::Other => {},
        }
    }

    /// The builder after one event.
    #[verifier::spinoff_prover]
    #[verifier::rlimit(80)]
    fn event(&mut self, event: &MdEvent)
        requires
            old(self).footnote_names@.len() < usize::MAX,
        ensures
            final(self)@ == super::builder_spec::spec_event(old(self)@, *event),
            final(self).footnote_names@.len() <= old(self).footnote_names@.len() + 1,
    {
        let ghost b = self@;
        match event {
            MdEvent::Start(tag) => self.start(tag),
            MdEvent::End(tag) => self.end(tag),
            MdEvent::Text(text) => {
                match self.code.take() {
                    Some((language, mut buf)) => {
                        buf.append(text.as_str());
                        self.code = Some((language, buf));
                    },
                    None => {
                        match self.html.take() {
                            Some(mut html) => {
                                html.append(text.as_str());
                                self.html = Some(html);
                            },
                            None => {
                                let t = chars_of(text.as_str());
                                let style = self.style;
                                self.push_span(&t, style);
                            },
                        }
                    },
                }
            },
            MdEvent::Code(text) => {
                let t = chars_of(text.as_str());
                let mut style = self.style;
                style.code = true;
                self.push_span(&t, style);
            },
            MdEvent::SoftBreak => {
                let t = vec![' '];
                assert(t@ =~= seq![' ']);
                let style = self.style;
                self.push_span(&t, style);
            },
            MdEvent::HardBreak => {
                let t = vec!['\n'];
                assert(t@ =~= seq!['\n']);
                let style = self.style;
                self.push_span(&t, style);
            },
            MdEvent::Rule => {
                self.flush_inline();
                self.push_block(Block::Rule);
            },
            MdEvent::TaskListMarker(checked) => {
                match self.close() {
                    Some(Container::Item(blocks, _)) => {
                        self.open(Container::Item(blocks, Some(*checked)));
                    },
                    Some(other) => {
                        self.open(other);
                        assert(self@.containers =~= b.containers);
                    },
                    None => {},
                }
            },
            MdEvent::FootnoteReference(name) => {
                let mut style = self.style;
                style.footnote_ref = true;
                let number = self.footnote_number(name);
                let mut marker = vec!['['];
                push_decimal(&mut marker, number as u128);
                marker.push(']');
                assert(marker@ =~= super::builder_spec::footnote_marker(number as int));
                self.push_span(&marker, style);
            },
            MdEvent::InlineHtml(html) => self.inline_html(html),
            MdEvent::Html(html) => {
                match self.html.take() {
                    Some(mut buf) => {
                        buf.append(html.as_str());
                        self.html = Some(buf);
                    },
                    None => {
                        let h = chars_of(html.as_str());
                        self.add_comment_notes(&h);
                    },
                }
            },
            MdEvent::Other => {},
        }
    }

    /// The finished column: its blocks (with the footnote section, sorted
    /// by number, when any footnote was defined) and its notes.
    fn finish(self) -> (r: (Vec<Block>, Vec<String>))
        ensures
            (blocks_model(r.0@), strings_model(r.1@)) == super::builder_spec::spec_finish(self@),
    {
        let mut b = self;
        b.flush_inline();
        let ghost f = b@;
        if b.footnotes.len() > 0 {
            let mut footnotes: Vec<Footnote> = Vec::new();
            std::mem::swap(&mut footnotes, &mut b.footnotes);
            proof {
                lemma_footnotes_model_len(footnotes@);
            }
            let sorted = sort_footnotes_vec(footnotes);
            let block = Block::Footnotes(sorted);
            proof {
                lemma_blocks_model_push(b.blocks@, block);
            }
            b.blocks.push(block);
        }
        (b.blocks, b.notes)
    }

}

} // verus!

verus! {

/// One column's blocks and notes from its events.
fn build_column(events: &Vec<MdEvent>) -> (r: (Vec<Block>, Vec<String>))
    ensures
        (blocks_model(r.0@), strings_model(r.1@)) == column_of(events@),
{
    let mut b = SlideBuilder::new();
    let mut k: usize = 0;
    while k < events.len()
        invariant
            k <= events@.len(),
            b.footnote_names@.len() <= k,
            super::builder_spec::build_from(events@, 0, empty_builder())
                == super::builder_spec::build_from(events@, k as int, b@),
        decreases events@.len() - k,
    {
        b.event(&events[k]);
        k = k + 1;
    }
    b.finish()
}

/// The event streams' views.
pub open spec fn event_streams(cols: Seq<Vec<MdEvent>>) -> Seq<Seq<MdEvent>> {
    cols.map_values(|v: Vec<MdEvent>| v@)
}

/// The event streams pulldown-cmark yields for each source.
pub open spec fn source_streams(sources: Seq<String>) -> Seq<Seq<MdEvent>> {
    sources.map_values(|s: String| cmark_events(s@))
}

impl Slide {
    /// Build a slide from each column's markdown events: one column per
    /// event stream (an empty list yields one empty column), and the
    /// notes of all columns in order.
    pub fn from_events(columns: &Vec<Vec<MdEvent>>) -> (r: Slide)
        ensures
            r@ == super::builder_spec::spec_slide(event_streams(columns@)),
    {
        let ghost cols = event_streams(columns@);
        let mut out: Vec<Vec<Block>> = Vec::new();
        let mut notes: Vec<String> = Vec::new();
        let mut k: usize = 0;
        assert(cols.take(0) =~= Seq::<Seq<MdEvent>>::empty());
        assert(columns_model(out@) =~= Seq::<Seq<SpecBlock>>::empty());
        assert(strings_model(notes@) =~= Seq::<Seq<char>>::empty());
        while k < columns.len()
            invariant
                k <= columns@.len(),
                cols == event_streams(columns@),
                super::builder_spec::slide_of_columns(cols.take(k as int)) == (SpecSlide {
                    columns: columns_model(out@),
                    notes: strings_model(notes@),
                }),
            decreases columns@.len() - k,
        {
            let (blocks, found) = build_column(&columns[k]);
            assert(cols.take(k + 1).drop_last() =~= cols.take(k as int));
            assert(cols.take(k + 1).last() == columns@[k as int]@);
            let ghost before_cols = columns_model(out@);
            let ghost before_notes = strings_model(notes@);
            out.push(blocks);
            assert(columns_model(out@) =~= before_cols.push(blocks_model(blocks@)));
            let mut i: usize = 0;
            while i < found.len()
                invariant
                    i <= found@.len(),
                    strings_model(notes@) == before_notes + strings_model(found@).take(i as int),
                decreases found@.len() - i,
            {
                let ghost prev = strings_model(notes@);
                let n = found[i].clone();
                assert(strings_model(found@)[i as int] == found@[i as int]@);
                notes.push(n);
                assert(strings_model(notes@) =~= prev.push(n@));
                assert(strings_model(found@).take(i + 1) =~= strings_model(found@).take(i as int).push(
                    n@,
                ));
                i = i + 1;
            }
            assert(strings_model(found@).take(found@.len() as int) =~= strings_model(found@));
            k = k + 1;
        }
        assert(cols.take(columns@.len() as int) =~= cols);
        if out.len() == 0 {
            out.push(Vec::new());
            assert(columns_model(out@) =~= seq![Seq::<SpecBlock>::empty()]);
        }
        Slide { columns: out, notes }
    }

    /// Parse a slide from its column sources (one per `|||` section).
    /// Markdown parsing cannot fail; malformed input renders as literal
    /// text.
    pub fn parse_columns(columns: &[String]) -> (r: Slide)
        ensures
            r@ == super::builder_spec::spec_slide(source_streams(columns@)),
    {
        let mut streams: Vec<Vec<MdEvent>> = Vec::new();
        let mut k: usize = 0;
        while k < columns.len()
            invariant
                k <= columns@.len(),
                event_streams(streams@) == source_streams(columns@).take(k as int),
            decreases columns@.len() - k,
        {
            let events = markdown_events(columns[k].as_str());
            let ghost before = event_streams(streams@);
            streams.push(events);
            assert(event_streams(streams@) =~= before.push(events@));
            k = k + 1;
            assert(source_streams(columns@).take(k as int) =~= before.push(events@));
        }
        assert(source_streams(columns@).take(columns@.len() as int) =~= source_streams(columns@));
        Slide::from_events(&streams)
    }

    /// Parse one single-column slide.
    pub fn parse(source: &str) -> (r: Slide)
        ensures
            r@ == super::builder_spec::spec_slide(seq![cmark_events(source@)]),
    {
        let mut columns: Vec<String> = Vec::new();
        columns.push(String::from_str(source));
        assert(source_streams(columns@) =~= seq![cmark_events(source@)]);
        Slide::parse_columns(columns.as_slice())
    }
}

} // verus!
