//! The shape of the inline text a slide's markdown builds: every text
//! span says something (no empty text, no tabs), and neighbors that could
//! have been one span are one.
use vstd::prelude::*;

use super::builder_spec::{
    build_from, column_of, empty_builder, expand_tabs, insert_pos, last_link, popped, sort_footnotes, spec_slide,
    spec_end, spec_end_cell, spec_end_definition, spec_end_image, spec_end_item,
    spec_end_paragraph, spec_event, spec_finish, spec_flush_inline, spec_footnote_number,
    spec_inline_html, spec_push_block, spec_push_span, spec_start, top, with_top, SpecBuilder,
    SpecContainer,
};
use super::events::{MdEvent, MdTag, MdTagEnd};
use super::slide::{SpecBlock, SpecDefItem, SpecFootnote, SpecItem, SpecList, SpecSpan, SpecTable};

verus! {

/// A text span (one that is no image) has text, and no tab in it.
pub open spec fn span_fine(s: SpecSpan) -> bool {
    s.image is None ==> s.text.len() > 0 && !s.text.contains('\t')
}

/// Two neighboring text spans could have been one: same style, same link.
pub open spec fn mergeable(a: SpecSpan, b: SpecSpan) -> bool {
    a.image is None && b.image is None && a.style == b.style && a.link == b.link
}

/// Every span is fine.
pub open spec fn spans_fine(s: Seq<SpecSpan>) -> bool {
    forall|i: int| 0 <= i < s.len() ==> span_fine(#[trigger] s[i])
}

/// No two neighbors could have been one.
pub open spec fn spans_merged(s: Seq<SpecSpan>) -> bool {
    forall|i: int| 0 <= i < s.len() - 1 ==> !mergeable(#[trigger] s[i], s[i + 1])
}

/// A well-formed run of inline spans: every span fine, and, where `m`
/// asks for it, merged.
pub open spec fn spans_ok(s: Seq<SpecSpan>, m: bool) -> bool {
    spans_fine(s) && (m ==> spans_merged(s))
}

/// Every run of spans in a table is well formed.
pub open spec fn table_ok(t: SpecTable, m: bool) -> bool {
    &&& forall|i: int| 0 <= i < t.header.len() ==> spans_ok(#[trigger] t.header[i], m)
    &&& forall|i: int, j: int|
        0 <= i < t.rows.len() && 0 <= j < t.rows[i].len() ==> spans_ok(#[trigger] t.rows[i][j], m)
}

/// Every run of spans anywhere in `b` is well formed (merged where `m`
/// asks for it).
pub open spec fn block_ok(b: SpecBlock, m: bool) -> bool
    decreases b,
{
    match b {
        SpecBlock::Heading { content, .. } => spans_ok(content, m),
        SpecBlock::Paragraph(s) => spans_ok(s, m),
        SpecBlock::List(l) => forall|i: int, j: int|
            0 <= i < l.items.len() && 0 <= j < l.items[i].blocks.len() ==> block_ok(#[trigger] l.items[i].blocks[j], m),
        SpecBlock::BlockQuote { blocks, .. } => forall|i: int| 0 <= i < blocks.len() ==> block_ok(#[trigger] blocks[i], m),
        SpecBlock::Table(t) => table_ok(t, m),
        SpecBlock::DefinitionList(items) => {
            &&& forall|i: int| 0 <= i < items.len() ==> spans_ok(#[trigger] items[i].term, m)
            &&& forall|i: int, j: int, k: int|
                0 <= i < items.len() && 0 <= j < items[i].definitions.len() && 0 <= k
                    < items[i].definitions[j].len() ==> block_ok(#[trigger] items[i].definitions[j][k], m)
        },
        SpecBlock::Footnotes(fs) => forall|i: int, j: int|
            0 <= i < fs.len() && 0 <= j < fs[i].blocks.len() ==> block_ok(#[trigger] fs[i].blocks[j], m),
        _ => true,
    }
}

/// Every block of `s` is well formed.
pub open spec fn blocks_ok(s: Seq<SpecBlock>, m: bool) -> bool {
    forall|i: int| 0 <= i < s.len() ==> block_ok(#[trigger] s[i], m)
}

/// Every block of every item is well formed.
pub open spec fn items_ok(items: Seq<SpecItem>, m: bool) -> bool {
    forall|i: int, j: int| 0 <= i < items.len() && 0 <= j < items[i].blocks.len() ==> block_ok(#[trigger] items[i].blocks[j], m)
}

/// Every term and every block of every definition is well formed.
pub open spec fn defs_ok(items: Seq<SpecDefItem>, m: bool) -> bool {
    &&& forall|i: int| 0 <= i < items.len() ==> spans_ok(#[trigger] items[i].term, m)
    &&& forall|i: int, j: int, k: int|
        0 <= i < items.len() && 0 <= j < items[i].definitions.len() && 0 <= k < items[i].definitions[j].len()
            ==> block_ok(#[trigger] items[i].definitions[j][k], m)
}

/// Every block of every footnote is well formed.
pub open spec fn footnotes_ok(fs: Seq<SpecFootnote>, m: bool) -> bool {
    forall|i: int, j: int| 0 <= i < fs.len() && 0 <= j < fs[i].blocks.len() ==> block_ok(#[trigger] fs[i].blocks[j], m)
}

/// Everything an open container holds is well formed.
pub open spec fn cont_ok(c: SpecContainer, m: bool) -> bool {
    match c {
        SpecContainer::Quote(_, bl) => blocks_ok(bl, m),
        SpecContainer::DefinitionList(items) => defs_ok(items, m),
        SpecContainer::Definition(bl) => blocks_ok(bl, m),
        SpecContainer::Footnote(_, bl) => blocks_ok(bl, m),
        SpecContainer::Table(t, _) => table_ok(t, m),
        SpecContainer::List(l) => items_ok(l.items, m),
        SpecContainer::Item(bl, _) => blocks_ok(bl, m),
    }
}

/// Every open container is well formed.
pub open spec fn conts_ok(cs: Seq<SpecContainer>, m: bool) -> bool {
    forall|i: int| 0 <= i < cs.len() ==> cont_ok(#[trigger] cs[i], m)
}

/// The pending spans: each fine, and an image's alt text starts at a
/// real index; where `m` asks for merged runs, merged wherever no image's
/// alt text is being collected (before the alt text starts, while one
/// is).
pub open spec fn inline_ok(b: SpecBuilder, m: bool) -> bool {
    &&& spans_fine(b.inline)
    &&& b.image matches Some((st, _)) ==> 0 <= st
    &&& m ==> match b.image {
        None => spans_merged(b.inline),
        Some((st, _)) => st <= b.inline.len() && spans_merged(b.inline.take(st)),
    }
}

/// What the builder keeps: everything built, open or pending is well
/// formed.
pub open spec fn builder_ok(b: SpecBuilder, m: bool) -> bool {
    &&& blocks_ok(b.blocks, m)
    &&& conts_ok(b.containers, m)
    &&& footnotes_ok(b.footnotes, m)
    &&& inline_ok(b, m)
}

proof fn lemma_blocks_push(s: Seq<SpecBlock>, b: SpecBlock, m: bool)
    requires
        blocks_ok(s, m),
        block_ok(b, m),
    ensures
        blocks_ok(s.push(b), m),
{
    assert forall|i: int| 0 <= i < s.push(b).len() implies block_ok(#[trigger] s.push(b)[i], m) by {
        if i < s.len() {
            assert(s.push(b)[i] == s[i]);
        }
    }
}

proof fn lemma_conts_with_top(cs: Seq<SpecContainer>, c: SpecContainer, m: bool)
    requires
        cs.len() > 0,
        conts_ok(cs, m),
        cont_ok(c, m),
    ensures
        conts_ok(cs.drop_last().push(c), m),
        conts_ok(cs.drop_last(), m),
{
    let r = cs.drop_last().push(c);
    assert forall|i: int| 0 <= i < r.len() implies cont_ok(#[trigger] r[i], m) by {
        if i < cs.len() - 1 {
            assert(r[i] == cs[i]);
        }
    }
    assert forall|i: int| 0 <= i < cs.drop_last().len() implies cont_ok(#[trigger] cs.drop_last()[i], m) by {
        assert(cs.drop_last()[i] == cs[i]);
    }
}

proof fn lemma_conts_push(cs: Seq<SpecContainer>, c: SpecContainer, m: bool)
    requires
        conts_ok(cs, m),
        cont_ok(c, m),
    ensures
        conts_ok(cs.push(c), m),
{
    assert forall|i: int| 0 <= i < cs.push(c).len() implies cont_ok(#[trigger] cs.push(c)[i], m) by {
        if i < cs.len() {
            assert(cs.push(c)[i] == cs[i]);
        }
    }
}

proof fn lemma_push_block(b: SpecBuilder, blk: SpecBlock, m: bool)
    requires
        builder_ok(b, m),
        block_ok(blk, m),
    ensures
        builder_ok(spec_push_block(b, blk), m),
        spec_push_block(b, blk).inline == b.inline,
        spec_push_block(b, blk).image == b.image,
{
    if b.containers.len() == 0 {
        lemma_blocks_push(b.blocks, blk, m);
    } else {
        let rest = b.containers.drop_last();
        assert(cont_ok(b.containers[b.containers.len() - 1], m));
        match b.containers.last() {
            SpecContainer::Quote(k, bl) => {
                lemma_blocks_push(bl, blk, m);
                lemma_conts_with_top(b.containers, SpecContainer::Quote(k, bl.push(blk)), m);
            },
            SpecContainer::Item(bl, t) => {
                lemma_blocks_push(bl, blk, m);
                lemma_conts_with_top(b.containers, SpecContainer::Item(bl.push(blk), t), m);
            },
            SpecContainer::Definition(bl) => {
                lemma_blocks_push(bl, blk, m);
                lemma_conts_with_top(b.containers, SpecContainer::Definition(bl.push(blk)), m);
            },
            SpecContainer::Footnote(n, bl) => {
                lemma_blocks_push(bl, blk, m);
                lemma_conts_with_top(b.containers, SpecContainer::Footnote(n, bl.push(blk)), m);
            },
            _ => {
                lemma_blocks_push(b.blocks, blk, m);
            },
        }
    }
}

/// Pending spans that are well formed become a paragraph.
proof fn lemma_flush(b: SpecBuilder, m: bool)
    requires
        builder_ok(b, m),
        m ==> b.image is None,
    ensures
        builder_ok(spec_flush_inline(b), m),
        spec_flush_inline(b).image == b.image,
        spec_flush_inline(b).inline.len() == 0,
{
    if b.inline.len() > 0 {
        let c = SpecBuilder { inline: Seq::empty(), ..b };
        assert(block_ok(SpecBlock::Paragraph(b.inline), m));
        assert(builder_ok(c, m));
        lemma_push_block(c, SpecBlock::Paragraph(b.inline), m);
    }
}

/// Expanded text is there and has no tab.
proof fn lemma_expand_tabs(t: Seq<char>)
    ensures
        t.len() > 0 ==> expand_tabs(t).len() > 0,
        !expand_tabs(t).contains('\t'),
    decreases t.len(),
{
    if t.len() > 0 {
        lemma_expand_tabs(t.drop_last());
        let e = expand_tabs(t.drop_last());
        let r = expand_tabs(t);
        if r.contains('\t') {
            let j = choose|j: int| 0 <= j < r.len() && r[j] == '\t';
            if j < e.len() {
                assert(r[j] == e[j]);
            }
        }
    }
}

proof fn lemma_push_span(b: SpecBuilder, text: Seq<char>, style: super::slide::InlineStyle, m: bool)
    requires
        inline_ok(b, m),
    ensures
        inline_ok(spec_push_span(b, text, style), m),
        spec_push_span(b, text, style) == (SpecBuilder { inline: spec_push_span(b, text, style).inline, ..b }),
{
    if text.len() > 0 {
        let t = expand_tabs(text);
        lemma_expand_tabs(text);
        let link = last_link(b.links);
        let n = b.inline.len();
        let r = spec_push_span(b, text, style);
        if b.image is None && n > 0 && b.inline.last().style == style && b.inline.last().link == link
            && b.inline.last().image is None {
            let last = b.inline.last();
            let merged = SpecSpan { text: last.text + t, ..last };
            assert(r.inline == b.inline.drop_last().push(merged));
            assert(span_fine(last));
            assert(!merged.text.contains('\t')) by {
                if merged.text.contains('\t') {
                    let j = choose|j: int| 0 <= j < merged.text.len() && merged.text[j] == '\t';
                    if j < last.text.len() {
                        assert(merged.text[j] == last.text[j]);
                    } else {
                        assert(merged.text[j] == t[j - last.text.len()]);
                    }
                }
            }
            assert forall|i: int| 0 <= i < r.inline.len() implies span_fine(#[trigger] r.inline[i]) by {
                if i < n - 1 {
                    assert(r.inline[i] == b.inline[i]);
                }
            }
            if m {
                assert forall|i: int| 0 <= i < r.inline.len() - 1 implies !mergeable(#[trigger] r.inline[i], r.inline[i + 1]) by {
                    assert(r.inline[i] == b.inline[i]);
                    if i + 1 < n - 1 {
                        assert(r.inline[i + 1] == b.inline[i + 1]);
                    } else {
                        assert(!mergeable(b.inline[i], b.inline[i + 1]));
                    }
                }
            }
        } else {
            let sp = SpecSpan { text: t, style, link, image: None };
            assert(r.inline == b.inline.push(sp));
            assert forall|i: int| 0 <= i < r.inline.len() implies span_fine(#[trigger] r.inline[i]) by {
                if i < n {
                    assert(r.inline[i] == b.inline[i]);
                }
            }
            if m {
                match b.image {
                    None => {
                        assert forall|i: int| 0 <= i < r.inline.len() - 1 implies !mergeable(#[trigger] r.inline[i], r.inline[i + 1]) by {
                            assert(r.inline[i] == b.inline[i]);
                            if i + 1 < n {
                                assert(r.inline[i + 1] == b.inline[i + 1]);
                            }
                        }
                    },
                    Some((st, _)) => {
                        assert(r.inline.take(st) =~= b.inline.take(st));
                    },
                }
            }
        }
    }
}

/// Events that take the pending spans (they start or end a block, a term
/// or a cell), and the start of an image.
pub open spec fn takes_spans(e: MdEvent) -> bool {
    match e {
        MdEvent::Start(t) => match t {
            MdTag::Paragraph | MdTag::Heading | MdTag::BlockQuote(_) | MdTag::List(_) | MdTag::Table(_)
            | MdTag::CodeBlock(_) | MdTag::DefinitionList | MdTag::DefinitionListTitle
            | MdTag::FootnoteDefinition(_) | MdTag::Image(_) => true,
            _ => false,
        },
        MdEvent::End(t) => match t {
            MdTagEnd::Paragraph | MdTagEnd::Heading(_) | MdTagEnd::BlockQuote | MdTagEnd::Item
            | MdTagEnd::DefinitionListTitle | MdTagEnd::DefinitionListDefinition
            | MdTagEnd::FootnoteDefinition | MdTagEnd::TableCell => true,
            _ => false,
        },
        MdEvent::Rule => true,
        _ => false,
    }
}

/// Whether an image is open after the events before `k`.
pub open spec fn image_open(events: Seq<MdEvent>, k: int) -> bool
    decreases k,
{
    if k <= 0 || k > events.len() {
        false
    } else {
        match events[k - 1] {
            MdEvent::Start(MdTag::Image(_)) => true,
            MdEvent::End(MdTagEnd::Image) => false,
            _ => image_open(events, k - 1),
        }
    }
}

/// Images in `events` hold only inline content: while one is open no
/// event takes the pending spans and no other image starts, and none is
/// left open at the end.
pub open spec fn simple_images(events: Seq<MdEvent>) -> bool {
    &&& forall|k: int| 0 <= k < events.len() && image_open(events, k) ==> !takes_spans(#[trigger] events[k])
    &&& !image_open(events, events.len() as int)
}

proof fn lemma_start(b: SpecBuilder, tag: MdTag, m: bool)
    requires
        builder_ok(b, m),
        m ==> (b.image is Some ==> !takes_spans(MdEvent::Start(tag))),
    ensures
        builder_ok(spec_start(b, tag), m),
        (spec_start(b, tag).image is Some) == (tag is Image || b.image is Some),
{
    match tag {
        MdTag::Paragraph | MdTag::Heading | MdTag::DefinitionListTitle => {
            lemma_flush(b, m);
        },
        MdTag::BlockQuote(kind) => {
            lemma_flush(b, m);
            let f = spec_flush_inline(b);
            lemma_conts_push(f.containers, SpecContainer::Quote(kind, Seq::empty()), m);
        },
        MdTag::List(start) => {
            lemma_flush(b, m);
            let f = spec_flush_inline(b);
            let l = SpecList {
                ordered: start is Some,
                start: match start {
                    Some(n) => n,
                    None => 1,
                },
                items: Seq::empty(),
            };
            lemma_conts_push(f.containers, SpecContainer::List(l), m);
        },
        MdTag::Item => {
            lemma_conts_push(b.containers, SpecContainer::Item(Seq::empty(), None), m);
        },
        MdTag::Table(aligns) => {
            lemma_flush(b, m);
            let f = spec_flush_inline(b);
            lemma_conts_push(
                f.containers,
                SpecContainer::Table(SpecTable { alignments: aligns@, header: Seq::empty(), rows: Seq::empty() }, true),
                m,
            );
        },
        MdTag::TableRow => {
            match top(b) {
                Some(SpecContainer::Table(t, false)) => {
                    assert(cont_ok(b.containers[b.containers.len() - 1], m));
                    let t2 = SpecTable { rows: t.rows.push(Seq::empty()), ..t };
                    assert forall|i: int, j: int|
                        0 <= i < t2.rows.len() && 0 <= j < t2.rows[i].len() implies spans_ok(#[trigger] t2.rows[i][j], m) by {
                        assert(t2.rows[i] == t.rows[i]);
                    }
                    lemma_conts_with_top(b.containers, SpecContainer::Table(t2, false), m);
                },
                _ => {},
            }
        },
        MdTag::CodeBlock(info) => {
            lemma_flush(b, m);
        },
        MdTag::DefinitionList => {
            lemma_flush(b, m);
            let f = spec_flush_inline(b);
            lemma_conts_push(f.containers, SpecContainer::DefinitionList(Seq::empty()), m);
        },
        MdTag::DefinitionListDefinition => {
            lemma_conts_push(b.containers, SpecContainer::Definition(Seq::empty()), m);
        },
        MdTag::FootnoteDefinition(name) => {
            lemma_flush(b, m);
            let f = spec_flush_inline(b);
            let (g, n) = spec_footnote_number(f, name@);
            assert(builder_ok(g, m));
            lemma_conts_push(g.containers, SpecContainer::Footnote(n, Seq::empty()), m);
        },
        MdTag::Image(url) => {
            assert(b.inline.take(b.inline.len() as int) =~= b.inline);
        },
        _ => {},
    }
}

proof fn lemma_end_item(b: SpecBuilder, m: bool)
    requires
        builder_ok(b, m),
        m ==> b.image is None,
    ensures
        builder_ok(spec_end_item(b), m),
        spec_end_item(b).image == b.image,
{
    lemma_flush(b, m);
    let f = spec_flush_inline(b);
    let p = popped(f);
    if f.containers.len() > 0 {
        lemma_conts_with_top(f.containers, f.containers.last(), m);
        assert(cont_ok(f.containers[f.containers.len() - 1], m));
        match top(f) {
            Some(SpecContainer::Item(bl, task)) => {
                match top(p) {
                    Some(SpecContainer::List(l)) => {
                        assert(cont_ok(p.containers[p.containers.len() - 1], m));
                        let it = SpecItem { blocks: bl, task };
                        let l2 = SpecList { items: l.items.push(it), ..l };
                        assert forall|i: int, j: int|
                            0 <= i < l2.items.len() && 0 <= j < l2.items[i].blocks.len() implies block_ok(
                                #[trigger] l2.items[i].blocks[j],
                                m,
                            ) by {
                            if i < l.items.len() {
                                assert(l2.items[i] == l.items[i]);
                            } else {
                                assert(l2.items[i] == it);
                            }
                        }
                        lemma_conts_with_top(p.containers, SpecContainer::List(l2), m);
                    },
                    _ => {},
                }
            },
            _ => {},
        }
    }
}

proof fn lemma_end_definition(b: SpecBuilder, m: bool)
    requires
        builder_ok(b, m),
        m ==> b.image is None,
    ensures
        builder_ok(spec_end_definition(b), m),
        spec_end_definition(b).image == b.image,
{
    lemma_flush(b, m);
    let f = spec_flush_inline(b);
    let p = popped(f);
    if f.containers.len() > 0 {
        lemma_conts_with_top(f.containers, f.containers.last(), m);
        assert(cont_ok(f.containers[f.containers.len() - 1], m));
        match top(f) {
            Some(SpecContainer::Definition(bl)) => {
                match top(p) {
                    Some(SpecContainer::DefinitionList(items)) => {
                        if items.len() > 0 {
                            assert(cont_ok(p.containers[p.containers.len() - 1], m));
                            let last = items.last();
                            let d2 = SpecDefItem { definitions: last.definitions.push(bl), ..last };
                            let items2 = items.drop_last().push(d2);
                            assert(spans_ok(items[items.len() - 1].term, m));
                            assert forall|i: int| 0 <= i < items2.len() implies spans_ok(#[trigger] items2[i].term, m) by {
                                if i < items.len() - 1 {
                                    assert(items2[i] == items[i]);
                                }
                            }
                            assert forall|i: int, j: int, k: int|
                                0 <= i < items2.len() && 0 <= j < items2[i].definitions.len() && 0 <= k
                                    < items2[i].definitions[j].len() implies block_ok(#[trigger] items2[i].definitions[j][k], m) by {
                                if i < items.len() - 1 {
                                    assert(items2[i] == items[i]);
                                } else {
                                    assert(items2[i] == d2);
                                    if j < last.definitions.len() {
                                        assert(d2.definitions[j] == items[items.len() - 1].definitions[j]);
                                    } else {
                                        assert(d2.definitions[j] == bl);
                                    }
                                }
                            }
                            lemma_conts_with_top(p.containers, SpecContainer::DefinitionList(items2), m);
                        }
                    },
                    _ => {},
                }
            },
            _ => {},
        }
    }
}

proof fn lemma_end_cell(b: SpecBuilder, m: bool)
    requires
        builder_ok(b, m),
        m ==> b.image is None,
    ensures
        builder_ok(spec_end_cell(b), m),
        spec_end_cell(b).image == b.image,
{
    let cell = b.inline;
    let c = SpecBuilder { inline: Seq::empty(), ..b };
    assert(builder_ok(c, m));
    assert(spans_ok(cell, m));
    match top(c) {
        Some(SpecContainer::Table(t, in_head)) => {
            assert(cont_ok(c.containers[c.containers.len() - 1], m));
            if in_head {
                let t2 = SpecTable { header: t.header.push(cell), ..t };
                assert forall|i: int| 0 <= i < t2.header.len() implies spans_ok(#[trigger] t2.header[i], m) by {
                    if i < t.header.len() {
                        assert(t2.header[i] == t.header[i]);
                    }
                }
                lemma_conts_with_top(c.containers, SpecContainer::Table(t2, true), m);
            } else if t.rows.len() > 0 {
                let row = t.rows.last().push(cell);
                let t2 = SpecTable { rows: t.rows.drop_last().push(row), ..t };
                assert forall|i: int, j: int|
                    0 <= i < t2.rows.len() && 0 <= j < t2.rows[i].len() implies spans_ok(#[trigger] t2.rows[i][j], m) by {
                    if i < t.rows.len() - 1 {
                        assert(t2.rows[i] == t.rows[i]);
                    } else {
                        assert(t2.rows[i] == row);
                        if j < t.rows.last().len() {
                            assert(row[j] == t.rows[t.rows.len() - 1][j]);
                        }
                    }
                }
                lemma_conts_with_top(c.containers, SpecContainer::Table(t2, false), m);
            }
        },
        _ => {},
    }
}

proof fn lemma_end_image(b: SpecBuilder, m: bool)
    requires
        builder_ok(b, m),
    ensures
        builder_ok(spec_end_image(b), m),
        spec_end_image(b).image is None,
{
    match b.image {
        Some((start, url)) => {
            let r = spec_end_image(b);
            let st = if start <= b.inline.len() { start } else { b.inline.len() as int };
            let pre = b.inline.take(st);
            let alt = super::slide::concat_texts(b.inline.subrange(st, b.inline.len() as int));
            let label = if crate::text::all_ws(alt) { url } else { alt };
            let img = SpecSpan { text: label, style: b.style, link: last_link(b.links), image: Some(url) };
            assert(r.inline == pre.push(img));
            assert forall|i: int| 0 <= i < r.inline.len() implies span_fine(#[trigger] r.inline[i]) by {
                if i < pre.len() {
                    assert(r.inline[i] == b.inline[i]);
                }
            }
            if m {
                assert forall|i: int| 0 <= i < r.inline.len() - 1 implies !mergeable(#[trigger] r.inline[i], r.inline[i + 1]) by {
                    assert(r.inline[i] == pre[i]);
                    if i + 1 < pre.len() {
                        assert(r.inline[i + 1] == pre[i + 1]);
                    }
                }
            }
        },
        None => {},
    }
}

proof fn lemma_end(b: SpecBuilder, tag: MdTagEnd, m: bool)
    requires
        builder_ok(b, m),
        m ==> (b.image is Some ==> !takes_spans(MdEvent::End(tag))),
    ensures
        builder_ok(spec_end(b, tag), m),
        (spec_end(b, tag).image is Some) == (!(tag is Image) && b.image is Some),
{
    match tag {
        MdTagEnd::Paragraph => {
            let c = SpecBuilder { inline: Seq::empty(), ..b };
            assert(builder_ok(c, m));
            let spans = b.inline;
            if spans.len() == 1 && spans[0].image is Some {
                lemma_push_block(c, SpecBlock::Image { source: spans[0].image->0, alt: spans[0].text }, m);
            } else if spans.len() > 0 {
                lemma_push_block(c, SpecBlock::Paragraph(spans), m);
            }
        },
        MdTagEnd::Heading(level) => {
            let c = SpecBuilder { inline: Seq::empty(), ..b };
            assert(builder_ok(c, m));
            lemma_push_block(c, SpecBlock::Heading { level, content: b.inline }, m);
        },
        MdTagEnd::BlockQuote => {
            lemma_flush(b, m);
            let f = spec_flush_inline(b);
            if f.containers.len() > 0 {
                lemma_conts_with_top(f.containers, f.containers.last(), m);
                assert(cont_ok(f.containers[f.containers.len() - 1], m));
                match top(f) {
                    Some(SpecContainer::Quote(kind, bl)) => {
                        lemma_push_block(popped(f), SpecBlock::BlockQuote { kind, blocks: bl }, m);
                    },
                    _ => {},
                }
            }
        },
        MdTagEnd::List => {
            if b.containers.len() > 0 {
                lemma_conts_with_top(b.containers, b.containers.last(), m);
                assert(cont_ok(b.containers[b.containers.len() - 1], m));
                match top(b) {
                    Some(SpecContainer::List(l)) => {
                        lemma_push_block(popped(b), SpecBlock::List(l), m);
                    },
                    _ => {},
                }
            }
        },
        MdTagEnd::Item => {
            lemma_end_item(b, m);
        },
        MdTagEnd::DefinitionList => {
            if b.containers.len() > 0 {
                lemma_conts_with_top(b.containers, b.containers.last(), m);
                assert(cont_ok(b.containers[b.containers.len() - 1], m));
                match top(b) {
                    Some(SpecContainer::DefinitionList(items)) => {
                        lemma_push_block(popped(b), SpecBlock::DefinitionList(items), m);
                    },
                    _ => {},
                }
            }
        },
        MdTagEnd::DefinitionListTitle => {
            let c = SpecBuilder { inline: Seq::empty(), ..b };
            assert(builder_ok(c, m));
            match top(c) {
                Some(SpecContainer::DefinitionList(items)) => {
                    assert(cont_ok(c.containers[c.containers.len() - 1], m));
                    let d = SpecDefItem { term: b.inline, definitions: Seq::empty() };
                    let items2 = items.push(d);
                    assert forall|i: int| 0 <= i < items2.len() implies spans_ok(#[trigger] items2[i].term, m) by {
                        if i < items.len() {
                            assert(items2[i] == items[i]);
                        }
                    }
                    assert forall|i: int, j: int, k: int|
                        0 <= i < items2.len() && 0 <= j < items2[i].definitions.len() && 0 <= k
                            < items2[i].definitions[j].len() implies block_ok(#[trigger] items2[i].definitions[j][k], m) by {
                        if i < items.len() {
                            assert(items2[i] == items[i]);
                        }
                    }
                    lemma_conts_with_top(c.containers, SpecContainer::DefinitionList(items2), m);
                },
                _ => {},
            }
        },
        MdTagEnd::DefinitionListDefinition => {
            lemma_end_definition(b, m);
        },
        MdTagEnd::FootnoteDefinition => {
            lemma_flush(b, m);
            let f = spec_flush_inline(b);
            if f.containers.len() > 0 {
                lemma_conts_with_top(f.containers, f.containers.last(), m);
                assert(cont_ok(f.containers[f.containers.len() - 1], m));
                match top(f) {
                    Some(SpecContainer::Footnote(n, bl)) => {
                        let fs = f.footnotes.push(SpecFootnote { number: n, blocks: bl });
                        assert forall|i: int, j: int|
                            0 <= i < fs.len() && 0 <= j < fs[i].blocks.len() implies block_ok(#[trigger] fs[i].blocks[j], m) by {
                            if i < f.footnotes.len() {
                                assert(fs[i] == f.footnotes[i]);
                            }
                        }
                    },
                    _ => {},
                }
            }
        },
        MdTagEnd::Table => {
            if b.containers.len() > 0 {
                lemma_conts_with_top(b.containers, b.containers.last(), m);
                assert(cont_ok(b.containers[b.containers.len() - 1], m));
                match top(b) {
                    Some(SpecContainer::Table(t, _)) => {
                        lemma_push_block(popped(b), SpecBlock::Table(t), m);
                    },
                    _ => {},
                }
            }
        },
        MdTagEnd::TableHead => {
            match top(b) {
                Some(SpecContainer::Table(t, _)) => {
                    assert(cont_ok(b.containers[b.containers.len() - 1], m));
                    lemma_conts_with_top(b.containers, SpecContainer::Table(t, false), m);
                },
                _ => {},
            }
        },
        MdTagEnd::TableCell => {
            lemma_end_cell(b, m);
        },
        MdTagEnd::CodeBlock => {
            match b.code {
                Some((language, code)) => {
                    lemma_push_block(SpecBuilder { code: None, ..b }, SpecBlock::CodeBlock { language, code }, m);
                },
                None => {},
            }
        },
        MdTagEnd::Image => {
            lemma_end_image(b, m);
        },
        _ => {},
    }
}

proof fn lemma_event(b: SpecBuilder, e: MdEvent, m: bool)
    requires
        builder_ok(b, m),
        m ==> (b.image is Some ==> !takes_spans(e)),
    ensures
        builder_ok(spec_event(b, e), m),
        (spec_event(b, e).image is Some) == (e matches MdEvent::Start(MdTag::Image(_)) || (b.image is Some
            && !(e matches MdEvent::End(MdTagEnd::Image)))),
{
    match e {
        MdEvent::Start(tag) => {
            lemma_start(b, tag, m);
        },
        MdEvent::End(tag) => {
            lemma_end(b, tag, m);
        },
        MdEvent::Text(t) => {
            if b.code is None && b.html is None {
                lemma_push_span(b, t@, b.style, m);
            }
        },
        MdEvent::Code(t) => {
            lemma_push_span(b, t@, super::slide::InlineStyle { code: true, ..b.style }, m);
        },
        MdEvent::SoftBreak => {
            lemma_push_span(b, seq![' '], b.style, m);
        },
        MdEvent::HardBreak => {
            lemma_push_span(b, seq!['\n'], b.style, m);
        },
        MdEvent::Rule => {
            lemma_flush(b, m);
            lemma_push_block(spec_flush_inline(b), SpecBlock::Rule, m);
        },
        MdEvent::TaskListMarker(checked) => {
            match top(b) {
                Some(SpecContainer::Item(bl, _)) => {
                    assert(cont_ok(b.containers[b.containers.len() - 1], m));
                    lemma_conts_with_top(b.containers, SpecContainer::Item(bl, Some(checked)), m);
                },
                _ => {},
            }
        },
        MdEvent::FootnoteReference(name) => {
            let (g, n) = spec_footnote_number(b, name@);
            assert(builder_ok(g, m));
            lemma_push_span(g, super::builder_spec::footnote_marker(n), super::slide::InlineStyle { footnote_ref: true, ..b.style }, m);
        },
        MdEvent::InlineHtml(h) => {
            lemma_push_span(b, seq!['\n'], b.style, m);
        },
        _ => {},
    }
}

proof fn lemma_build(events: Seq<MdEvent>, k: int, b: SpecBuilder, m: bool)
    requires
        0 <= k <= events.len(),
        builder_ok(b, m),
        m ==> (b.image is Some) == image_open(events, k),
        m ==> simple_images(events),
    ensures
        builder_ok(build_from(events, k, b), m),
        m ==> (build_from(events, k, b).image is Some) == image_open(events, events.len() as int),
    decreases events.len() - k,
{
    if k < events.len() {
        let e = events[k];
        lemma_event(b, e, m);
        lemma_build(events, k + 1, spec_event(b, e), m);
    }
}

proof fn lemma_insert_pos_bounds(s: Seq<SpecFootnote>, n: int, j: int)
    requires
        0 <= j <= s.len(),
    ensures
        0 <= insert_pos(s, n, j) <= j,
    decreases j,
{
    if j > 0 && s[j - 1].number > n {
        lemma_insert_pos_bounds(s, n, j - 1);
    }
}

/// Sorting footnotes keeps them all and adds none.
proof fn lemma_sort_members(s: Seq<SpecFootnote>)
    ensures
        sort_footnotes(s).len() == s.len(),
        forall|i: int| 0 <= i < s.len() ==> exists|j: int| 0 <= j < s.len() && #[trigger] sort_footnotes(s)[i] == s[j],
    decreases s.len(),
{
    if s.len() > 0 {
        let s1 = s.drop_last();
        lemma_sort_members(s1);
        let sorted = sort_footnotes(s1);
        let p = insert_pos(sorted, s.last().number, sorted.len() as int);
        lemma_insert_pos_bounds(sorted, s.last().number, sorted.len() as int);
        let r = sorted.insert(p, s.last());
        assert(sort_footnotes(s) == r);
        assert forall|i: int| 0 <= i < s.len() implies exists|j: int| 0 <= j < s.len() && #[trigger] sort_footnotes(s)[i] == s[j] by {
            if i < p {
                assert(r[i] == sorted[i]);
                let j = choose|j: int| 0 <= j < s1.len() && sorted[i] == s1[j];
                assert(s1[j] == s[j]);
            } else if i == p {
                assert(r[i] == s[s.len() - 1]);
            } else {
                assert(r[i] == sorted[i - 1]);
                let j = choose|j: int| 0 <= j < s1.len() && sorted[i - 1] == s1[j];
                assert(s1[j] == s[j]);
            }
        }
    }
}

/// The runs of spans a column builds are well formed, merged where `m`
/// asks for it (and images are simple).
proof fn lemma_column(events: Seq<MdEvent>, m: bool)
    requires
        m ==> simple_images(events),
    ensures
        blocks_ok(column_of(events).0, m),
{
    let b0 = empty_builder();
    assert(builder_ok(b0, m)) by {
        assert(b0.inline =~= Seq::<SpecSpan>::empty());
    }
    lemma_build(events, 0, b0, m);
    let b = build_from(events, 0, b0);
    lemma_flush(b, m);
    let f = spec_flush_inline(b);
    if f.footnotes.len() > 0 {
        lemma_sort_members(f.footnotes);
        let fs = sort_footnotes(f.footnotes);
        assert forall|i: int, j: int| 0 <= i < fs.len() && 0 <= j < fs[i].blocks.len() implies block_ok(#[trigger] fs[i].blocks[j], m) by {
            let q = choose|q: int| 0 <= q < f.footnotes.len() && fs[i] == f.footnotes[q];
            assert(fs[i].blocks[j] == f.footnotes[q].blocks[j]);
        }
        assert(block_ok(SpecBlock::Footnotes(fs), m));
        lemma_blocks_push(f.blocks, SpecBlock::Footnotes(fs), m);
    }
}

/// A slide parsed from one event stream has one column, and every run of
/// inline spans in it (paragraphs, headings, table cells, terms, at any
/// depth) is well formed: each text span has text and no tab. Where the
/// stream's images hold only inline content (see [`simple_images`]), no
/// two neighboring text spans share style and link either: they were
/// merged into one.
pub proof fn law_parsed_spans_are_tidy(events: Seq<MdEvent>)
    ensures
        spec_slide(seq![events]).columns.len() == 1,
        blocks_ok(spec_slide(seq![events]).columns[0], false),
        simple_images(events) ==> blocks_ok(spec_slide(seq![events]).columns[0], true),
{
    super::builder_spec::law_single_stream_is_one_column(events);
    lemma_column(events, false);
    if simple_images(events) {
        lemma_column(events, true);
    }
}

} // verus!
