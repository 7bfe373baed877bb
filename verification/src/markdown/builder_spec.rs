//! What one column's markdown event stream builds: the slide builder as a
//! state machine over [`MdEvent`]s, stated over the AST model.
//!
//! Open containers (quotes, lists and items, tables, definition lists,
//! footnote definitions) stack up while their events arrive; text
//! collects as inline spans until a block ends. HTML comments become
//! notes. Footnotes are numbered in the order their names are first seen
//! and gathered, sorted by number, at the end of the column.
use vstd::prelude::*;

use super::events::{MdEvent, MdTag, MdTagEnd};
use super::slide::{
    plain_style, AlertKind, InlineStyle, SpecBlock, SpecDefItem, SpecFootnote, SpecItem,
    SpecList, SpecSlide, SpecSpan, SpecTable, concat_texts,
};
use crate::text::{all_ws, is_ws, trim, ws_end};

verus! {

/// An open container while a column's events are walked.
pub enum SpecContainer {
    Quote(Option<AlertKind>, Seq<SpecBlock>),
    DefinitionList(Seq<SpecDefItem>),
    Definition(Seq<SpecBlock>),
    Footnote(int, Seq<SpecBlock>),
    /// A table, and whether its cells still belong to the header.
    Table(SpecTable, bool),
    List(SpecList),
    Item(Seq<SpecBlock>, Option<bool>),
}

/// The builder's state.
pub struct SpecBuilder {
    /// Finished top-level blocks.
    pub blocks: Seq<SpecBlock>,
    /// Open containers, innermost last.
    pub containers: Seq<SpecContainer>,
    /// Pending inline spans.
    pub inline: Seq<SpecSpan>,
    /// The current inline style.
    pub style: InlineStyle,
    /// Destinations of the open links, innermost last.
    pub links: Seq<Seq<char>>,
    /// Speaker notes found so far.
    pub notes: Seq<Seq<char>>,
    /// Inside a code block: its language and the code so far.
    pub code: Option<(Option<Seq<char>>, Seq<char>)>,
    /// Inside an HTML block: the raw HTML so far.
    pub html: Option<Seq<char>>,
    /// Inside an image: where its alt text starts among the pending
    /// spans, and its source.
    pub image: Option<(int, Seq<char>)>,
    /// Footnote names in the order first seen; a name's number is its
    /// position plus one.
    pub footnote_names: Seq<Seq<char>>,
    /// Finished footnote definitions.
    pub footnotes: Seq<SpecFootnote>,
}

/// The builder before any event.
pub open spec fn empty_builder() -> SpecBuilder {
    SpecBuilder {
        blocks: Seq::empty(),
        containers: Seq::empty(),
        inline: Seq::empty(),
        style: plain_style(),
        links: Seq::empty(),
        notes: Seq::empty(),
        code: None,
        html: None,
        image: None,
        footnote_names: Seq::empty(),
        footnotes: Seq::empty(),
    }
}

/// Tabs expanded to four spaces each: terminal cells have no tab stops.
pub open spec fn expand_tabs(t: Seq<char>) -> Seq<char>
    decreases t.len(),
{
    if t.len() == 0 {
        Seq::empty()
    } else if t.last() == '\t' {
        expand_tabs(t.drop_last()) + seq![' ', ' ', ' ', ' ']
    } else {
        expand_tabs(t.drop_last()).push(t.last())
    }
}

/// The destination of the innermost open link.
pub open spec fn last_link(links: Seq<Seq<char>>) -> Option<Seq<char>> {
    if links.len() > 0 {
        Some(links.last())
    } else {
        None
    }
}

/// Add text in `style`: tabs expand, and the text merges into the last
/// pending span when that has the same style and link and no image (never
/// while an image's alt text is being collected). Empty text adds nothing.
pub open spec fn spec_push_span(b: SpecBuilder, text: Seq<char>, style: InlineStyle) -> SpecBuilder {
    if text.len() == 0 {
        b
    } else {
        let t = expand_tabs(text);
        let link = last_link(b.links);
        if b.image is None && b.inline.len() > 0 && b.inline.last().style == style
            && b.inline.last().link == link && b.inline.last().image is None {
            let last = b.inline.last();
            SpecBuilder {
                inline: b.inline.drop_last().push(SpecSpan { text: last.text + t, ..last }),
                ..b
            }
        } else {
            SpecBuilder {
                inline: b.inline.push(SpecSpan { text: t, style, link, image: None }),
                ..b
            }
        }
    }
}

/// Add a finished block: into the innermost container that holds blocks
/// (quote, item, definition, footnote), else to the top level.
pub open spec fn spec_push_block(b: SpecBuilder, blk: SpecBlock) -> SpecBuilder {
    let top_level = SpecBuilder { blocks: b.blocks.push(blk), ..b };
    if b.containers.len() == 0 {
        top_level
    } else {
        let rest = b.containers.drop_last();
        match b.containers.last() {
            SpecContainer::Quote(k, bl) => SpecBuilder {
                containers: rest.push(SpecContainer::Quote(k, bl.push(blk))),
                ..b
            },
            SpecContainer::Item(bl, t) => SpecBuilder {
                containers: rest.push(SpecContainer::Item(bl.push(blk), t)),
                ..b
            },
            SpecContainer::Definition(bl) => SpecBuilder {
                containers: rest.push(SpecContainer::Definition(bl.push(blk))),
                ..b
            },
            SpecContainer::Footnote(n, bl) => SpecBuilder {
                containers: rest.push(SpecContainer::Footnote(n, bl.push(blk))),
                ..b
            },
            _ => top_level,
        }
    }
}

/// Pending spans become an implicit paragraph (tight list items have no
/// paragraph events).
pub open spec fn spec_flush_inline(b: SpecBuilder) -> SpecBuilder {
    if b.inline.len() == 0 {
        b
    } else {
        spec_push_block(SpecBuilder { inline: Seq::empty(), ..b }, SpecBlock::Paragraph(b.inline))
    }
}

/// The innermost open container.
pub open spec fn top(b: SpecBuilder) -> Option<SpecContainer> {
    if b.containers.len() > 0 {
        Some(b.containers.last())
    } else {
        None
    }
}

/// The builder with the innermost container closed (popped).
pub open spec fn popped(b: SpecBuilder) -> SpecBuilder {
    if b.containers.len() > 0 {
        SpecBuilder { containers: b.containers.drop_last(), ..b }
    } else {
        b
    }
}

/// The builder with its innermost container replaced by `c`.
pub open spec fn with_top(b: SpecBuilder, c: SpecContainer) -> SpecBuilder {
    SpecBuilder { containers: b.containers.drop_last().push(c), ..b }
}

/// The first index at or after `i` where `name` is among `names`; -1
/// when it is not.
pub open spec fn index_of_name(names: Seq<Seq<char>>, name: Seq<char>, i: int) -> int
    decreases names.len() - i,
{
    if i < 0 || i >= names.len() {
        -1
    } else if names[i] == name {
        i
    } else {
        index_of_name(names, name, i + 1)
    }
}

/// The stable number of footnote `name` (its first sighting's rank), and
/// the builder that has seen it.
pub open spec fn spec_footnote_number(b: SpecBuilder, name: Seq<char>) -> (SpecBuilder, int) {
    let i = index_of_name(b.footnote_names, name, 0);
    if i >= 0 {
        (b, i + 1)
    } else {
        (
            SpecBuilder { footnote_names: b.footnote_names.push(name), ..b },
            b.footnote_names.len() + 1int,
        )
    }
}

/// Where `index_of_name` finds a name, it is there; where it finds none,
/// the name is nowhere from `i` on.
proof fn lemma_index_of_name(names: Seq<Seq<char>>, name: Seq<char>, i: int)
    requires
        0 <= i,
    ensures
        index_of_name(names, name, i) >= 0 ==> i <= index_of_name(names, name, i) < names.len() && names[index_of_name(
            names,
            name,
            i,
        )] == name,
        index_of_name(names, name, i) < 0 ==> forall|j: int| i <= j < names.len() ==> names[j] != name,
        index_of_name(names, name, i) >= 0 || index_of_name(names, name, i) == -1,
    decreases names.len() - i,
{
    if i < names.len() && names[i] != name {
        lemma_index_of_name(names, name, i + 1);
    }
}

/// Footnote numbers are stable: the builder's footnote names stay
/// distinct, each name's number is its place among them, and a name is
/// added only on its first sighting.
pub proof fn law_footnote_numbers_are_stable(b: SpecBuilder, name: Seq<char>)
    requires
        forall|i: int, j: int| 0 <= i < j < b.footnote_names.len() ==> b.footnote_names[i] != b.footnote_names[j],
    ensures
        ({
            let (b2, r) = spec_footnote_number(b, name);
            &&& forall|i: int, j: int|
                0 <= i < j < b2.footnote_names.len() ==> b2.footnote_names[i] != b2.footnote_names[j]
            &&& 1 <= r <= b2.footnote_names.len()
            &&& b2.footnote_names[r - 1] == name
            &&& (b.footnote_names.contains(name) ==> b2 == b)
            &&& (!b.footnote_names.contains(name) ==> b2.footnote_names == b.footnote_names.push(name))
        }),
{
    lemma_index_of_name(b.footnote_names, name, 0);
    let i = index_of_name(b.footnote_names, name, 0);
    if i >= 0 {
        assert(b.footnote_names.contains(name));
    } else {
        assert(!b.footnote_names.contains(name));
    }
}

/// The decimal digit `d`.
pub open spec fn digit_char(d: int) -> char {
    if d == 0 {
        '0'
    } else if d == 1 {
        '1'
    } else if d == 2 {
        '2'
    } else if d == 3 {
        '3'
    } else if d == 4 {
        '4'
    } else if d == 5 {
        '5'
    } else if d == 6 {
        '6'
    } else if d == 7 {
        '7'
    } else if d == 8 {
        '8'
    } else {
        '9'
    }
}

/// `n` written in decimal.
pub open spec fn decimal(n: nat) -> Seq<char>
    decreases n,
{
    if n < 10 {
        seq![digit_char(n as int)]
    } else {
        decimal(n / 10).push(digit_char((n % 10) as int))
    }
}

/// A footnote reference marker, `[n]`.
pub open spec fn footnote_marker(n: int) -> Seq<char> {
    seq!['['] + decimal(n as nat) + seq![']']
}

/// The first index at or after `i` where `p` occurs in `h`; -1 when it
/// does not.
pub open spec fn find_from(h: Seq<char>, p: Seq<char>, i: int) -> int
    decreases h.len() - i,
{
    if i < 0 || i >= h.len() || i + p.len() > h.len() {
        -1
    } else if h.subrange(i, i + p.len()) == p {
        i
    } else {
        find_from(h, p, i + 1)
    }
}

/// `<!--`.
pub open spec fn comment_open() -> Seq<char> {
    seq!['<', '!', '-', '-']
}

/// `-->`.
pub open spec fn comment_close() -> Seq<char> {
    seq!['-', '-', '>']
}

pub proof fn lemma_find_from_bounds(h: Seq<char>, p: Seq<char>, i: int)
    ensures
        find_from(h, p, i) == -1 || (i <= find_from(h, p, i) && find_from(h, p, i) + p.len()
            <= h.len()),
    decreases h.len() - i,
{
    if !(i < 0 || i >= h.len() || i + p.len() > h.len()) && h.subrange(i, i + p.len()) != p {
        lemma_find_from_bounds(h, p, i + 1);
    }
}

/// The trimmed inner text of every HTML comment in `h` from index `i` on,
/// in order; empty comments are dropped, and an unclosed comment ends the
/// search.
pub open spec fn comments_from(h: Seq<char>, i: int) -> Seq<Seq<char>>
    decreases h.len() - i,
{
    let s = find_from(h, comment_open(), i);
    if i < 0 || s < 0 {
        Seq::empty()
    } else {
        let e = find_from(h, comment_close(), s + 4);
        if e < 0 {
            Seq::empty()
        } else {
            proof {
                lemma_find_from_bounds(h, comment_open(), i);
                lemma_find_from_bounds(h, comment_close(), s + 4);
            }
            let note = trim(h.subrange(s + 4, e));
            let rest = comments_from(h, e + 3);
            if note.len() == 0 {
                rest
            } else {
                seq![note] + rest
            }
        }
    }
}

/// The notes in a run of HTML.
pub open spec fn comment_texts(h: Seq<char>) -> Seq<Seq<char>> {
    comments_from(h, 0)
}

/// `c` is `p` ignoring ASCII case, for a lowercase pattern character `p`.
pub open spec fn char_eq_lower(c: char, p: char) -> bool {
    c == p || ('a' <= p && p <= 'z' && (c as u32) + 32 == (p as u32))
}

/// `s` is `p` ignoring ASCII case (`p` lowercase).
pub open spec fn eq_lower(s: Seq<char>, p: Seq<char>) -> bool {
    s.len() == p.len() && forall|i: int| 0 <= i < s.len() ==> char_eq_lower(s[i], p[i])
}

/// `<u>`.
pub open spec fn u_open() -> Seq<char> {
    seq!['<', 'u', '>']
}

/// `</u>`.
pub open spec fn u_close() -> Seq<char> {
    seq!['<', '/', 'u', '>']
}

/// A line-break tag: `<br>`, `<br/>` or `<br />`.
pub open spec fn is_br(s: Seq<char>) -> bool {
    ||| eq_lower(s, seq!['<', 'b', 'r', '>'])
    ||| eq_lower(s, seq!['<', 'b', 'r', '/', '>'])
    ||| eq_lower(s, seq!['<', 'b', 'r', ' ', '/', '>'])
}

/// Inline HTML: `<u>`/`</u>` toggle underline and `<br>` breaks the line
/// (tags trimmed, any ASCII case); anything else only contributes its
/// comments as notes.
pub open spec fn spec_inline_html(b: SpecBuilder, h: Seq<char>) -> SpecBuilder {
    let t = trim(h);
    if eq_lower(t, u_open()) {
        SpecBuilder { style: InlineStyle { underline: true, ..b.style }, ..b }
    } else if eq_lower(t, u_close()) {
        SpecBuilder { style: InlineStyle { underline: false, ..b.style }, ..b }
    } else if is_br(t) {
        spec_push_span(b, seq!['\n'], b.style)
    } else {
        SpecBuilder { notes: b.notes + comment_texts(h), ..b }
    }
}

/// The first index at or after `i` that is whitespace, or the end.
pub open spec fn word_end(s: Seq<char>, i: int) -> int
    decreases s.len() - i,
{
    if 0 <= i < s.len() && !is_ws(s[i]) {
        word_end(s, i + 1)
    } else {
        i
    }
}

/// The first whitespace-separated word of `s`, if any.
pub open spec fn first_word(s: Seq<char>) -> Option<Seq<char>> {
    let a = ws_end(s, 0);
    if a >= s.len() {
        None
    } else {
        Some(s.subrange(a, word_end(s, a)))
    }
}

/// A code block's language: the first word of a fenced block's info
/// string; none for indented blocks.
pub open spec fn code_language(info: Option<String>) -> Option<Seq<char>> {
    match info {
        Some(s) => first_word(s@),
        None => None,
    }
}

/// The builder after the start of a tag.
pub open spec fn spec_start(b: SpecBuilder, tag: MdTag) -> SpecBuilder {
    let f = spec_flush_inline(b);
    match tag {
        MdTag::Paragraph | MdTag::Heading => f,
        MdTag::BlockQuote(kind) => SpecBuilder {
            containers: f.containers.push(SpecContainer::Quote(kind, Seq::empty())),
            ..f
        },
        MdTag::List(start) => SpecBuilder {
            containers: f.containers.push(
                SpecContainer::List(
                    SpecList {
                        ordered: start is Some,
                        start: match start {
                            Some(n) => n,
                            None => 1,
                        },
                        items: Seq::empty(),
                    },
                ),
            ),
            ..f
        },
        MdTag::Item => SpecBuilder {
            containers: b.containers.push(SpecContainer::Item(Seq::empty(), None)),
            ..b
        },
        MdTag::Table(aligns) => SpecBuilder {
            containers: f.containers.push(
                SpecContainer::Table(
                    SpecTable { alignments: aligns@, header: Seq::empty(), rows: Seq::empty() },
                    true,
                ),
            ),
            ..f
        },
        MdTag::TableRow => match top(b) {
            Some(SpecContainer::Table(t, false)) => with_top(
                b,
                SpecContainer::Table(SpecTable { rows: t.rows.push(Seq::empty()), ..t }, false),
            ),
            _ => b,
        },
        MdTag::TableHead | MdTag::TableCell => b,
        MdTag::CodeBlock(info) => SpecBuilder {
            code: Some((code_language(info), Seq::empty())),
            ..f
        },
        MdTag::DefinitionList => SpecBuilder {
            containers: f.containers.push(SpecContainer::DefinitionList(Seq::empty())),
            ..f
        },
        MdTag::DefinitionListTitle => f,
        MdTag::DefinitionListDefinition => SpecBuilder {
            containers: b.containers.push(SpecContainer::Definition(Seq::empty())),
            ..b
        },
        MdTag::FootnoteDefinition(name) => {
            let (g, n) = spec_footnote_number(f, name@);
            SpecBuilder {
                containers: g.containers.push(SpecContainer::Footnote(n, Seq::empty())),
                ..g
            }
        },
        MdTag::HtmlBlock => SpecBuilder { html: Some(Seq::empty()), ..b },
        MdTag::Emphasis => SpecBuilder { style: InlineStyle { italic: true, ..b.style }, ..b },
        MdTag::Strong => SpecBuilder { style: InlineStyle { bold: true, ..b.style }, ..b },
        MdTag::Strikethrough => SpecBuilder {
            style: InlineStyle { strikethrough: true, ..b.style },
            ..b
        },
        MdTag::Link(url) => SpecBuilder { links: b.links.push(url@), ..b },
        MdTag::Image(url) => SpecBuilder { image: Some((b.inline.len() as int, url@)), ..b },
        MdTag::Other => b,
    }
}

/// The end of a paragraph: an image alone in it becomes an image block;
/// other content a paragraph.
pub open spec fn spec_end_paragraph(b: SpecBuilder) -> SpecBuilder {
    let spans = b.inline;
    let c = SpecBuilder { inline: Seq::empty(), ..b };
    if spans.len() == 1 && spans[0].image is Some {
        spec_push_block(c, SpecBlock::Image { source: spans[0].image->0, alt: spans[0].text })
    } else if spans.len() > 0 {
        spec_push_block(c, SpecBlock::Paragraph(spans))
    } else {
        c
    }
}

/// The end of a list item: the item joins the list it is in.
pub open spec fn spec_end_item(b: SpecBuilder) -> SpecBuilder {
    let f = spec_flush_inline(b);
    let p = popped(f);
    match top(f) {
        Some(SpecContainer::Item(bl, task)) => match top(p) {
            Some(SpecContainer::List(l)) => with_top(
                p,
                SpecContainer::List(
                    SpecList { items: l.items.push(SpecItem { blocks: bl, task }), ..l },
                ),
            ),
            _ => p,
        },
        _ => p,
    }
}

/// The end of a definition: it joins the last term of its list.
pub open spec fn spec_end_definition(b: SpecBuilder) -> SpecBuilder {
    let f = spec_flush_inline(b);
    let p = popped(f);
    match top(f) {
        Some(SpecContainer::Definition(bl)) => match top(p) {
            Some(SpecContainer::DefinitionList(items)) => if items.len() > 0 {
                with_top(
                    p,
                    SpecContainer::DefinitionList(
                        items.drop_last().push(
                            SpecDefItem {
                                definitions: items.last().definitions.push(bl),
                                ..items.last()
                            },
                        ),
                    ),
                )
            } else {
                p
            },
            _ => p,
        },
        _ => p,
    }
}

/// The end of a table cell: the cell joins the header or the last row.
pub open spec fn spec_end_cell(b: SpecBuilder) -> SpecBuilder {
    let cell = b.inline;
    let c = SpecBuilder { inline: Seq::empty(), ..b };
    match top(c) {
        Some(SpecContainer::Table(t, in_head)) => if in_head {
            with_top(c, SpecContainer::Table(SpecTable { header: t.header.push(cell), ..t }, true))
        } else if t.rows.len() > 0 {
            with_top(
                c,
                SpecContainer::Table(
                    SpecTable { rows: t.rows.drop_last().push(t.rows.last().push(cell)), ..t },
                    false,
                ),
            )
        } else {
            c
        },
        _ => c,
    }
}

/// The end of an image: the spans collected since it started become its
/// alt text (the source when that is blank), in one span of its own.
pub open spec fn spec_end_image(b: SpecBuilder) -> SpecBuilder {
    match b.image {
        Some((start, url)) => {
            let s = if start <= b.inline.len() {
                start
            } else {
                b.inline.len() as int
            };
            let alt = concat_texts(b.inline.subrange(s, b.inline.len() as int));
            let label = if all_ws(alt) {
                url
            } else {
                alt
            };
            SpecBuilder {
                image: None,
                inline: b.inline.take(s).push(
                    SpecSpan { text: label, style: b.style, link: last_link(b.links), image: Some(url) },
                ),
                ..b
            }
        },
        None => b,
    }
}

/// The builder after the end of a tag.
pub open spec fn spec_end(b: SpecBuilder, tag: MdTagEnd) -> SpecBuilder {
    let f = spec_flush_inline(b);
    match tag {
        MdTagEnd::Paragraph => spec_end_paragraph(b),
        MdTagEnd::Heading(level) => spec_push_block(
            SpecBuilder { inline: Seq::empty(), ..b },
            SpecBlock::Heading { level, content: b.inline },
        ),
        MdTagEnd::BlockQuote => match top(f) {
            Some(SpecContainer::Quote(kind, bl)) => spec_push_block(
                popped(f),
                SpecBlock::BlockQuote { kind, blocks: bl },
            ),
            _ => popped(f),
        },
        MdTagEnd::List => match top(b) {
            Some(SpecContainer::List(l)) => spec_push_block(popped(b), SpecBlock::List(l)),
            _ => popped(b),
        },
        MdTagEnd::Item => spec_end_item(b),
        MdTagEnd::DefinitionList => match top(b) {
            Some(SpecContainer::DefinitionList(items)) => spec_push_block(
                popped(b),
                SpecBlock::DefinitionList(items),
            ),
            _ => popped(b),
        },
        MdTagEnd::DefinitionListTitle => {
            let c = SpecBuilder { inline: Seq::empty(), ..b };
            match top(c) {
                Some(SpecContainer::DefinitionList(items)) => with_top(
                    c,
                    SpecContainer::DefinitionList(
                        items.push(SpecDefItem { term: b.inline, definitions: Seq::empty() }),
                    ),
                ),
                _ => c,
            }
        },
        MdTagEnd::DefinitionListDefinition => spec_end_definition(b),
        MdTagEnd::FootnoteDefinition => match top(f) {
            Some(SpecContainer::Footnote(n, bl)) => SpecBuilder {
                footnotes: f.footnotes.push(SpecFootnote { number: n, blocks: bl }),
                ..popped(f)
            },
            _ => popped(f),
        },
        MdTagEnd::Table => match top(b) {
            Some(SpecContainer::Table(t, _)) => spec_push_block(popped(b), SpecBlock::Table(t)),
            _ => popped(b),
        },
        MdTagEnd::TableHead => match top(b) {
            Some(SpecContainer::Table(t, _)) => with_top(b, SpecContainer::Table(t, false)),
            _ => b,
        },
        MdTagEnd::TableRow => b,
        MdTagEnd::TableCell => spec_end_cell(b),
        MdTagEnd::CodeBlock => match b.code {
            Some((language, code)) => spec_push_block(
                SpecBuilder { code: None, ..b },
                SpecBlock::CodeBlock { language, code },
            ),
            None => b,
        },
        MdTagEnd::HtmlBlock => match b.html {
            Some(h) => SpecBuilder { html: None, notes: b.notes + comment_texts(h), ..b },
            None => b,
        },
        MdTagEnd::Emphasis => SpecBuilder { style: InlineStyle { italic: false, ..b.style }, ..b },
        MdTagEnd::Strong => SpecBuilder { style: InlineStyle { bold: false, ..b.style }, ..b },
        MdTagEnd::Strikethrough => SpecBuilder {
            style: InlineStyle { strikethrough: false, ..b.style },
            ..b
        },
        MdTagEnd::Link => SpecBuilder {
            links: if b.links.len() > 0 {
                b.links.drop_last()
            } else {
                b.links
            },
            ..b
        },
        MdTagEnd::Image => spec_end_image(b),
        MdTagEnd::Other => b,
    }
}

/// The builder after one event.
pub open spec fn spec_event(b: SpecBuilder, e: MdEvent) -> SpecBuilder {
    match e {
        MdEvent::Start(tag) => spec_start(b, tag),
        MdEvent::End(tag) => spec_end(b, tag),
        MdEvent::Text(t) => match b.code {
            Some((l, buf)) => SpecBuilder { code: Some((l, buf + t@)), ..b },
            None => match b.html {
                Some(h) => SpecBuilder { html: Some(h + t@), ..b },
                None => spec_push_span(b, t@, b.style),
            },
        },
        MdEvent::Code(t) => spec_push_span(b, t@, InlineStyle { code: true, ..b.style }),
        MdEvent::SoftBreak => spec_push_span(b, seq![' '], b.style),
        MdEvent::HardBreak => spec_push_span(b, seq!['\n'], b.style),
        MdEvent::Rule => spec_push_block(spec_flush_inline(b), SpecBlock::Rule),
        MdEvent::TaskListMarker(checked) => match top(b) {
            Some(SpecContainer::Item(bl, _)) => with_top(b, SpecContainer::Item(bl, Some(checked))),
            _ => b,
        },
        MdEvent::FootnoteReference(name) => {
            let (g, n) = spec_footnote_number(b, name@);
            spec_push_span(g, footnote_marker(n), InlineStyle { footnote_ref: true, ..b.style })
        },
        MdEvent::InlineHtml(h) => spec_inline_html(b, h@),
        MdEvent::Html(h) => match b.html {
            Some(buf) => SpecBuilder { html: Some(buf + h@), ..b },
            None => SpecBuilder { notes: b.notes + comment_texts(h@), ..b },
        },
        MdEvent::Other => b,
    }
}

/// The builder after events `k..`.
pub open spec fn build_from(events: Seq<MdEvent>, k: int, b: SpecBuilder) -> SpecBuilder
    decreases events.len() - k,
{
    if k < 0 || k >= events.len() {
        b
    } else {
        build_from(events, k + 1, spec_event(b, events[k]))
    }
}

/// Where footnote number `n` goes in `s` (sorted by number): after the
/// last of `s[..j]` numbered at most `n`.
pub open spec fn insert_pos(s: Seq<SpecFootnote>, n: int, j: int) -> int
    decreases j,
{
    if j <= 0 {
        0
    } else if s[j - 1].number <= n {
        j
    } else {
        insert_pos(s, n, j - 1)
    }
}

/// Footnotes sorted by number, stably (equal numbers keep their order).
pub open spec fn sort_footnotes(s: Seq<SpecFootnote>) -> Seq<SpecFootnote>
    decreases s.len(),
{
    if s.len() == 0 {
        Seq::empty()
    } else {
        let sorted = sort_footnotes(s.drop_last());
        sorted.insert(insert_pos(sorted, s.last().number, sorted.len() as int), s.last())
    }
}

/// A finished column: pending spans flushed, then the footnote section
/// when any footnote was defined; and the notes found.
pub open spec fn spec_finish(b: SpecBuilder) -> (Seq<SpecBlock>, Seq<Seq<char>>) {
    let f = spec_flush_inline(b);
    if f.footnotes.len() > 0 {
        (f.blocks.push(SpecBlock::Footnotes(sort_footnotes(f.footnotes))), f.notes)
    } else {
        (f.blocks, f.notes)
    }
}

/// One column's blocks and notes from its events.
pub open spec fn column_of(events: Seq<MdEvent>) -> (Seq<SpecBlock>, Seq<Seq<char>>) {
    spec_finish(build_from(events, 0, empty_builder()))
}

/// The columns' blocks and notes, in order, before an empty slide gets its
/// one empty column.
pub open spec fn slide_of_columns(cols: Seq<Seq<MdEvent>>) -> SpecSlide
    decreases cols.len(),
{
    if cols.len() == 0 {
        SpecSlide { columns: Seq::empty(), notes: Seq::empty() }
    } else {
        let s = slide_of_columns(cols.drop_last());
        let c = column_of(cols.last());
        SpecSlide { columns: s.columns.push(c.0), notes: s.notes + c.1 }
    }
}

/// The slide built from each column's events: one column per event
/// stream (at least one), notes from all columns in order.
pub open spec fn spec_slide(cols: Seq<Seq<MdEvent>>) -> SpecSlide {
    let s = slide_of_columns(cols);
    if s.columns.len() == 0 {
        SpecSlide { columns: seq![Seq::empty()], notes: s.notes }
    } else {
        s
    }
}

// ---------------------------------------------------------------------
// Where the footnote section goes
/// No top-level block is a footnote section.
pub open spec fn no_footnote_section(blocks: Seq<SpecBlock>) -> bool {
    forall|i: int| 0 <= i < blocks.len() ==> !(#[trigger] blocks[i] is Footnotes)
}

proof fn lemma_push_block_keeps(b: SpecBuilder, blk: SpecBlock)
    requires
        no_footnote_section(b.blocks),
        !(blk is Footnotes),
    ensures
        no_footnote_section(spec_push_block(b, blk).blocks),
{
    let r = spec_push_block(b, blk);
    assert forall|i: int| 0 <= i < r.blocks.len() implies !(#[trigger] r.blocks[i] is Footnotes) by {
        if i < b.blocks.len() {
            assert(r.blocks[i] == b.blocks[i]);
        }
    }
}

proof fn lemma_flush_keeps(b: SpecBuilder)
    requires
        no_footnote_section(b.blocks),
    ensures
        no_footnote_section(spec_flush_inline(b).blocks),
{
    if b.inline.len() > 0 {
        lemma_push_block_keeps(SpecBuilder { inline: Seq::empty(), ..b }, SpecBlock::Paragraph(b.inline));
    }
}

proof fn lemma_event_keeps(b: SpecBuilder, e: MdEvent)
    requires
        no_footnote_section(b.blocks),
    ensures
        no_footnote_section(spec_event(b, e).blocks),
{
    lemma_flush_keeps(b);
    let f = spec_flush_inline(b);
    match e {
        MdEvent::Start(tag) => {
            assert(spec_footnote_number(f, seq![]).0.blocks == f.blocks);
        },
        MdEvent::End(tag) => {
            let c = SpecBuilder { inline: Seq::empty(), ..b };
            match tag {
                MdTagEnd::Paragraph => {
                    if b.inline.len() == 1 && b.inline[0].image is Some {
                        lemma_push_block_keeps(
                            c,
                            SpecBlock::Image { source: b.inline[0].image->0, alt: b.inline[0].text },
                        );
                    } else if b.inline.len() > 0 {
                        lemma_push_block_keeps(c, SpecBlock::Paragraph(b.inline));
                    }
                },
                MdTagEnd::Heading(level) => {
                    lemma_push_block_keeps(c, SpecBlock::Heading { level, content: b.inline });
                },
                MdTagEnd::BlockQuote => {
                    match top(f) {
                        Some(SpecContainer::Quote(kind, bl)) => {
                            lemma_push_block_keeps(popped(f), SpecBlock::BlockQuote { kind, blocks: bl });
                        },
                        _ => {},
                    }
                },
                MdTagEnd::List => {
                    match top(b) {
                        Some(SpecContainer::List(l)) => {
                            lemma_push_block_keeps(popped(b), SpecBlock::List(l));
                        },
                        _ => {},
                    }
                },
                MdTagEnd::DefinitionList => {
                    match top(b) {
                        Some(SpecContainer::DefinitionList(items)) => {
                            lemma_push_block_keeps(popped(b), SpecBlock::DefinitionList(items));
                        },
                        _ => {},
                    }
                },
                MdTagEnd::Table => {
                    match top(b) {
                        Some(SpecContainer::Table(t, _)) => {
                            lemma_push_block_keeps(popped(b), SpecBlock::Table(t));
                        },
                        _ => {},
                    }
                },
                MdTagEnd::CodeBlock => {
                    match b.code {
                        Some((language, code)) => {
                            lemma_push_block_keeps(
                                SpecBuilder { code: None, ..b },
                                SpecBlock::CodeBlock { language, code },
                            );
                        },
                        None => {},
                    }
                },
                _ => {},
            }
        },
        MdEvent::Rule => {
            lemma_push_block_keeps(f, SpecBlock::Rule);
        },
        _ => {},
    }
}

proof fn lemma_build_keeps(events: Seq<MdEvent>, k: int, b: SpecBuilder)
    requires
        no_footnote_section(b.blocks),
    ensures
        no_footnote_section(build_from(events, k, b).blocks),
    decreases events.len() - k,
{
    if 0 <= k < events.len() {
        lemma_event_keeps(b, events[k]);
        lemma_build_keeps(events, k + 1, spec_event(b, events[k]));
    }
}

/// `s` is ordered by footnote number.
pub open spec fn numbered_in_order(s: Seq<SpecFootnote>) -> bool {
    forall|i: int, j: int| 0 <= i < j < s.len() ==> #[trigger] s[i].number <= #[trigger] s[j].number
}

proof fn lemma_insert_pos(s: Seq<SpecFootnote>, n: int, j: int)
    requires
        numbered_in_order(s),
        0 <= j <= s.len(),
    ensures
        0 <= insert_pos(s, n, j) <= j,
        forall|i: int| 0 <= i < insert_pos(s, n, j) ==> #[trigger] s[i].number <= n,
        forall|i: int| insert_pos(s, n, j) <= i < j ==> #[trigger] s[i].number > n,
    decreases j,
{
    if j > 0 && s[j - 1].number > n {
        lemma_insert_pos(s, n, j - 1);
    }
}

proof fn lemma_sort_footnotes(s: Seq<SpecFootnote>)
    ensures
        numbered_in_order(sort_footnotes(s)),
        sort_footnotes(s).len() == s.len(),
    decreases s.len(),
{
    if s.len() > 0 {
        lemma_sort_footnotes(s.drop_last());
        let sorted = sort_footnotes(s.drop_last());
        let n = s.last().number;
        lemma_insert_pos(sorted, n, sorted.len() as int);
        let p = insert_pos(sorted, n, sorted.len() as int);
        let r = sorted.insert(p, s.last());
        assert forall|i: int, j: int| 0 <= i < j < r.len() implies #[trigger] r[i].number <= #[trigger] r[j].number by {
            if j < p {
            } else if j == p {
            } else if i < p {
                assert(r[j] == sorted[j - 1]);
            } else if i == p {
                assert(r[j] == sorted[j - 1]);
            } else {
                assert(r[i] == sorted[i - 1] && r[j] == sorted[j - 1]);
            }
        }
    }
}

/// The footnote section of a column comes once at most, as its last
/// block, with the footnotes ordered by number; no other block of the
/// column is one.
pub proof fn law_footnotes_come_last(events: Seq<MdEvent>)
    ensures
        ({
            let blocks = column_of(events).0;
            &&& forall|i: int| 0 <= i < blocks.len() - 1 ==> !(#[trigger] blocks[i] is Footnotes)
            &&& (blocks.len() > 0 && blocks.last() is Footnotes) ==> numbered_in_order(blocks.last()->Footnotes_0)
        }),
{
    let b = build_from(events, 0, empty_builder());
    assert(no_footnote_section(empty_builder().blocks));
    lemma_build_keeps(events, 0, empty_builder());
    lemma_flush_keeps(b);
    let f = spec_flush_inline(b);
    lemma_sort_footnotes(f.footnotes);
    let blocks = column_of(events).0;
    assert forall|i: int| 0 <= i < blocks.len() - 1 implies !(#[trigger] blocks[i] is Footnotes) by {
        assert(blocks[i] == f.blocks[i]);
    }
    if blocks.len() > 0 && blocks.last() is Footnotes && f.footnotes.len() == 0 {
        assert(blocks == f.blocks);
        assert(!(f.blocks[f.blocks.len() - 1] is Footnotes));
    }
}

/// A slide parsed from one event stream has exactly one column: the
/// blocks that stream builds, with its notes; so the footnote section
/// comes at most once in the slide, as that column's last block.
pub proof fn law_single_stream_is_one_column(events: Seq<MdEvent>)
    ensures
        spec_slide(seq![events]).columns == seq![column_of(events).0],
        spec_slide(seq![events]).notes == column_of(events).1,
{
    let cols = seq![events];
    assert(cols.drop_last() =~= Seq::<Seq<MdEvent>>::empty());
    assert(slide_of_columns(cols.drop_last()).columns =~= Seq::<Seq<SpecBlock>>::empty());
    assert(slide_of_columns(cols).columns =~= seq![column_of(events).0]);
    assert(slide_of_columns(cols).notes =~= column_of(events).1);
}

} // verus!
