//! The markdown event stream of one slide column, as pulldown-cmark
//! produces it, in the library's own terms.
//!
//! pulldown-cmark does the CommonMark/GFM parsing; the slide builder
//! turns its events into the slide AST. Only the parts of each event that
//! the builder reads are kept.
use vstd::prelude::*;

use super::slide::{AlertKind, TableAlign};
use pulldown_cmark::{
    Alignment, BlockQuoteKind, CodeBlockKind, Event, HeadingLevel, Options, Parser, Tag, TagEnd,
};

verus! {

/// pulldown-cmark's `Event`, carried opaquely into the converters.
#[verifier::external_type_specification]
#[verifier::external_body]
pub struct ExEvent<'a>(Event<'a>);

/// pulldown-cmark's `Tag`, carried opaquely into the converters.
#[verifier::external_type_specification]
#[verifier::external_body]
pub struct ExTag<'a>(Tag<'a>);

/// pulldown-cmark's `TagEnd`, carried opaquely into the converters.
#[verifier::external_type_specification]
#[verifier::external_body]
pub struct ExTagEnd(TagEnd);

/// pulldown-cmark's `HeadingLevel`, carried opaquely into its converter.
#[verifier::external_type_specification]
#[verifier::external_body]
pub struct ExHeadingLevel(HeadingLevel);

/// pulldown-cmark's `BlockQuoteKind`, carried opaquely into its converter.
#[verifier::external_type_specification]
#[verifier::external_body]
pub struct ExBlockQuoteKind(BlockQuoteKind);

/// pulldown-cmark's `Alignment`, carried opaquely into its converter.
#[verifier::external_type_specification]
#[verifier::external_body]
pub struct ExAlignment(Alignment);

/// The start of a tagged element.
#[derive(Debug, Clone, PartialEq, Eq)]
pub enum MdTag {
    Paragraph,
    Heading,
    /// `Some` for a GFM alert.
    BlockQuote(Option<AlertKind>),
    /// `Some(info string)` for a fenced block, `None` for an indented one.
    CodeBlock(Option<String>),
    HtmlBlock,
    /// The first item number of an ordered list; `None` when unordered.
    List(Option<u64>),
    Item,
    FootnoteDefinition(String),
    DefinitionList,
    DefinitionListTitle,
    DefinitionListDefinition,
    Table(Vec<TableAlign>),
    TableHead,
    TableRow,
    TableCell,
    Emphasis,
    Strong,
    Strikethrough,
    /// A link with its destination.
    Link(String),
    /// An image with its source.
    Image(String),
    /// Tags keynot does not draw (superscript, metadata blocks, ...).
    Other,
}

/// The end of a tagged element.
#[derive(Debug, Clone, Copy, PartialEq, Eq)]
pub enum MdTagEnd {
    Paragraph,
    /// A heading, with its level (1 to 6).
    Heading(u8),
    BlockQuote,
    CodeBlock,
    HtmlBlock,
    List,
    Item,
    FootnoteDefinition,
    DefinitionList,
    DefinitionListTitle,
    DefinitionListDefinition,
    Table,
    TableHead,
    TableRow,
    TableCell,
    Emphasis,
    Strong,
    Strikethrough,
    Link,
    Image,
    Other,
}

/// One markdown parser event.
#[derive(Debug, Clone, PartialEq, Eq)]
pub enum MdEvent {
    Start(MdTag),
    End(MdTagEnd),
    Text(String),
    Code(String),
    Html(String),
    InlineHtml(String),
    FootnoteReference(String),
    SoftBreak,
    HardBreak,
    Rule,
    TaskListMarker(bool),
    /// Events keynot does not draw (math).
    Other,
}

/// The events pulldown-cmark yields for `source` with keynot's options
/// (strikethrough, task lists, tables, heading attributes, GFM, definition
/// lists, footnotes). A function of the source alone: the parser is
/// deterministic.
pub uninterp spec fn cmark_events(source: Seq<char>) -> Seq<MdEvent>;

/// Parse `source` with pulldown-cmark (`Parser::new_ext`) and collect its
/// events. The contract claims only that the result is the parser's
/// deterministic event stream for this source, named `cmark_events`.
#[verifier::external_body]
pub(crate) fn markdown_events(source: &str) -> (events: Vec<MdEvent>)
    ensures
        events@ == cmark_events(source@),
{
    let options = Options::ENABLE_STRIKETHROUGH | Options::ENABLE_TASKLISTS | Options::ENABLE_TABLES
        | Options::ENABLE_HEADING_ATTRIBUTES | Options::ENABLE_GFM
        | Options::ENABLE_DEFINITION_LIST | Options::ENABLE_FOOTNOTES;
    Parser::new_ext(source, options).map(event_from_cmark).collect()
}

/// Converts one pulldown-cmark `Event` variant by variant.
#[verifier::external_body]
fn event_from_cmark(event: Event) -> MdEvent {
    match event {
        Event::Start(tag) => MdEvent::Start(tag_from_cmark(tag)),
        Event::End(tag) => MdEvent::End(tag_end_from_cmark(tag)),
        Event::Text(text) => MdEvent::Text(text.to_string()),
        Event::Code(text) => MdEvent::Code(text.to_string()),
        Event::Html(html) => MdEvent::Html(html.to_string()),
        Event::InlineHtml(html) => MdEvent::InlineHtml(html.to_string()),
        Event::FootnoteReference(name) => MdEvent::FootnoteReference(name.to_string()),
        Event::SoftBreak => MdEvent::SoftBreak,
        Event::HardBreak => MdEvent::HardBreak,
        Event::Rule => MdEvent::Rule,
        Event::TaskListMarker(checked) => MdEvent::TaskListMarker(checked),
        Event::InlineMath(_) | Event::DisplayMath(_) => MdEvent::Other,
    }
}

/// Converts the block-level pulldown-cmark `Tag` variants; the rest go to
/// `inline_tag_from_cmark`.
#[verifier::external_body]
fn tag_from_cmark(tag: Tag) -> MdTag {
    match tag {
        Tag::Paragraph => MdTag::Paragraph,
        Tag::Heading { .. } => MdTag::Heading,
        Tag::BlockQuote(kind) => MdTag::BlockQuote(kind.map(alert_from_cmark)),
        Tag::CodeBlock(CodeBlockKind::Fenced(info)) => MdTag::CodeBlock(Some(info.to_string())),
        Tag::CodeBlock(CodeBlockKind::Indented) => MdTag::CodeBlock(None),
        Tag::HtmlBlock => MdTag::HtmlBlock,
        Tag::List(start) => MdTag::List(start),
        Tag::Item => MdTag::Item,
        Tag::FootnoteDefinition(name) => MdTag::FootnoteDefinition(name.to_string()),
        Tag::Table(aligns) => MdTag::Table(aligns.into_iter().map(align_from_cmark).collect()),
        other => inline_tag_from_cmark(other),
    }
}

/// Converts the remaining pulldown-cmark `Tag` variants.
#[verifier::external_body]
fn inline_tag_from_cmark(tag: Tag) -> MdTag {
    match tag {
        Tag::DefinitionList => MdTag::DefinitionList,
        Tag::DefinitionListTitle => MdTag::DefinitionListTitle,
        Tag::DefinitionListDefinition => MdTag::DefinitionListDefinition,
        Tag::TableHead => MdTag::TableHead,
        Tag::TableRow => MdTag::TableRow,
        Tag::TableCell => MdTag::TableCell,
        Tag::Emphasis => MdTag::Emphasis,
        Tag::Strong => MdTag::Strong,
        Tag::Strikethrough => MdTag::Strikethrough,
        Tag::Link { dest_url, .. } => MdTag::Link(dest_url.to_string()),
        Tag::Image { dest_url, .. } => MdTag::Image(dest_url.to_string()),
        _ => MdTag::Other,
    }
}

/// Converts the block-level pulldown-cmark `TagEnd` variants; the rest go
/// to `inline_tag_end_from_cmark`.
#[verifier::external_body]
fn tag_end_from_cmark(tag: TagEnd) -> MdTagEnd {
    match tag {
        TagEnd::Paragraph => MdTagEnd::Paragraph,
        TagEnd::Heading(level) => MdTagEnd::Heading(heading_level(level)),
        TagEnd::BlockQuote(_) => MdTagEnd::BlockQuote,
        TagEnd::CodeBlock => MdTagEnd::CodeBlock,
        TagEnd::HtmlBlock => MdTagEnd::HtmlBlock,
        TagEnd::List(_) => MdTagEnd::List,
        TagEnd::Item => MdTagEnd::Item,
        TagEnd::FootnoteDefinition => MdTagEnd::FootnoteDefinition,
        TagEnd::DefinitionList => MdTagEnd::DefinitionList,
        TagEnd::DefinitionListTitle => MdTagEnd::DefinitionListTitle,
        TagEnd::DefinitionListDefinition => MdTagEnd::DefinitionListDefinition,
        other => inline_tag_end_from_cmark(other),
    }
}

/// Converts the remaining pulldown-cmark `TagEnd` variants.
#[verifier::external_body]
fn inline_tag_end_from_cmark(tag: TagEnd) -> MdTagEnd {
    match tag {
        TagEnd::Table => MdTagEnd::Table,
        TagEnd::TableHead => MdTagEnd::TableHead,
        TagEnd::TableRow => MdTagEnd::TableRow,
        TagEnd::TableCell => MdTagEnd::TableCell,
        TagEnd::Emphasis => MdTagEnd::Emphasis,
        TagEnd::Strong => MdTagEnd::Strong,
        TagEnd::Strikethrough => MdTagEnd::Strikethrough,
        TagEnd::Link => MdTagEnd::Link,
        TagEnd::Image => MdTagEnd::Image,
        _ => MdTagEnd::Other,
    }
}

/// A pulldown-cmark `HeadingLevel` as its number, 1 to 6.
#[verifier::external_body]
fn heading_level(level: HeadingLevel) -> u8 {
    match level {
        HeadingLevel::H1 => 1,
        HeadingLevel::H2 => 2,
        HeadingLevel::H3 => 3,
        HeadingLevel::H4 => 4,
        HeadingLevel::H5 => 5,
        HeadingLevel::H6 => 6,
    }
}

/// A pulldown-cmark `BlockQuoteKind` as the matching alert kind.
#[verifier::external_body]
fn alert_from_cmark(kind: BlockQuoteKind) -> AlertKind {
    match kind {
        BlockQuoteKind::Note => AlertKind::Note,
        BlockQuoteKind::Tip => AlertKind::Tip,
        BlockQuoteKind::Important => AlertKind::Important,
        BlockQuoteKind::Warning => AlertKind::Warning,
        BlockQuoteKind::Caution => AlertKind::Caution,
    }
}

/// A pulldown-cmark table `Alignment`: centered and right stay, left and
/// unspecified are left.
#[verifier::external_body]
fn align_from_cmark(align: Alignment) -> TableAlign {
    match align {
        Alignment::Center => TableAlign::Center,
        Alignment::Right => TableAlign::Right,
        Alignment::Left => TableAlign::Left,
        Alignment::None => TableAlign::Left,
    }
}

} // verus!
