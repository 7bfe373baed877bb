//! The slide AST: what one slide's markdown parses into, and its
//! mathematical model.
//!
//! The AST is intentionally minimal: just what the terminal renderer can
//! draw. HTML comments become speaker notes, `<u>`/`</u>` toggles underline
//! (markdown has no native underline), and `<br>` forces a line break.
use vstd::prelude::*;

verus! {

/// One parsed slide: one or more side-by-side columns of blocks.
#[derive(Debug, PartialEq, Eq, Default)]
pub struct Slide {
    /// The slide's columns (from `|||` separators); single-column slides
    /// have exactly one entry.
    pub columns: Vec<Vec<Block>>,
    /// Speaker notes collected from HTML comments across all columns, in
    /// document order.
    pub notes: Vec<String>,
}

/// A block-level element on a slide.
#[derive(Debug, PartialEq, Eq)]
pub enum Block {
    Heading { level: u8, content: Vec<InlineSpan> },
    Paragraph(Vec<InlineSpan>),
    List(ListBlock),
    CodeBlock { language: Option<String>, code: String },
    /// `kind` is `Some` for GFM alerts (`> [!NOTE]` and friends).
    BlockQuote { kind: Option<AlertKind>, blocks: Vec<Block> },
    /// An image that was alone in its paragraph; `source` is the URL or
    /// path exactly as written.
    Image { source: String, alt: String },
    Table(TableBlock),
    /// `Term` / `: definition` pairs (the definition-list extension).
    DefinitionList(Vec<DefinitionItem>),
    /// Footnote definitions, synthesized at the end of a column that
    /// referenced any.
    Footnotes(Vec<Footnote>),
    Rule,
}

/// One term and its (possibly several) definitions.
#[derive(Debug, PartialEq, Eq)]
pub struct DefinitionItem {
    pub term: Vec<InlineSpan>,
    pub definitions: Vec<Vec<Block>>,
}

/// One footnote: its number (assigned in reference order) and body.
#[derive(Debug, PartialEq, Eq)]
pub struct Footnote {
    pub number: usize,
    pub blocks: Vec<Block>,
}

/// The GFM alert flavors (`> [!NOTE]` etc.).
#[derive(Debug, Clone, Copy, PartialEq, Eq, Structural)]
pub enum AlertKind {
    Note,
    Tip,
    Important,
    Warning,
    Caution,
}

/// The label an alert shows on its first line.
pub open spec fn alert_label(kind: AlertKind) -> Seq<char> {
    match kind {
        AlertKind::Note => seq!['N', 'o', 't', 'e'],
        AlertKind::Tip => seq!['T', 'i', 'p'],
        AlertKind::Important => seq!['I', 'm', 'p', 'o', 'r', 't', 'a', 'n', 't'],
        AlertKind::Warning => seq!['W', 'a', 'r', 'n', 'i', 'n', 'g'],
        AlertKind::Caution => seq!['C', 'a', 'u', 't', 'i', 'o', 'n'],
    }
}

impl AlertKind {
    /// The label shown on the alert's first line.
    pub fn label(self) -> (r: &'static str)
        ensures
            r@ == alert_label(self),
    {
        match self {
            AlertKind::Note => {
                proof {
                    reveal_strlit("Note");
                }
                "Note"
            },
            AlertKind::Tip => {
                proof {
                    reveal_strlit("Tip");
                }
                "Tip"
            },
            AlertKind::Important => {
                proof {
                    reveal_strlit("Important");
                }
                "Important"
            },
            AlertKind::Warning => {
                proof {
                    reveal_strlit("Warning");
                }
                "Warning"
            },
            AlertKind::Caution => {
                proof {
                    reveal_strlit("Caution");
                }
                "Caution"
            },
        }
    }
}

/// A GFM table. Cells are inline-only.
#[derive(Debug, Clone, PartialEq, Eq)]
pub struct TableBlock {
    /// Per-column alignment, from the `:---:` header markers.
    pub alignments: Vec<TableAlign>,
    pub header: Vec<Vec<InlineSpan>>,
    pub rows: Vec<Vec<Vec<InlineSpan>>>,
}

/// Column alignment inside a table.
#[derive(Debug, Clone, Copy, PartialEq, Eq, Structural, Default)]
pub enum TableAlign {
    #[default]
    Left,
    Center,
    Right,
}

/// An ordered or unordered list.
#[derive(Debug, PartialEq, Eq)]
pub struct ListBlock {
    pub ordered: bool,
    /// First item number for ordered lists (`1` for unordered).
    pub start: u64,
    pub items: Vec<ListItem>,
}

/// One list item: a sequence of blocks, so items can hold paragraphs,
/// nested lists, code blocks, and so on.
#[derive(Debug, PartialEq, Eq, Default)]
pub struct ListItem {
    pub blocks: Vec<Block>,
    /// `Some(checked)` when this is a task list item (`- [x]` / `- [ ]`).
    pub task: Option<bool>,
}

/// A run of inline text with uniform styling.
#[derive(Debug, Clone, PartialEq, Eq, Default)]
pub struct InlineSpan {
    pub text: String,
    pub style: InlineStyle,
    /// Destination URL when this span is inside a link.
    pub link: Option<String>,
    /// Image URL/path for an inline image; `text` holds the alt text.
    pub image: Option<String>,
}

/// Inline style flags.
#[derive(Debug, Clone, Copy, PartialEq, Eq, Structural, Default)]
pub struct InlineStyle {
    /// A footnote reference marker like `[1]`, drawn in the accent.
    pub footnote_ref: bool,
    pub bold: bool,
    pub italic: bool,
    pub strikethrough: bool,
    pub underline: bool,
    pub code: bool,
}

/// No style flag set.
pub open spec fn plain_style() -> InlineStyle {
    InlineStyle {
        footnote_ref: false,
        bold: false,
        italic: false,
        strikethrough: false,
        underline: false,
        code: false,
    }
}

/// The text of an optional string.
pub open spec fn opt_chars(o: Option<String>) -> Option<Seq<char>> {
    match o {
        Some(s) => Some(s@),
        None => None,
    }
}

// ---------------------------------------------------------------------
// The mathematical model of the AST.
// ---------------------------------------------------------------------
/// The model of an [`InlineSpan`].
pub struct SpecSpan {
    pub text: Seq<char>,
    pub style: InlineStyle,
    pub link: Option<Seq<char>>,
    pub image: Option<Seq<char>>,
}

/// The model of a [`Block`].
pub enum SpecBlock {
    Heading { level: u8, content: Seq<SpecSpan> },
    Paragraph(Seq<SpecSpan>),
    List(SpecList),
    CodeBlock { language: Option<Seq<char>>, code: Seq<char> },
    BlockQuote { kind: Option<AlertKind>, blocks: Seq<SpecBlock> },
    Image { source: Seq<char>, alt: Seq<char> },
    Table(SpecTable),
    DefinitionList(Seq<SpecDefItem>),
    Footnotes(Seq<SpecFootnote>),
    Rule,
}

/// The model of a [`ListBlock`].
pub struct SpecList {
    pub ordered: bool,
    pub start: u64,
    pub items: Seq<SpecItem>,
}

/// The model of a [`ListItem`].
pub struct SpecItem {
    pub blocks: Seq<SpecBlock>,
    pub task: Option<bool>,
}

/// The model of a [`TableBlock`].
pub struct SpecTable {
    pub alignments: Seq<TableAlign>,
    pub header: Seq<Seq<SpecSpan>>,
    pub rows: Seq<Seq<Seq<SpecSpan>>>,
}

/// The model of a [`DefinitionItem`].
pub struct SpecDefItem {
    pub term: Seq<SpecSpan>,
    pub definitions: Seq<Seq<SpecBlock>>,
}

/// The model of a [`Footnote`].
pub struct SpecFootnote {
    pub number: int,
    pub blocks: Seq<SpecBlock>,
}

/// The model of a [`Slide`].
pub struct SpecSlide {
    pub columns: Seq<Seq<SpecBlock>>,
    pub notes: Seq<Seq<char>>,
}

impl View for InlineSpan {
    type V = SpecSpan;

    open spec fn view(&self) -> SpecSpan {
        SpecSpan {
            text: self.text@,
            style: self.style,
            link: opt_chars(self.link),
            image: opt_chars(self.image),
        }
    }
}

/// The model of a run of spans.
pub open spec fn spans_model(s: Seq<InlineSpan>) -> Seq<SpecSpan> {
    s.map_values(|x: InlineSpan| x@)
}

/// The model of a row of table cells.
pub open spec fn cells_model(s: Seq<Vec<InlineSpan>>) -> Seq<Seq<SpecSpan>> {
    s.map_values(|c: Vec<InlineSpan>| spans_model(c@))
}

/// The model of table body rows.
pub open spec fn rows_model(s: Seq<Vec<Vec<InlineSpan>>>) -> Seq<Seq<Seq<SpecSpan>>> {
    s.map_values(|r: Vec<Vec<InlineSpan>>| cells_model(r@))
}

/// The model of a [`TableBlock`].
pub open spec fn table_model(t: TableBlock) -> SpecTable {
    SpecTable {
        alignments: t.alignments@,
        header: cells_model(t.header@),
        rows: rows_model(t.rows@),
    }
}

/// The model of one block.
pub open spec fn block_model(b: Block) -> SpecBlock
    decreases b,
{
    match b {
        Block::Heading { level, content } => SpecBlock::Heading {
            level,
            content: spans_model(content@),
        },
        Block::Paragraph(spans) => SpecBlock::Paragraph(spans_model(spans@)),
        Block::List(list) => SpecBlock::List(
            SpecList { ordered: list.ordered, start: list.start, items: items_model(list.items@) },
        ),
        Block::CodeBlock { language, code } => SpecBlock::CodeBlock {
            language: opt_chars(language),
            code: code@,
        },
        Block::BlockQuote { kind, blocks } => SpecBlock::BlockQuote {
            kind,
            blocks: blocks_model(blocks@),
        },
        Block::Image { source, alt } => SpecBlock::Image { source: source@, alt: alt@ },
        Block::Table(t) => SpecBlock::Table(table_model(t)),
        Block::DefinitionList(items) => SpecBlock::DefinitionList(def_items_model(items@)),
        Block::Footnotes(notes) => SpecBlock::Footnotes(footnotes_model(notes@)),
        Block::Rule => SpecBlock::Rule,
    }
}

/// The model of a run of blocks.
pub open spec fn blocks_model(s: Seq<Block>) -> Seq<SpecBlock>
    decreases s,
{
    if s.len() == 0 {
        Seq::empty()
    } else {
        blocks_model(s.drop_last()).push(block_model(s.last()))
    }
}

/// The model of list items.
pub open spec fn items_model(s: Seq<ListItem>) -> Seq<SpecItem>
    decreases s,
{
    if s.len() == 0 {
        Seq::empty()
    } else {
        items_model(s.drop_last()).push(
            SpecItem { blocks: blocks_model(s.last().blocks@), task: s.last().task },
        )
    }
}

/// The model of the definitions of one term.
pub open spec fn defs_model(s: Seq<Vec<Block>>) -> Seq<Seq<SpecBlock>>
    decreases s,
{
    if s.len() == 0 {
        Seq::empty()
    } else {
        defs_model(s.drop_last()).push(blocks_model(s.last()@))
    }
}

/// The model of definition-list items.
pub open spec fn def_items_model(s: Seq<DefinitionItem>) -> Seq<SpecDefItem>
    decreases s,
{
    if s.len() == 0 {
        Seq::empty()
    } else {
        def_items_model(s.drop_last()).push(
            SpecDefItem {
                term: spans_model(s.last().term@),
                definitions: defs_model(s.last().definitions@),
            },
        )
    }
}

/// The model of footnotes.
pub open spec fn footnotes_model(s: Seq<Footnote>) -> Seq<SpecFootnote>
    decreases s,
{
    if s.len() == 0 {
        Seq::empty()
    } else {
        footnotes_model(s.drop_last()).push(
            SpecFootnote { number: s.last().number as int, blocks: blocks_model(s.last().blocks@) },
        )
    }
}

/// The model of a slide's columns.
pub open spec fn columns_model(s: Seq<Vec<Block>>) -> Seq<Seq<SpecBlock>> {
    s.map_values(|c: Vec<Block>| blocks_model(c@))
}

/// The model of a sequence of strings.
pub open spec fn strings_model(s: Seq<String>) -> Seq<Seq<char>> {
    s.map_values(|n: String| n@)
}

impl View for Slide {
    type V = SpecSlide;

    open spec fn view(&self) -> SpecSlide {
        SpecSlide { columns: columns_model(self.columns@), notes: strings_model(self.notes@) }
    }
}

pub proof fn lemma_blocks_model_push(s: Seq<Block>, b: Block)
    ensures
        blocks_model(s.push(b)) == blocks_model(s).push(block_model(b)),
{
    assert(s.push(b).drop_last() =~= s);
}

pub proof fn lemma_items_model_push(s: Seq<ListItem>, i: ListItem)
    ensures
        items_model(s.push(i)) == items_model(s).push(
            SpecItem { blocks: blocks_model(i.blocks@), task: i.task },
        ),
{
    assert(s.push(i).drop_last() =~= s);
}

pub proof fn lemma_defs_model_push(s: Seq<Vec<Block>>, d: Vec<Block>)
    ensures
        defs_model(s.push(d)) == defs_model(s).push(blocks_model(d@)),
{
    assert(s.push(d).drop_last() =~= s);
}

pub proof fn lemma_def_items_model_push(s: Seq<DefinitionItem>, d: DefinitionItem)
    ensures
        def_items_model(s.push(d)) == def_items_model(s).push(
            SpecDefItem { term: spans_model(d.term@), definitions: defs_model(d.definitions@) },
        ),
{
    assert(s.push(d).drop_last() =~= s);
}

pub proof fn lemma_footnotes_model_push(s: Seq<Footnote>, f: Footnote)
    ensures
        footnotes_model(s.push(f)) == footnotes_model(s).push(
            SpecFootnote { number: f.number as int, blocks: blocks_model(f.blocks@) },
        ),
{
    assert(s.push(f).drop_last() =~= s);
}

pub proof fn lemma_def_items_model_len(s: Seq<DefinitionItem>)
    ensures
        def_items_model(s).len() == s.len(),
    decreases s.len(),
{
    if s.len() > 0 {
        lemma_def_items_model_len(s.drop_last());
    }
}

pub proof fn lemma_blocks_model_len(s: Seq<Block>)
    ensures
        blocks_model(s).len() == s.len(),
    decreases s.len(),
{
    if s.len() > 0 {
        lemma_blocks_model_len(s.drop_last());
    }
}

pub proof fn lemma_footnotes_model_len(s: Seq<Footnote>)
    ensures
        footnotes_model(s).len() == s.len(),
    decreases s.len(),
{
    if s.len() > 0 {
        lemma_footnotes_model_len(s.drop_last());
    }
}

/// The texts of `spans`, concatenated.
pub open spec fn concat_texts(spans: Seq<SpecSpan>) -> Seq<char>
    decreases spans.len(),
{
    if spans.len() == 0 {
        Seq::empty()
    } else {
        concat_texts(spans.drop_last()) + spans.last().text
    }
}

/// The joined text of the first heading with content among `blocks[i..]`.
pub open spec fn first_heading_from(blocks: Seq<SpecBlock>, i: int) -> Option<Seq<char>>
    decreases blocks.len() - i,
{
    if i < 0 || i >= blocks.len() {
        None
    } else {
        match blocks[i] {
            SpecBlock::Heading { content, .. } if content.len() > 0 => Some(concat_texts(content)),
            _ => first_heading_from(blocks, i + 1),
        }
    }
}

/// The joined text of the first heading with content in `columns[c..]`,
/// columns in order.
pub open spec fn first_heading_in_columns(columns: Seq<Seq<SpecBlock>>, c: int) -> Option<
    Seq<char>,
>
    decreases columns.len() - c,
{
    if c < 0 || c >= columns.len() {
        None
    } else {
        match first_heading_from(columns[c], 0) {
            Some(t) => Some(t),
            None => first_heading_in_columns(columns, c + 1),
        }
    }
}

/// The text of the first paragraph with content among `blocks[i..]`.
pub open spec fn first_paragraph_from(blocks: Seq<SpecBlock>, i: int) -> Option<Seq<char>>
    decreases blocks.len() - i,
{
    if i < 0 || i >= blocks.len() {
        None
    } else {
        match blocks[i] {
            SpecBlock::Paragraph(spans) if spans.len() > 0 => Some(concat_texts(spans)),
            _ => first_paragraph_from(blocks, i + 1),
        }
    }
}

/// The text of the first paragraph with content in `columns[c..]`.
pub open spec fn first_paragraph_in_columns(columns: Seq<Seq<SpecBlock>>, c: int) -> Option<
    Seq<char>,
>
    decreases columns.len() - c,
{
    if c < 0 || c >= columns.len() {
        None
    } else {
        match first_paragraph_from(columns[c], 0) {
            Some(t) => Some(t),
            None => first_paragraph_in_columns(columns, c + 1),
        }
    }
}

impl InlineSpan {
    /// A span of unstyled, unlinked text.
    pub fn plain(text: String) -> (r: InlineSpan)
        ensures
            r@ == (SpecSpan { text: text@, style: plain_style(), link: None, image: None }),
    {
        InlineSpan {
            text,
            style: InlineStyle {
                footnote_ref: false,
                bold: false,
                italic: false,
                strikethrough: false,
                underline: false,
                code: false,
            },
            link: None,
            image: None,
        }
    }
}

/// The texts of `spans`, joined.
pub fn join_texts(spans: &Vec<InlineSpan>) -> (r: String)
    ensures
        r@ == concat_texts(spans_model(spans@)),
{
    let mut out: Vec<char> = Vec::new();
    let mut i: usize = 0;
    while i < spans.len()
        invariant
            i <= spans@.len(),
            out@ == concat_texts(spans_model(spans@.take(i as int))),
        decreases spans@.len() - i,
    {
        let piece = crate::text::chars_of(spans[i].text.as_str());
        crate::text::extend_chars(&mut out, &piece);
        assert(spans_model(spans@.take(i + 1)).drop_last() =~= spans_model(spans@.take(i as int)));
        i = i + 1;
    }
    assert(spans@.take(spans@.len() as int) =~= spans@);
    crate::text::string_of(out.as_slice())
}

/// The joined text of the first heading with content among `blocks`.
fn first_heading(blocks: &Vec<Block>) -> (r: Option<String>)
    ensures
        opt_chars(r) == first_heading_from(blocks_model(blocks@), 0),
{
    let ghost m = blocks_model(blocks@);
    proof {
        lemma_blocks_model_len(blocks@);
    }
    let mut i: usize = 0;
    while i < blocks.len()
        invariant
            i <= blocks@.len(),
            m == blocks_model(blocks@),
            m.len() == blocks@.len(),
            first_heading_from(m, 0) == first_heading_from(m, i as int),
        decreases blocks@.len() - i,
    {
        proof {
            lemma_blocks_model_index(blocks@, i as int);
        }
        match &blocks[i] {
            Block::Heading { content, .. } => {
                if content.len() > 0 {
                    return Some(join_texts(content));
                }
            },
            _ => {},
        }
        i = i + 1;
    }
    None
}

/// The text of the first paragraph with content among `blocks`.
fn first_paragraph(blocks: &Vec<Block>) -> (r: Option<String>)
    ensures
        opt_chars(r) == first_paragraph_from(blocks_model(blocks@), 0),
{
    let ghost m = blocks_model(blocks@);
    proof {
        lemma_blocks_model_len(blocks@);
    }
    let mut i: usize = 0;
    while i < blocks.len()
        invariant
            i <= blocks@.len(),
            m == blocks_model(blocks@),
            m.len() == blocks@.len(),
            first_paragraph_from(m, 0) == first_paragraph_from(m, i as int),
        decreases blocks@.len() - i,
    {
        proof {
            lemma_blocks_model_index(blocks@, i as int);
        }
        match &blocks[i] {
            Block::Paragraph(spans) => {
                if spans.len() > 0 {
                    return Some(join_texts(spans));
                }
            },
            _ => {},
        }
        i = i + 1;
    }
    None
}

pub proof fn lemma_blocks_model_index(s: Seq<Block>, i: int)
    requires
        0 <= i < s.len(),
    ensures
        blocks_model(s)[i] == block_model(s[i]),
        blocks_model(s).len() == s.len(),
    decreases s.len(),
{
    lemma_blocks_model_len(s);
    if i < s.len() - 1 {
        lemma_blocks_model_index(s.drop_last(), i);
    }
}

impl Slide {
    /// All inline text of the first heading (or `None`), joined; columns
    /// are searched in order. Used as the slide's outline label and as
    /// the presentation title fallback.
    pub fn title_text(&self) -> (r: Option<String>)
        ensures
            opt_chars(r) == first_heading_in_columns(self@.columns, 0),
    {
        let mut c: usize = 0;
        while c < self.columns.len()
            invariant
                c <= self.columns@.len(),
                first_heading_in_columns(self@.columns, 0) == first_heading_in_columns(
                    self@.columns,
                    c as int,
                ),
            decreases self.columns@.len() - c,
        {
            let found = first_heading(&self.columns[c]);
            if found.is_some() {
                return found;
            }
            c = c + 1;
        }
        None
    }

    /// First bit of plain text on the slide, for outline labels: the text
    /// of the first paragraph with content, columns in order.
    pub fn first_text(&self) -> (r: Option<String>)
        ensures
            opt_chars(r) == first_paragraph_in_columns(self@.columns, 0),
    {
        let mut c: usize = 0;
        while c < self.columns.len()
            invariant
                c <= self.columns@.len(),
                first_paragraph_in_columns(self@.columns, 0) == first_paragraph_in_columns(
                    self@.columns,
                    c as int,
                ),
            decreases self.columns@.len() - c,
        {
            let found = first_paragraph(&self.columns[c]);
            if found.is_some() {
                return found;
            }
            c = c + 1;
        }
        None
    }
}

} // verus!
