//! Parsing of `.keynot` files.
//!
//! A `.keynot` file is a markdown document with optional YAML frontmatter
//! delimited by `---` lines at the very top, slides separated by `---` on a
//! line of its own (outside fenced code), and HTML comments that never
//! render but become per-slide speaker notes.
//!
//! The pipeline is: [`splitter`] cuts the raw text into frontmatter and raw
//! slide sources, the frontmatter YAML becomes [`metadata::Metadata`], and
//! [`builder`] parses each slide's markdown into the small block-level AST
//! of [`slide`] that the renderer consumes.
use vstd::prelude::*;

pub mod builder;
pub mod builder_spec;
pub mod events;
pub mod metadata;
pub mod rejoin;
pub mod span_form;
pub mod slide;
pub mod splitter;

use self::builder_spec::spec_slide;
use self::events::cmark_events;
use self::metadata::Metadata;
use self::slide::{first_heading_in_columns, opt_chars, Slide, SpecSlide};
use self::builder::source_streams;
use self::splitter::{spec_columns, split_columns, SpecRawSlide, SpecSplit, SplitResult};
use crate::text::{append_str, string_of};

verus! {

/// Errors produced while parsing a `.keynot` file.
#[derive(Debug)]
pub enum ParseError {
    /// The leading `---` needs a closing `---`.
    UnterminatedFrontmatter,
    /// The frontmatter is not valid YAML for the metadata; the message says why.
    Frontmatter(String),
    /// The file contains no slides.
    NoSlides,
}

/// The message a parse error reads as.
pub open spec fn parse_error_message(e: ParseError) -> Seq<char> {
    match e {
        ParseError::UnterminatedFrontmatter => "unterminated frontmatter: the leading `---` needs a closing `---`"@,
        ParseError::Frontmatter(why) => "invalid frontmatter: "@ + why@,
        ParseError::NoSlides => "the file contains no slides"@,
    }
}

impl ParseError {
    /// The error as a sentence for the user.
    pub fn message(&self) -> (r: String)
        ensures
            r@ == parse_error_message(*self),
    {
        let mut out: Vec<char> = Vec::new();
        match self {
            ParseError::UnterminatedFrontmatter => {
                append_str(
                    &mut out,
                    "unterminated frontmatter: the leading `---` needs a closing `---`",
                );
            },
            ParseError::Frontmatter(why) => {
                append_str(&mut out, "invalid frontmatter: ");
                append_str(&mut out, why.as_str());
            },
            ParseError::NoSlides => {
                append_str(&mut out, "the file contains no slides");
            },
        }
        string_of(out.as_slice())
    }
}

/// A fully parsed presentation.
#[derive(Debug)]
pub struct Presentation {
    pub metadata: Metadata,
    pub slides: Vec<Slide>,
}

/// The parsed slides of a split source, one per raw slide, in order.
pub open spec fn slides_of(split: SpecSplit) -> Seq<SpecSlide> {
    kept_slides(split.slides)
}

/// The slides parsed from raw slides: each cut into its columns, every
/// column's markdown parsed; a raw slide whose columns are all blank
/// yields none.
pub open spec fn kept_slides(raw: Seq<SpecRawSlide>) -> Seq<SpecSlide>
    decreases raw.len(),
{
    if raw.len() == 0 {
        Seq::empty()
    } else {
        let cols = spec_columns(raw.last().content);
        kept_slides(raw.drop_last()) + if cols.len() == 0 {
            Seq::empty()
        } else {
            seq![spec_slide(cols.map_values(|c: Seq<char>| cmark_events(c)))]
        }
    }
}

/// The model of a run of slides.
pub open spec fn slides_model(s: Seq<Slide>) -> Seq<SpecSlide> {
    s.map_values(|x: Slide| x@)
}

/// The first slide title found from slide `i` on.
pub open spec fn first_title_from(slides: Seq<SpecSlide>, i: int) -> Option<Seq<char>>
    decreases slides.len() - i,
{
    if i < 0 || i >= slides.len() {
        None
    } else {
        match first_heading_in_columns(slides[i].columns, 0) {
            Some(t) => Some(t),
            None => first_title_from(slides, i + 1),
        }
    }
}

/// The presentation title: the metadata's, else the first slide heading.
pub open spec fn presentation_title(meta: Option<Seq<char>>, slides: Seq<SpecSlide>) -> Option<
    Seq<char>,
> {
    match meta {
        Some(t) => Some(t),
        None => first_title_from(slides, 0),
    }
}

impl Presentation {
    /// Assemble a presentation from a split source and the metadata its
    /// frontmatter parsed into: every raw slide's markdown is parsed, in
    /// order. A source without slides is an error.
    pub fn from_split(split: &SplitResult, metadata: Metadata) -> (r: Result<
        Presentation,
        ParseError,
    >)
        ensures
            match r {
                Ok(p) => {
                    &&& slides_of(split@).len() > 0
                    &&& p.metadata == metadata
                    &&& slides_model(p.slides@) == slides_of(split@)
                },
                Err(e) => slides_of(split@).len() == 0 && e is NoSlides,
            },
    {
        let ghost raw = split@.slides;
        let mut slides: Vec<Slide> = Vec::new();
        let mut i: usize = 0;
        while i < split.slides.len()
            invariant
                i <= split.slides@.len(),
                raw == split@.slides,
                slides_model(slides@) == kept_slides(raw.take(i as int)),
            decreases split.slides@.len() - i,
        {
            assert(raw.take(i + 1).drop_last() =~= raw.take(i as int));
            assert(raw.take(i + 1).last() == split.slides@[i as int]@);
            let columns = split_columns(split.slides[i].content.as_str());
            let ghost before = slides_model(slides@);
            if columns.len() > 0 {
                let slide = Slide::parse_columns(columns.as_slice());
                proof {
                    let cols = spec_columns(split.slides@[i as int].content@);
                    assert(source_streams(columns@) =~= cols.map_values(|c: Seq<char>| cmark_events(c))) by {
                        assert forall|j: int| 0 <= j < columns@.len() implies source_streams(columns@)[j]
                            == cols.map_values(|c: Seq<char>| cmark_events(c))[j] by {
                            assert(columns@.map_values(|s: String| s@)[j] == columns@[j]@);
                        }
                    }
                }
                slides.push(slide);
                assert(slides_model(slides@) =~= before.push(slide@));
            } else {
                assert(spec_columns(split.slides@[i as int].content@).len() == 0);
            }
            i = i + 1;
        }
        assert(raw.take(split.slides@.len() as int) =~= raw);
        if slides.len() == 0 {
            return Err(ParseError::NoSlides);
        }
        Ok(Presentation { metadata, slides })
    }

    /// The presentation title: explicit metadata, or the first heading found.
    pub fn title(&self) -> (r: Option<String>)
        ensures
            opt_chars(r) == presentation_title(
                opt_chars(self.metadata.title),
                slides_model(self.slides@),
            ),
    {
        match &self.metadata.title {
            Some(t) => {
                return Some(t.clone());
            },
            None => {},
        }
        let ghost all = slides_model(self.slides@);
        let mut i: usize = 0;
        while i < self.slides.len()
            invariant
                i <= self.slides@.len(),
                all == slides_model(self.slides@),
                self.metadata.title is None,
                first_title_from(all, 0) == first_title_from(all, i as int),
            decreases self.slides@.len() - i,
        {
            let found = self.slides[i].title_text();
            assert(all[i as int] == self.slides@[i as int]@);
            if found.is_some() {
                return found;
            }
            i = i + 1;
        }
        None
    }
}

} // verus!
