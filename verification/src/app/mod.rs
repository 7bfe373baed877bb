//! What the player needs settled before it starts: its options, and a
//! presentation checked against the themes it names.
use vstd::prelude::*;

pub mod config;

use crate::markdown::builder::push_decimal;
use crate::markdown::builder_spec::decimal;
use crate::markdown::slide::{opt_chars, Slide};
use crate::markdown::{presentation_title, slides_model, Presentation};
use crate::render::highlight::{default_theme_known, Highlighter};
use crate::screen::joined;
use crate::markdown::metadata::{Metadata, KNOWN_COLOR_KEYS, KNOWN_KEYS};
use crate::render::slide::{tallest_slide, tallest_upto};
use crate::template::{matches_at, occurs_at};
use crate::text::{append_str, chars_of, find_run_end, lines, run_end, split_lines, string_of, views};
use crate::theme::{theme_error, themed, Theme, ThemeError, SpecThemeError, theme_error_message};

verus! {

/// How the player draws images, from `play --images`.
#[derive(Debug, Clone, Copy, PartialEq, Eq, Structural)]
pub enum ImageMode {
    /// The best protocol the terminal supports.
    Auto,
    /// Textual half-block cells only. Unlike kitty/iTerm2/sixel
    /// graphics, these survive asciinema recordings and GIF renders.
    Halfblocks,
    /// Placeholders instead of pictures.
    Off,
}

impl Default for ImageMode {
    fn default() -> (r: ImageMode)
        ensures
            r == ImageMode::Auto,
    {
        ImageMode::Auto
    }
}

/// Options for `keynot play`.
#[derive(Debug, Clone, Copy, PartialEq, Eq, Structural)]
pub struct PlayOptions {
    /// 1-based slide to start on (0 or 1 both mean the first slide).
    pub start_slide: usize,
    /// How to draw images.
    pub images: ImageMode,
}

impl Default for PlayOptions {
    fn default() -> (r: PlayOptions)
        ensures
            r == (PlayOptions { start_slide: 0, images: ImageMode::Auto }),
    {
        PlayOptions { start_slide: 0, images: ImageMode::Auto }
    }
}

/// A presentation with its theme resolved and its code theme checked.
pub struct LoadedPresentation {
    pub presentation: Presentation,
    pub theme: Theme,
}

/// Why a parsed presentation cannot be played.
pub enum LoadError {
    /// The frontmatter's theme settings are wrong.
    Theme(ThemeError),
    /// `code_theme:` names no loaded code theme; `available` lists those
    /// that are loaded.
    UnknownCodeTheme { name: String, available: Vec<String> },
}

/// The model of a [`LoadError`].
pub enum SpecLoadError {
    Theme(SpecThemeError),
    UnknownCodeTheme { name: Seq<char>, available: Seq<Seq<char>> },
}

impl View for LoadError {
    type V = SpecLoadError;

    open spec fn view(&self) -> SpecLoadError {
        match self {
            LoadError::Theme(e) => SpecLoadError::Theme(e@),
            LoadError::UnknownCodeTheme { name, available } => SpecLoadError::UnknownCodeTheme {
                name: name@,
                available: available@.map_values(|s: String| s@),
            },
        }
    }
}

/// The message a load error reads as.
pub open spec fn load_error_message(e: SpecLoadError) -> Seq<char> {
    match e {
        SpecLoadError::Theme(t) => theme_error_message(t),
        SpecLoadError::UnknownCodeTheme { name, available } => "unknown code_theme `"@ + name
            + "` (available: "@ + joined(available, ", "@) + ")"@,
    }
}

impl LoadError {
    /// The error as a sentence for the user.
    pub fn message(&self) -> (r: String)
        ensures
            r@ == load_error_message(self@),
    {
        match self {
            LoadError::Theme(e) => e.message(),
            LoadError::UnknownCodeTheme { name, available } => {
                let ghost names = available@.map_values(|s: String| s@);
                let mut out: Vec<char> = Vec::new();
                append_str(&mut out, "unknown code_theme `");
                append_str(&mut out, name.as_str());
                append_str(&mut out, "` (available: ");
                let ghost start = out@;
                let mut k: usize = 0;
                while k < available.len()
                    invariant
                        k <= available@.len(),
                        names == available@.map_values(|s: String| s@),
                        out@ == start + joined(names.take(k as int), ", "@),
                    decreases available@.len() - k,
                {
                    assert(names.take(k + 1).drop_last() =~= names.take(k as int));
                    if k > 0 {
                        append_str(&mut out, ", ");
                    }
                    append_str(&mut out, available[k].as_str());
                    k = k + 1;
                    assert(out@ =~= start + joined(names.take(k as int), ", "@));
                }
                assert(names.take(available@.len() as int) =~= names);
                append_str(&mut out, ")");
                string_of(out.as_slice())
            },
        }
    }
}

impl LoadedPresentation {
    /// Resolve the presentation's theme and check that its code theme is
    /// loaded; the presentation itself was validated by parsing.
    pub fn new(presentation: Presentation, highlighter: &Highlighter) -> (r: Result<
        LoadedPresentation,
        LoadError,
    >)
        ensures
            match r {
                Ok(l) => theme_error(presentation.metadata) is None
                    && default_theme_known(themed(presentation.metadata).code_theme)
                    && l.theme@ == themed(presentation.metadata)
                    && l.presentation == presentation,
                Err(LoadError::Theme(e)) => theme_error(presentation.metadata) == Some(e@),
                Err(LoadError::UnknownCodeTheme { name, available }) => theme_error(presentation.metadata) is None
                    && name@ == themed(presentation.metadata).code_theme
                    && !default_theme_known(name@)
                    && forall|i: int| 0 <= i < available@.len() ==> default_theme_known(#[trigger] available@[i]@),
            },
    {
        let theme = match Theme::from_metadata(&presentation.metadata) {
            Ok(t) => t,
            Err(e) => {
                return Err(LoadError::Theme(e));
            },
        };
        if !highlighter.has_theme(theme.code_theme.as_str()) {
            return Err(LoadError::UnknownCodeTheme {
                name: theme.code_theme,
                available: highlighter.available_themes(),
            });
        }
        Ok(LoadedPresentation { presentation, theme })
    }
}

/// How many speaker notes the slides hold in all.
pub open spec fn note_total(slides: Seq<Slide>) -> nat
    decreases slides.len(),
{
    if slides.len() == 0 {
        0
    } else {
        note_total(slides.drop_last()) + slides.last().notes@.len()
    }
}

/// The summary `keynot check` prints for a valid presentation shown as
/// `name`: that it is fine, its title and author where there are any,
/// its theme (`dark` when unset), its slide count, its note count when
/// there are notes, and its tallest slide at a reference 80 columns.
pub open spec fn check_summary(name: Seq<char>, p: Presentation, t: Theme) -> Seq<Seq<char>> {
    let notes = note_total(p.slides@);
    let tallest = tallest_upto(p.slides@, t, 80, p.slides@.len() as int);
    seq![name + ": OK"@]
        + (match presentation_title(opt_chars(p.metadata.title), slides_model(p.slides@)) {
            Some(t) => seq!["  title:  "@ + t],
            None => Seq::empty(),
        })
        + (match p.metadata.author {
            Some(a) => seq!["  author: "@ + a@],
            None => Seq::empty(),
        })
        + seq![
            "  theme:  "@ + (match p.metadata.theme {
                Some(t) => t@,
                None => "dark"@,
            }),
            "  slides: "@ + decimal(p.slides@.len()),
        ]
        + (if notes > 0 { seq!["  notes:  "@ + decimal(notes)] } else { Seq::empty() })
        + seq![
            "  tallest: slide "@ + decimal(tallest.1 as nat) + ", "@ + decimal(tallest.0 as nat)
                + " lines (at 80 columns)"@,
        ]
}

/// The lines `keynot check` prints for a loaded presentation, read from
/// the file shown as `name`.
pub fn check_report(name: &str, loaded: &LoadedPresentation, highlighter: &Highlighter) -> (r: Vec<String>)
    ensures
        r@.map_values(|s: String| s@) == check_summary(name@, loaded.presentation, loaded.theme),
{
    let p = &loaded.presentation;
    let ghost want = check_summary(name@, *p, loaded.theme);
    let mut out: Vec<String> = Vec::new();
    let mut first: Vec<char> = Vec::new();
    append_str(&mut first, name);
    append_str(&mut first, ": OK");
    out.push(string_of(first.as_slice()));
    match p.title() {
        Some(t) => {
            let mut l: Vec<char> = Vec::new();
            append_str(&mut l, "  title:  ");
            append_str(&mut l, t.as_str());
            out.push(string_of(l.as_slice()));
        },
        None => {},
    }
    match &p.metadata.author {
        Some(a) => {
            let mut l: Vec<char> = Vec::new();
            append_str(&mut l, "  author: ");
            append_str(&mut l, a.as_str());
            out.push(string_of(l.as_slice()));
        },
        None => {},
    }
    let mut th: Vec<char> = Vec::new();
    append_str(&mut th, "  theme:  ");
    match &p.metadata.theme {
        Some(t) => append_str(&mut th, t.as_str()),
        None => append_str(&mut th, "dark"),
    }
    out.push(string_of(th.as_slice()));
    let mut sl: Vec<char> = Vec::new();
    append_str(&mut sl, "  slides: ");
    push_decimal(&mut sl, p.slides.len() as u128);
    out.push(string_of(sl.as_slice()));
    let mut notes: u128 = 0;
    let mut i: usize = 0;
    while i < p.slides.len()
        invariant
            i <= p.slides@.len(),
            notes == note_total(p.slides@.take(i as int)),
            notes <= i * 0xffff_ffff_ffff_ffffu128,
        decreases p.slides@.len() - i,
    {
        assert(p.slides@.take(i + 1).drop_last() =~= p.slides@.take(i as int));
        let n = p.slides[i].notes.len();
        assert(n <= 0xffff_ffff_ffff_ffffu128);
        assert(notes + n <= (i + 1) * 0xffff_ffff_ffff_ffffu128) by (nonlinear_arith)
            requires
                notes <= i * 0xffff_ffff_ffff_ffffu128,
                n <= 0xffff_ffff_ffff_ffffu128,
        ;
        assert((i + 1) * 0xffff_ffff_ffff_ffffu128 <= 0xffff_ffff_ffff_ffff_ffff_ffff_ffff_ffffu128) by (nonlinear_arith)
            requires
                i < 0xffff_ffff_ffff_ffffu128 + 1,
        ;
        notes = notes + n as u128;
        i = i + 1;
    }
    assert(p.slides@.take(p.slides@.len() as int) =~= p.slides@);
    if notes > 0 {
        let mut nl: Vec<char> = Vec::new();
        append_str(&mut nl, "  notes:  ");
        push_decimal(&mut nl, notes);
        out.push(string_of(nl.as_slice()));
    }
    let (rows, index) = tallest_slide(&p.slides, &loaded.theme, highlighter, 80);
    let mut tl: Vec<char> = Vec::new();
    append_str(&mut tl, "  tallest: slide ");
    push_decimal(&mut tl, index as u128);
    append_str(&mut tl, ", ");
    push_decimal(&mut tl, rows as u128);
    append_str(&mut tl, " lines (at 80 columns)");
    out.push(string_of(tl.as_slice()));
    assert(out@.map_values(|s: String| s@) =~= want);
    out
}

// ---------------------------------------------------------------------
// Unknown frontmatter keys
/// Whether frontmatter line `line` sets `key`: the key and a colon after
/// the line's indentation, which is none for a top-level key and some for
/// a `colors:` sub-key.
pub open spec fn sets_key(line: Seq<char>, key: Seq<char>, nested: bool) -> bool {
    let ind = run_end(line, ' ', 0);
    &&& (ind > 0) == nested
    &&& occurs_at(line, ind, key + ":"@)
}

/// The first frontmatter line from `j` on that sets `key`.
pub open spec fn key_line_from(ls: Seq<Seq<char>>, key: Seq<char>, nested: bool, j: int) -> Option<int>
    decreases ls.len() - j,
{
    if j < 0 || j >= ls.len() {
        None
    } else if sets_key(ls[j], key, nested) {
        Some(j)
    } else {
        key_line_from(ls, key, nested, j + 1)
    }
}

/// One unknown key as `keynot check` names it: quoted, with the file line
/// that sets it when one does (the frontmatter starts on line 2).
pub open spec fn key_entry(name: Seq<char>, line: Option<int>) -> Seq<char> {
    "`"@ + name + "`"@ + match line {
        Some(j) => " (line "@ + decimal((j + 2) as nat) + ")"@,
        None => Seq::empty(),
    }
}

/// The entries for every unknown key: top-level keys first, then the
/// `colors.` sub-keys.
pub open spec fn key_entries(m: Metadata, front: Seq<char>) -> Seq<Seq<char>> {
    let ls = lines(front);
    m.unknown@.map_values(|k: String| key_entry(k@, key_line_from(ls, k@, false, 0)))
        + m.colors.unknown@.map_values(
        |k: String| key_entry("colors."@ + k@, key_line_from(ls, k@, true, 0)),
    )
}

/// The keys keynot understands, as `keynot check` lists them.
pub open spec fn valid_keys_text() -> Seq<char> {
    joined(KNOWN_KEYS@.map_values(|k: &str| k@), ", "@) + "; colors: "@ + joined(
        KNOWN_COLOR_KEYS@.map_values(|k: &str| k@),
        ", "@,
    )
}

/// What `keynot check` reports for the unknown keys of metadata `m`
/// parsed from frontmatter `front`: nothing when there are none; else
/// each key with its line, and the valid keys.
pub open spec fn unknown_key_message(m: Metadata, front: Seq<char>) -> Option<Seq<char>> {
    let entries = key_entries(m, front);
    if entries.len() == 0 {
        None
    } else {
        Some(
            "unknown frontmatter key"@ + (if entries.len() > 1 { "s"@ } else { Seq::empty() }) + " "@
                + joined(entries, ", "@) + " (valid keys: "@ + valid_keys_text() + ")"@,
        )
    }
}

/// The first frontmatter line that sets `key`.
fn find_key_line(ls: &Vec<Vec<char>>, key: &str, nested: bool) -> (r: Option<usize>)
    ensures
        match r {
            Some(j) => key_line_from(views(ls@), key@, nested, 0) == Some(j as int) && j < ls@.len(),
            None => key_line_from(views(ls@), key@, nested, 0) is None,
        },
{
    let mut pat = chars_of(key);
    pat.push(':');
    assert(pat@ =~= key@ + ":"@) by {
        reveal_strlit(":");
    }
    let mut j: usize = 0;
    while j < ls.len()
        invariant
            j <= ls@.len(),
            pat@ == key@ + ":"@,
            key_line_from(views(ls@), key@, nested, 0) == key_line_from(views(ls@), key@, nested, j as int),
        decreases ls@.len() - j,
    {
        let line = &ls[j];
        assert(views(ls@)[j as int] == line@);
        let ind = find_run_end(line, ' ', 0);
        if (ind > 0) == nested && matches_at(line, ind, &pat) {
            return Some(j);
        }
        j = j + 1;
    }
    None
}

/// Append a key's entry.
fn push_entry(out: &mut Vec<char>, name: &Vec<char>, line: Option<usize>)
    ensures
        final(out)@ == old(out)@ + key_entry(name@, match line {
            Some(j) => Some(j as int),
            None => None,
        }),
{
    append_str(out, "`");
    crate::text::extend_chars(out, name);
    append_str(out, "`");
    match line {
        Some(j) => {
            append_str(out, " (line ");
            push_decimal(out, j as u128 + 2);
            append_str(out, ")");
        },
        None => {},
    }
}

/// `names` joined with `", "`.
fn push_joined(out: &mut Vec<char>, names: &[&str])
    ensures
        final(out)@ == old(out)@ + joined(names@.map_values(|k: &str| k@), ", "@),
{
    let ghost all = names@.map_values(|k: &str| k@);
    let ghost start = out@;
    let mut k: usize = 0;
    while k < names.len()
        invariant
            k <= names@.len(),
            all == names@.map_values(|k: &str| k@),
            out@ == start + joined(all.take(k as int), ", "@),
        decreases names@.len() - k,
    {
        assert(all.take(k + 1).drop_last() =~= all.take(k as int));
        if k > 0 {
            append_str(out, ", ");
        }
        append_str(out, names[k]);
        k = k + 1;
        assert(out@ =~= start + joined(all.take(k as int), ", "@));
    }
    assert(all.take(names@.len() as int) =~= all);
}

/// What `keynot check` reports for the frontmatter keys it does not know,
/// given the metadata parsed from the frontmatter text `front`.
pub fn unknown_key_report(metadata: &Metadata, front: &str) -> (r: Option<String>)
    ensures
        match r {
            Some(msg) => unknown_key_message(*metadata, front@) == Some(msg@),
            None => unknown_key_message(*metadata, front@) is None,
        },
{
    let chars = chars_of(front);
    let ls = split_lines(&chars);
    let ghost want = key_entries(*metadata, front@);
    let mut entries: Vec<Vec<char>> = Vec::new();
    let mut i: usize = 0;
    let n = metadata.unknown.len();
    while i < metadata.unknown.len()
        invariant
            i <= n == metadata.unknown@.len(),
            views(ls@) == lines(front@),
            want == key_entries(*metadata, front@),
            views(entries@) == want.take(i as int),
        decreases n - i,
    {
        let k = metadata.unknown[i].as_str();
        let line = find_key_line(&ls, k, false);
        let mut e: Vec<char> = Vec::new();
        let name = chars_of(k);
        push_entry(&mut e, &name, line);
        let ghost before = views(entries@);
        entries.push(e);
        assert(views(entries@) =~= before.push(e@));
        i = i + 1;
        assert(want.take(i as int) =~= before.push(e@));
    }
    let mut j: usize = 0;
    while j < metadata.colors.unknown.len()
        invariant
            j <= metadata.colors.unknown@.len(),
            n == metadata.unknown@.len(),
            views(ls@) == lines(front@),
            want == key_entries(*metadata, front@),
            views(entries@) == want.take(n + j),
        decreases metadata.colors.unknown@.len() - j,
    {
        let k = metadata.colors.unknown[j].as_str();
        let line = find_key_line(&ls, k, true);
        let mut name: Vec<char> = Vec::new();
        append_str(&mut name, "colors.");
        append_str(&mut name, k);
        let mut e: Vec<char> = Vec::new();
        push_entry(&mut e, &name, line);
        let ghost before = views(entries@);
        entries.push(e);
        assert(views(entries@) =~= before.push(e@));
        j = j + 1;
        assert(want.take(n + j) =~= before.push(e@));
    }
    assert(want.take(n + metadata.colors.unknown@.len()) =~= want);
    if entries.len() == 0 {
        return None;
    }
    let mut out: Vec<char> = Vec::new();
    append_str(&mut out, "unknown frontmatter key");
    if entries.len() > 1 {
        append_str(&mut out, "s");
    }
    append_str(&mut out, " ");
    let ghost start = out@;
    let mut k: usize = 0;
    while k < entries.len()
        invariant
            k <= entries@.len(),
            views(entries@) == want,
            out@ == start + joined(want.take(k as int), ", "@),
        decreases entries@.len() - k,
    {
        assert(want.take(k + 1).drop_last() =~= want.take(k as int));
        if k > 0 {
            append_str(&mut out, ", ");
        }
        crate::text::extend_chars(&mut out, &entries[k]);
        k = k + 1;
        assert(out@ =~= start + joined(want.take(k as int), ", "@));
    }
    assert(want.take(entries@.len() as int) =~= want);
    append_str(&mut out, " (valid keys: ");
    push_joined(&mut out, &KNOWN_KEYS);
    append_str(&mut out, "; colors: ");
    push_joined(&mut out, &KNOWN_COLOR_KEYS);
    append_str(&mut out, ")");
    Some(string_of(out.as_slice()))
}

} // verus!
