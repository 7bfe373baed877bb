//! The presentation player's decisions: which slide shows, the outline
//! cursor, the speaker's line highlight, the help overlay, and the phases
//! of a slide transition. The terminal, the clock and the animations stay
//! with the caller, which reports key presses and finished animations
//! and reads the resulting state back.
use vstd::prelude::*;

use crate::markdown::metadata::Transition;
use crate::render::slide::{ColumnModel, ColumnSpan};

verus! {

/// What the player is showing.
#[derive(Debug, Clone, Copy, PartialEq, Eq, Structural)]
pub enum Mode {
    /// The slides themselves.
    Slides,
    /// The list of all slides.
    Outline,
}

/// A key, as far as the player tells keys apart.
#[derive(Debug, Clone, Copy, PartialEq, Eq, Structural)]
pub enum Key {
    Char(char),
    Left,
    Right,
    Up,
    Down,
    PageUp,
    PageDown,
    Home,
    End,
    Enter,
    Backspace,
    Esc,
    Tab,
    Other,
}

/// A key press: the key and whether Control was held.
#[derive(Debug, Clone, Copy, PartialEq, Eq, Structural)]
pub struct KeyPress {
    pub key: Key,
    pub ctrl: bool,
}

/// What the caller must do after a key press.
#[derive(Debug, Clone, Copy, PartialEq, Eq, Structural)]
pub enum KeyAction {
    /// Nothing beyond redrawing.
    Continue,
    /// Leave the player.
    Quit,
    /// Re-read the presentation file.
    Reload,
}

/// The player's state.
#[derive(Debug, Clone, Copy)]
pub struct Player {
    /// How many slides the deck has (at least one).
    pub slide_count: usize,
    /// The slide being shown (or entering).
    pub current: usize,
    pub mode: Mode,
    /// The outline cursor (a slide index).
    pub selected: usize,
    /// The slide number being typed in the outline (1-based).
    pub outline_input: Option<usize>,
    /// Whether the help overlay is up.
    pub help: bool,
    /// The speaker's line highlight: a column, and an index into that
    /// column's rows with visible content.
    pub highlight: Option<(usize, usize)>,
    /// Whether the caller should hand the terminal to a shell.
    pub shell_requested: bool,
    /// How slides change.
    pub transition: Transition,
    /// The slide whose exit animation is still playing.
    pub outgoing: Option<usize>,
    /// Whether the current slide's enter animation is playing.
    pub entering: bool,
    /// Whether an enter animation waits for the exit to finish.
    pub pending_enter: bool,
    /// Whether the last slide change went forward.
    pub forward: bool,
    /// How many slide changes there have been (wrapping); the caller
    /// starts the animations a change calls for when this moves.
    pub changes: u64,
}

/// Whether a transition animates the incoming slide.
pub open spec fn has_enter(t: Transition) -> bool {
    t != Transition::Instant
}

/// Whether a transition animates the outgoing slide (only the push).
pub open spec fn has_exit(t: Transition) -> bool {
    t == Transition::Slide
}

/// The state the player keeps consistent: a non-empty deck, and every
/// slide index within it.
pub open spec fn wf(p: Player) -> bool {
    &&& p.slide_count >= 1
    &&& p.current < p.slide_count
    &&& p.selected < p.slide_count
    &&& (p.outgoing matches Some(o) ==> o < p.slide_count)
}

/// Show slide `index` (clamped to the last): a real change drops the
/// highlight and starts the transition, with the exit phase first when
/// the transition has one and no exit is already playing (navigating
/// again mid-animation skips the exit so rapid presses stay snappy).
pub open spec fn spec_goto(p: Player, index: int) -> Player {
    let last = p.slide_count - 1;
    let i = if index < last {
        index
    } else {
        last
    };
    if i == p.current {
        p
    } else {
        let forward = i > p.current;
        let moved = Player {
            current: i as usize,
            highlight: None,
            forward,
            changes: vstd::wrapping::u64_specs::wrapping_add(p.changes, 1),
            ..p
        };
        if has_exit(p.transition) && p.outgoing is None {
            Player {
                outgoing: Some(p.current),
                entering: false,
                pending_enter: has_enter(p.transition),
                ..moved
            }
        } else {
            Player { outgoing: None, entering: has_enter(p.transition), pending_enter: false, ..moved }
        }
    }
}

/// The first column at or after `i` with a row to highlight.
pub open spec fn first_nonempty_from(cols: Seq<ColumnModel>, i: int) -> Option<int>
    decreases cols.len() - i,
{
    if i < 0 || i >= cols.len() {
        None
    } else if cols[i].non_blank.len() > 0 {
        Some(i)
    } else {
        first_nonempty_from(cols, i + 1)
    }
}

/// The last column before `i` with a row to highlight.
pub open spec fn last_nonempty_before(cols: Seq<ColumnModel>, i: int) -> Option<int>
    decreases i,
{
    if i <= 0 || i > cols.len() {
        None
    } else if cols[i - 1].non_blank.len() > 0 {
        Some(i - 1)
    } else {
        last_nonempty_before(cols, i - 1)
    }
}

pub proof fn lemma_first_nonempty(cols: Seq<ColumnModel>, i: int)
    ensures
        first_nonempty_from(cols, i) matches Some(c) ==> i <= c < cols.len() && cols[c].non_blank.len() > 0,
    decreases cols.len() - i,
{
    if 0 <= i < cols.len() && cols[i].non_blank.len() == 0 {
        lemma_first_nonempty(cols, i + 1);
    }
}

pub proof fn lemma_last_nonempty(cols: Seq<ColumnModel>, i: int)
    ensures
        last_nonempty_before(cols, i) matches Some(c) ==> 0 <= c < i && c < cols.len() && cols[c].non_blank.len() > 0,
    decreases i,
{
    if 0 < i <= cols.len() && cols[i - 1].non_blank.len() == 0 {
        lemma_last_nonempty(cols, i - 1);
    }
}

/// Move the highlight down or up within its column (clamped to its
/// rows). With no highlight, down starts at the first row of the first
/// highlightable column, up at its last row.
pub open spec fn spec_highlight_move(p: Player, down: bool, cols: Seq<ColumnModel>) -> Player {
    match p.highlight {
        Some((col, pos)) => if col < cols.len() && cols[col as int].non_blank.len() > 0 {
            let count = cols[col as int].non_blank.len();
            let moved = if down {
                pos + 1
            } else if pos > 0 {
                pos - 1
            } else {
                0
            };
            let clamped = if moved < count - 1 {
                moved
            } else {
                count - 1
            };
            Player { highlight: Some((col, clamped as usize)), ..p }
        } else {
            p
        },
        None => match first_nonempty_from(cols, 0) {
            Some(c) => Player {
                highlight: Some(
                    (
                        c as usize,
                        if down {
                            0usize
                        } else {
                            (cols[c].non_blank.len() - 1) as usize
                        },
                    ),
                ),
                ..p
            },
            None => p,
        },
    }
}

/// Right or left: while highlighting, move to the first row of the next
/// or previous column that has rows; past the slide's edge (or with no
/// highlight) change slides instead.
pub open spec fn spec_highlight_sideways(p: Player, right: bool, cols: Seq<ColumnModel>) -> Player {
    match sideways_next(p.highlight, right, cols) {
        Some(n) => Player { highlight: Some((n as usize, 0usize)), ..p },
        None => if right {
            spec_goto(p, p.current + 1)
        } else {
            spec_goto(
                p,
                if p.current > 0 {
                    p.current - 1
                } else {
                    0
                },
            )
        },
    }
}

/// The column a sideways move lands on while highlighting: the next
/// (right) or previous column that has rows.
pub open spec fn sideways_next(h: Option<(usize, usize)>, right: bool, cols: Seq<ColumnModel>) -> Option<int> {
    match h {
        Some((col, _)) => if right {
            first_nonempty_from(cols, col + 1)
        } else {
            last_nonempty_before(cols, col as int)
        },
        None => None,
    }
}

/// `x`, capped at `usize::MAX`.
pub open spec fn sat(x: int) -> int {
    if x > usize::MAX {
        usize::MAX as int
    } else {
        x
    }
}

/// A key in the outline: digits type a slide number and select it as
/// they arrive; arrows and home/end move the cursor; enter jumps; esc
/// clears a typed number first and leaves the outline second.
pub open spec fn spec_outline_key(p: Player, key: Key) -> Player {
    let last = p.slide_count - 1;
    match key {
        Key::Char(c) if '0' <= c && c <= '9' => {
            let d = c as int - '0' as int;
            let prev = match p.outline_input {
                Some(n) => n as int,
                None => 0,
            };
            let n = sat(sat(prev * 10) + d);
            if n > 0 {
                Player {
                    outline_input: Some(n as usize),
                    selected: ((if n < last + 1 {
                        n
                    } else {
                        last + 1
                    }) - 1) as usize,
                    ..p
                }
            } else {
                p
            }
        },
        Key::Down | Key::Char('j') => Player {
            outline_input: None,
            selected: (if p.selected + 1 < last {
                p.selected + 1
            } else {
                last
            }) as usize,
            ..p
        },
        Key::Up | Key::Char('k') => Player {
            outline_input: None,
            selected: (if p.selected > 0 {
                p.selected - 1
            } else {
                0
            }) as usize,
            ..p
        },
        Key::Home | Key::Char('g') => Player { outline_input: None, selected: 0, ..p },
        Key::End | Key::Char('G') => Player { outline_input: None, selected: last as usize, ..p },
        Key::Enter | Key::Char(' ') => spec_goto(
            Player { outline_input: None, mode: Mode::Slides, ..p },
            p.selected as int,
        ),
        Key::Esc if p.outline_input is Some => Player { outline_input: None, ..p },
        Key::Esc | Key::Char('o') => Player { outline_input: None, mode: Mode::Slides, ..p },
        _ => p,
    }
}

/// A key while slides show: right/left move sideways, page keys, enter,
/// space and `n`/`p` change slides, down/up move the highlight, home
/// and end jump to the first and last slide, esc clears the highlight,
/// and `o` opens the outline on the current slide.
pub open spec fn spec_slides_key(p: Player, key: Key, cols: Seq<ColumnModel>) -> Player {
    match key {
        Key::Right | Key::Char('l') => spec_highlight_sideways(p, true, cols),
        Key::Left | Key::Char('h') => spec_highlight_sideways(p, false, cols),
        Key::PageDown | Key::Enter | Key::Char(' ') | Key::Char('n') => spec_goto(p, p.current + 1),
        Key::PageUp | Key::Backspace | Key::Char('p') => spec_goto(
            p,
            if p.current > 0 {
                p.current - 1
            } else {
                0
            },
        ),
        Key::Down | Key::Char('j') => spec_highlight_move(p, true, cols),
        Key::Up | Key::Char('k') => spec_highlight_move(p, false, cols),
        Key::Home | Key::Char('g') => spec_goto(p, 0),
        Key::End | Key::Char('G') => spec_goto(p, usize::MAX as int),
        Key::Esc => Player { highlight: None, ..p },
        Key::Char('o') => Player { selected: p.current, mode: Mode::Outline, ..p },
        _ => p,
    }
}

/// A key press: control-c quits anywhere; any key closes the help
/// overlay (and does nothing else); `q` quits, `?` opens help, `r`
/// reloads and `!` asks for a shell in every mode; other keys go to the
/// mode.
pub open spec fn spec_key(p: Player, k: KeyPress, cols: Seq<ColumnModel>) -> (Player, KeyAction) {
    if k.key == Key::Char('c') && k.ctrl {
        (p, KeyAction::Quit)
    } else if p.help {
        (Player { help: false, ..p }, KeyAction::Continue)
    } else {
        match k.key {
            Key::Char('q') => (p, KeyAction::Quit),
            Key::Char('?') => (Player { help: true, ..p }, KeyAction::Continue),
            Key::Char('r') => (p, KeyAction::Reload),
            Key::Char('!') => (Player { shell_requested: true, ..p }, KeyAction::Continue),
            _ => match p.mode {
                Mode::Slides => (spec_slides_key(p, k.key, cols), KeyAction::Continue),
                Mode::Outline => (spec_outline_key(p, k.key), KeyAction::Continue),
            },
        }
    }
}

/// The column models of rendered column spans.
pub open spec fn column_models(c: Seq<ColumnSpan>) -> Seq<ColumnModel> {
    c.map_values(|x: ColumnSpan| x@)
}

impl Player {
    /// A player for a deck of `slide_count` slides, starting on 1-based
    /// slide `start_slide` (0 and 1 both mean the first; past the end
    /// means the last).
    pub fn new(slide_count: usize, start_slide: usize, transition: Transition) -> (p: Player)
        requires
            slide_count >= 1,
        ensures
            wf(p),
            p.current == (if start_slide == 0 {
                0
            } else if start_slide - 1 < slide_count - 1 {
                start_slide - 1
            } else {
                slide_count - 1
            }),
            p.selected == p.current,
            p.mode == Mode::Slides,
            p.outline_input is None,
            !p.help,
            p.highlight is None,
            !p.shell_requested,
            p.transition == transition,
            p.outgoing is None,
            !p.entering,
            !p.pending_enter,
            p.slide_count == slide_count,
    {
        let last = slide_count - 1;
        let s = if start_slide == 0 {
            0
        } else {
            start_slide - 1
        };
        let current = if s < last {
            s
        } else {
            last
        };
        Player {
            slide_count,
            current,
            mode: Mode::Slides,
            selected: current,
            outline_input: None,
            help: false,
            highlight: None,
            shell_requested: false,
            transition,
            outgoing: None,
            entering: false,
            pending_enter: false,
            forward: true,
            changes: 0,
        }
    }

    /// Show slide `index`, clamped to the last slide.
    pub fn goto(&mut self, index: usize)
        requires
            wf(*old(self)),
        ensures
            *final(self) == spec_goto(*old(self), index as int),
            wf(*final(self)),
    {
        let last = self.slide_count - 1;
        let i = if index < last {
            index
        } else {
            last
        };
        if i != self.current {
            let forward = i > self.current;
            let old = self.current;
            self.current = i;
            self.highlight = None;
            self.forward = forward;
            self.changes = self.changes.wrapping_add(1);
            if self.transition == Transition::Slide && self.outgoing.is_none() {
                self.outgoing = Some(old);
                self.entering = false;
                self.pending_enter = self.transition != Transition::Instant;
            } else {
                self.outgoing = None;
                self.entering = self.transition != Transition::Instant;
                self.pending_enter = false;
            }
        }
    }

    /// The first column from `i` on with rows to highlight.
    fn first_nonempty(cols: &Vec<ColumnSpan>, i: usize) -> (r: Option<usize>)
        ensures
            match r {
                Some(c) => first_nonempty_from(column_models(cols@), i as int) == Some(c as int) && c < cols@.len(),
                None => first_nonempty_from(column_models(cols@), i as int) is None,
            },
    {
        let ghost m = column_models(cols@);
        let mut c = i;
        while c < cols.len()
            invariant
                i <= c,
                m == column_models(cols@),
                first_nonempty_from(m, i as int) == first_nonempty_from(m, c as int),
            decreases cols@.len() - c,
        {
            assert(m[c as int] == cols@[c as int]@);
            if cols[c].non_blank.len() > 0 {
                return Some(c);
            }
            c = c + 1;
        }
        None
    }

    /// The last column before `i` with rows to highlight.
    fn last_nonempty(cols: &Vec<ColumnSpan>, i: usize) -> (r: Option<usize>)
        requires
            i <= cols@.len(),
        ensures
            match r {
                Some(c) => last_nonempty_before(column_models(cols@), i as int) == Some(c as int) && c < cols@.len(),
                None => last_nonempty_before(column_models(cols@), i as int) is None,
            },
    {
        let ghost m = column_models(cols@);
        let mut c = i;
        while c > 0
            invariant
                c <= i <= cols@.len(),
                m == column_models(cols@),
                last_nonempty_before(m, i as int) == last_nonempty_before(m, c as int),
            decreases c,
        {
            assert(m[c - 1] == cols@[c - 1]@);
            if cols[c - 1].non_blank.len() > 0 {
                return Some(c - 1);
            }
            c = c - 1;
        }
        None
    }

    /// Move the highlight down or up within its column.
    pub fn highlight_move(&mut self, down: bool, cols: &Vec<ColumnSpan>)
        requires
            wf(*old(self)),
        ensures
            *final(self) == spec_highlight_move(*old(self), down, column_models(cols@)),
            wf(*final(self)),
    {
        let ghost m = column_models(cols@);
        match self.highlight {
            Some((col, pos)) => {
                if col < cols.len() {
                    assert(m[col as int] == cols@[col as int]@);
                    let count = cols[col].non_blank.len();
                    if count > 0 {
                        let moved = if down {
                            pos.saturating_add(1)
                        } else if pos > 0 {
                            pos - 1
                        } else {
                            0
                        };
                        let clamped = if moved < count - 1 {
                            moved
                        } else {
                            count - 1
                        };
                        self.highlight = Some((col, clamped));
                    }
                }
            },
            None => {
                proof {
                    lemma_first_nonempty(m, 0);
                }
                match Self::first_nonempty(cols, 0) {
                    Some(c) => {
                        assert(m[c as int] == cols@[c as int]@);
                        assert(cols@[c as int]@.non_blank.len() == cols@[c as int].non_blank@.len());
                        let last = cols[c].non_blank.len() - 1;
                        self.highlight = Some((c, if down { 0 } else { last }));
                    },
                    None => {},
                }
            },
        }
    }

    /// The column a sideways move lands on while highlighting.
    fn sideways_target(h: Option<(usize, usize)>, right: bool, cols: &Vec<ColumnSpan>) -> (r: Option<usize>)
        ensures
            match r {
                Some(n) => sideways_next(h, right, column_models(cols@)) == Some(n as int),
                None => sideways_next(h, right, column_models(cols@)) is None,
            },
    {
        match h {
            Some((col, _)) => {
                if right {
                    if col < usize::MAX {
                        Self::first_nonempty(cols, col + 1)
                    } else {
                        assert(cols@.len() == cols.len());
                        None
                    }
                } else if col <= cols.len() {
                    Self::last_nonempty(cols, col)
                } else {
                    None
                }
            },
            None => None,
        }
    }

    /// Move the highlight to the next (right) or previous column with
    /// rows, or change slides past the edge.
    pub fn highlight_sideways(&mut self, right: bool, cols: &Vec<ColumnSpan>)
        requires
            wf(*old(self)),
        ensures
            *final(self) == spec_highlight_sideways(*old(self), right, column_models(cols@)),
            wf(*final(self)),
    {
        let next = Self::sideways_target(self.highlight, right, cols);
        match next {
            Some(n) => {
                self.highlight = Some((n, 0));
            },
            None => {
                if right {
                    let target = self.current + 1;
                    self.goto(target);
                } else {
                    let target = if self.current > 0 {
                        self.current - 1
                    } else {
                        0
                    };
                    self.goto(target);
                }
            },
        }
    }

    /// A digit typed in the outline.
    fn type_digit(&mut self, c: char)
        requires
            wf(*old(self)),
            '0' <= c <= '9',
        ensures
            *final(self) == spec_outline_key(*old(self), Key::Char(c)),
            wf(*final(self)),
    {
        let last = self.slide_count - 1;
        let d = (c as u32 - '0' as u32) as usize;
        let prev = match self.outline_input {
            Some(n) => n,
            None => 0,
        };
        let n = prev.checked_mul(10).unwrap_or(usize::MAX).saturating_add(d);
        if n > 0 {
            self.outline_input = Some(n);
            self.selected = (if n < last + 1 {
                n
            } else {
                last + 1
            }) - 1;
        }
    }

    /// A key in the outline.
    #[verifier::rlimit(40)]
    fn outline_key(&mut self, key: Key)
        requires
            wf(*old(self)),
        ensures
            *final(self) == spec_outline_key(*old(self), key),
            wf(*final(self)),
    {
        let last = self.slide_count - 1;
        match key {
            Key::Char(c) if '0' <= c && c <= '9' => {
                self.type_digit(c);
            },
            Key::Down | Key::Char('j') => {
                self.outline_input = None;
                self.selected = if self.selected + 1 < last {
                    self.selected + 1
                } else {
                    last
                };
            },
            Key::Up | Key::Char('k') => {
                self.outline_input = None;
                self.selected = if self.selected > 0 {
                    self.selected - 1
                } else {
                    0
                };
            },
            Key::Home | Key::Char('g') => {
                self.outline_input = None;
                self.selected = 0;
            },
            Key::End | Key::Char('G') => {
                self.outline_input = None;
                self.selected = last;
            },
            Key::Enter | Key::Char(' ') => {
                self.outline_input = None;
                self.mode = Mode::Slides;
                let target = self.selected;
                self.goto(target);
            },
            Key::Esc if self.outline_input.is_some() => {
                self.outline_input = None;
            },
            Key::Esc | Key::Char('o') => {
                self.outline_input = None;
                self.mode = Mode::Slides;
            },
            _ => {},
        }
    }

    /// A key while slides show.
    fn slides_key(&mut self, key: Key, cols: &Vec<ColumnSpan>)
        requires
            wf(*old(self)),
        ensures
            *final(self) == spec_slides_key(*old(self), key, column_models(cols@)),
            wf(*final(self)),
    {
        match key {
            Key::Right | Key::Char('l') => self.highlight_sideways(true, cols),
            Key::Left | Key::Char('h') => self.highlight_sideways(false, cols),
            Key::PageDown | Key::Enter | Key::Char(' ') | Key::Char('n') => {
                let target = self.current + 1;
                self.goto(target);
            },
            Key::PageUp | Key::Backspace | Key::Char('p') => {
                let target = if self.current > 0 {
                    self.current - 1
                } else {
                    0
                };
                self.goto(target);
            },
            Key::Down | Key::Char('j') => self.highlight_move(true, cols),
            Key::Up | Key::Char('k') => self.highlight_move(false, cols),
            Key::Home | Key::Char('g') => self.goto(0),
            Key::End | Key::Char('G') => self.goto(usize::MAX),
            Key::Esc => {
                self.highlight = None;
            },
            Key::Char('o') => {
                self.selected = self.current;
                self.mode = Mode::Outline;
            },
            _ => {},
        }
    }

    /// Handle a key press against the current slide's column geometry;
    /// the result says whether to quit or reload.
    pub fn handle_key(&mut self, k: KeyPress, cols: &Vec<ColumnSpan>) -> (r: KeyAction)
        requires
            wf(*old(self)),
        ensures
            (*final(self), r) == spec_key(*old(self), k, column_models(cols@)),
            wf(*final(self)),
    {
        if k.key == Key::Char('c') && k.ctrl {
            return KeyAction::Quit;
        }
        if self.help {
            self.help = false;
            return KeyAction::Continue;
        }
        match k.key {
            Key::Char('q') => KeyAction::Quit,
            Key::Char('?') => {
                self.help = true;
                KeyAction::Continue
            },
            Key::Char('r') => KeyAction::Reload,
            Key::Char('!') => {
                self.shell_requested = true;
                KeyAction::Continue
            },
            _ => {
                match self.mode {
                    Mode::Slides => self.slides_key(k.key, cols),
                    Mode::Outline => self.outline_key(k.key),
                }
                KeyAction::Continue
            },
        }
    }
}

/// The highlight checked against fresh geometry (after a resize or a
/// reload): kept, clamped to its column's rows, while its column has
/// rows; dropped otherwise.
pub open spec fn revalidated(h: Option<(usize, usize)>, cols: Seq<ColumnModel>) -> Option<(usize, usize)> {
    match h {
        Some((col, pos)) => if col < cols.len() && cols[col as int].non_blank.len() > 0 {
            let n = cols[col as int].non_blank.len();
            Some((col, if pos < n - 1 { pos } else { (n - 1) as usize }))
        } else {
            None
        },
        None => None,
    }
}

impl Player {
    /// The slide to draw: the outgoing one while its exit animation
    /// plays, else the current one.
    pub fn shown_slide(&self) -> (r: usize)
        ensures
            r == (match self.outgoing {
                Some(o) => o,
                None => self.current,
            }),
    {
        match self.outgoing {
            Some(o) => o,
            None => self.current,
        }
    }

    /// Check the highlight against the geometry about to be drawn.
    pub fn revalidate(&mut self, cols: &Vec<ColumnSpan>)
        requires
            wf(*old(self)),
        ensures
            *final(self) == (Player { highlight: revalidated(old(self).highlight, column_models(cols@)), ..*old(self) }),
            wf(*final(self)),
    {
        let ghost m = column_models(cols@);
        match self.highlight {
            Some((col, pos)) => {
                if col < cols.len() && cols[col].non_blank.len() > 0 {
                    assert(m[col as int] == cols@[col as int]@);
                    let n = cols[col].non_blank.len();
                    self.highlight = Some((col, if pos < n - 1 { pos } else { n - 1 }));
                } else {
                    proof {
                        if col < cols@.len() {
                            assert(m[col as int] == cols@[col as int]@);
                        }
                    }
                    self.highlight = None;
                }
            },
            None => {},
        }
    }

    /// The exit animation finished: the queued enter animation starts,
    /// and a highlight set meanwhile (on the old slide's geometry) goes.
    pub fn exit_finished(&mut self)
        requires
            wf(*old(self)),
        ensures
            *final(self) == (Player {
                outgoing: None,
                entering: old(self).pending_enter,
                pending_enter: false,
                highlight: None,
                ..*old(self)
            }),
            wf(*final(self)),
    {
        self.outgoing = None;
        self.entering = self.pending_enter;
        self.pending_enter = false;
        self.highlight = None;
    }

    /// The enter animation finished.
    pub fn enter_finished(&mut self)
        requires
            wf(*old(self)),
        ensures
            *final(self) == (Player { entering: false, ..*old(self) }),
            wf(*final(self)),
    {
        self.entering = false;
    }

    /// The deck was re-read and now has `slide_count` slides with the
    /// given transition: positions clamp to the new deck, and running
    /// animations and the highlight are dropped.
    pub fn reloaded(&mut self, slide_count: usize, transition: Transition)
        requires
            wf(*old(self)),
            slide_count >= 1,
        ensures
            final(self).slide_count == slide_count,
            final(self).current == (if old(self).current < slide_count - 1 { old(self).current } else { (slide_count - 1) as usize }),
            final(self).selected == (if old(self).selected < slide_count - 1 { old(self).selected } else { (slide_count - 1) as usize }),
            final(self).transition == transition,
            final(self).outgoing is None,
            !final(self).entering,
            !final(self).pending_enter,
            final(self).highlight is None,
            final(self).mode == old(self).mode,
            final(self).help == old(self).help,
            final(self).outline_input == old(self).outline_input,
            final(self).shell_requested == old(self).shell_requested,
            wf(*final(self)),
    {
        let last = slide_count - 1;
        self.slide_count = slide_count;
        self.current = if self.current < last {
            self.current
        } else {
            last
        };
        self.selected = if self.selected < last {
            self.selected
        } else {
            last
        };
        self.transition = transition;
        self.outgoing = None;
        self.entering = false;
        self.pending_enter = false;
        self.highlight = None;
    }

    /// The shell request was taken up.
    pub fn shell_started(&mut self)
        requires
            wf(*old(self)),
        ensures
            *final(self) == (Player { shell_requested: false, ..*old(self) }),
            wf(*final(self)),
    {
        self.shell_requested = false;
    }
}

// ---------------------------------------------------------------------
// Laws
/// A highlight that points at a row of the given geometry.
pub open spec fn highlight_fits(h: Option<(usize, usize)>, cols: Seq<ColumnModel>) -> bool {
    h matches Some((c, p)) ==> c < cols.len() && p < cols[c as int].non_blank.len()
}

/// Every key keeps the player consistent: the deck is never empty, and
/// the current slide and the outline cursor always lie within it.
pub proof fn law_keys_keep_positions_in_the_deck(p: Player, k: KeyPress, cols: Seq<ColumnModel>)
    requires
        wf(p),
    ensures
        wf(spec_key(p, k, cols).0),
{
    lemma_key_wf(p, k, cols);
}

proof fn lemma_goto_wf(p: Player, i: int)
    requires
        wf(p),
        i >= 0,
    ensures
        wf(spec_goto(p, i)),
        i >= 0 ==> spec_goto(p, i).current == (if i < p.slide_count - 1 { i } else { p.slide_count - 1 }),
{
}

proof fn lemma_key_wf(p: Player, k: KeyPress, cols: Seq<ColumnModel>)
    requires
        wf(p),
    ensures
        wf(spec_key(p, k, cols).0),
{
    lemma_goto_wf(p, p.current + 1);
    lemma_goto_wf(p, if p.current > 0 { p.current - 1 } else { 0 });
    lemma_goto_wf(p, 0);
    lemma_goto_wf(p, usize::MAX as int);
    lemma_goto_wf(Player { outline_input: None, mode: Mode::Slides, ..p }, p.selected as int);
}

/// Moving to another slide always drops the line highlight.
pub proof fn law_changing_slides_clears_the_highlight(p: Player, k: KeyPress, cols: Seq<ColumnModel>)
    requires
        wf(p),
        spec_key(p, k, cols).0.current != p.current,
    ensures
        spec_key(p, k, cols).0.highlight is None,
{
}

/// Going to a slide lands exactly on it, or on the last slide when it
/// is past the end.
pub proof fn law_goto_clamps_to_the_deck(p: Player, index: usize)
    requires
        wf(p),
    ensures
        spec_goto(p, index as int).current == (if index < p.slide_count - 1 { index as int } else { p.slide_count - 1 }),
{
    lemma_goto_wf(p, index as int);
}

/// While the help overlay is up, a key (other than control-c) only
/// closes it.
pub proof fn law_help_swallows_one_key(p: Player, k: KeyPress, cols: Seq<ColumnModel>)
    requires
        p.help,
        !(k.key == Key::Char('c') && k.ctrl),
    ensures
        spec_key(p, k, cols) == (Player { help: false, ..p }, KeyAction::Continue),
{
}

/// Only `o` opens the outline from the slides (escape and tab never do).
pub proof fn law_only_o_opens_the_outline(p: Player, k: KeyPress, cols: Seq<ColumnModel>)
    requires
        wf(p),
        p.mode == Mode::Slides,
        spec_key(p, k, cols).0.mode == Mode::Outline,
    ensures
        k.key == Key::Char('o'),
{
}

/// Moving the highlight up or down keeps it on a row of its column.
pub proof fn law_highlight_stays_on_a_row(p: Player, down: bool, cols: Seq<ColumnModel>)
    requires
        wf(p),
        highlight_fits(p.highlight, cols),
        cols.len() <= usize::MAX,
        forall|i: int| 0 <= i < cols.len() ==> (#[trigger] cols[i]).non_blank.len() <= usize::MAX,
    ensures
        highlight_fits(spec_highlight_move(p, down, cols).highlight, cols),
{
    lemma_first_nonempty(cols, 0);
    match p.highlight {
        Some((col, pos)) => {
            if col < cols.len() {
                assert(cols[col as int].non_blank.len() <= usize::MAX);
            }
        },
        None => {
            match first_nonempty_from(cols, 0) {
                Some(c) => {
                    assert(cols[c].non_blank.len() <= usize::MAX);
                },
                None => {},
            }
        },
    }
}

/// A slide number typed in the outline selects that slide, or the last
/// one when the number is past the end.
pub proof fn law_typed_number_selects_that_slide(p: Player, c: char)
    requires
        wf(p),
        p.outline_input is None,
        '1' <= c <= '9',
    ensures
        spec_outline_key(p, Key::Char(c)).selected == (if (c as int - '0' as int) < p.slide_count {
            (c as int - '0' as int) - 1
        } else {
            p.slide_count - 1
        }),
        spec_outline_key(p, Key::Char(c)).outline_input == Some((c as int - '0' as int) as usize),
{
}

/// Checking the highlight against geometry leaves it on a row of that
/// geometry (or drops it).
pub proof fn law_revalidated_highlight_fits(h: Option<(usize, usize)>, cols: Seq<ColumnModel>)
    requires
        forall|i: int| 0 <= i < cols.len() ==> (#[trigger] cols[i]).non_blank.len() <= usize::MAX,
    ensures
        highlight_fits(revalidated(h, cols), cols),
{
}

/// In the outline, up (or `k`) moves the cursor to the previous slide,
/// staying on the first; down (or `j`) moves it to the next, staying on
/// the last. Nothing else changes but that a typed number is dropped.
pub proof fn law_outline_cursor_steps_one_slide(p: Player, k: KeyPress, cols: Seq<ColumnModel>)
    requires
        wf(p),
        p.mode == Mode::Outline,
        !p.help,
        k.key == Key::Up || k.key == Key::Char('k') || k.key == Key::Down || k.key == Key::Char('j'),
    ensures
        ({
            let (q, action) = spec_key(p, k, cols);
            let up = k.key == Key::Up || k.key == Key::Char('k');
            &&& action == KeyAction::Continue
            &&& up && p.selected > 0 ==> q.selected + 1 == p.selected
            &&& up && p.selected == 0 ==> q.selected == 0
            &&& !up && p.selected + 1 < p.slide_count ==> q.selected == p.selected + 1
            &&& !up && p.selected + 1 >= p.slide_count ==> q.selected == p.slide_count - 1
            &&& q.outline_input is None
            &&& q.slide_count == p.slide_count && q.current == p.current && q.mode == p.mode
            &&& q.help == p.help && q.highlight == p.highlight && q.shell_requested == p.shell_requested
            &&& q.transition == p.transition && q.outgoing == p.outgoing && q.entering == p.entering
            &&& q.pending_enter == p.pending_enter && q.forward == p.forward && q.changes == p.changes
        }),
{
}

} // verus!
