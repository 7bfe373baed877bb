//! Which animation a [`Transition`] plays when the slide changes: the
//! effect, its direction, its length and its easing. The player draws
//! them with tachyonfx, filling with the background color.
use vstd::prelude::*;

use crate::markdown::metadata::Transition;
use crate::player::{has_enter, has_exit};

verus! {

/// The way cells travel across the screen.
#[derive(Debug, Clone, Copy, PartialEq, Eq, Structural)]
pub enum Motion {
    LeftToRight,
    RightToLeft,
}

/// The easing curve of an animation.
#[derive(Debug, Clone, Copy, PartialEq, Eq, Structural)]
pub enum Easing {
    SineIn,
    SineOut,
}

/// An animation on the slide area. Moving effects carry their motion,
/// the length of their soft edge in cells and their randomness.
#[derive(Debug, Clone, Copy, PartialEq, Eq, Structural)]
pub enum EffectKind {
    /// The slide slides in from the background.
    SlideIn { motion: Motion, gradient_length: u16, randomness: u16 },
    /// The slide slides out into the background.
    SlideOut { motion: Motion, gradient_length: u16, randomness: u16 },
    /// Characters dissolve into place.
    Coalesce,
    /// The slide fades in from the background color.
    FadeFromBackground,
    /// The slide is wiped in.
    SweepIn { motion: Motion, gradient_length: u16, randomness: u16 },
}

/// One animation: what it does, how long it takes and how it eases.
#[derive(Debug, Clone, Copy, PartialEq, Eq, Structural)]
pub struct EffectPlan {
    pub kind: EffectKind,
    pub millis: u32,
    pub easing: Easing,
}

/// Direction cells travel in a push transition: navigating forward pushes
/// content out the left edge, navigating back pushes it out the right.
pub open spec fn push_direction(forward: bool) -> Motion {
    if forward {
        Motion::RightToLeft
    } else {
        Motion::LeftToRight
    }
}

/// The animation of the incoming slide.
pub open spec fn enter_plan(t: Transition, forward: bool) -> Option<EffectPlan> {
    match t {
        Transition::Slide => Some(
            EffectPlan {
                kind: EffectKind::SlideIn { motion: push_direction(forward), gradient_length: 10, randomness: 0 },
                millis: 220,
                easing: Easing::SineOut,
            },
        ),
        Transition::Coalesce => Some(EffectPlan { kind: EffectKind::Coalesce, millis: 300, easing: Easing::SineOut }),
        Transition::Fade => Some(
            EffectPlan { kind: EffectKind::FadeFromBackground, millis: 300, easing: Easing::SineOut },
        ),
        Transition::Sweep => Some(
            EffectPlan {
                kind: EffectKind::SweepIn {
                    motion: if forward { Motion::LeftToRight } else { Motion::RightToLeft },
                    gradient_length: 10,
                    randomness: 0,
                },
                millis: 300,
                easing: Easing::SineOut,
            },
        ),
        Transition::Instant => None,
    }
}

/// The animation of the outgoing slide: only the push has one.
pub open spec fn exit_plan(t: Transition, forward: bool) -> Option<EffectPlan> {
    match t {
        Transition::Slide => Some(
            EffectPlan {
                kind: EffectKind::SlideOut { motion: push_direction(forward), gradient_length: 10, randomness: 0 },
                millis: 160,
                easing: Easing::SineIn,
            },
        ),
        _ => None,
    }
}

/// Direction cells travel in a push transition.
fn push_motion(forward: bool) -> (r: Motion)
    ensures
        r == push_direction(forward),
{
    if forward {
        Motion::RightToLeft
    } else {
        Motion::LeftToRight
    }
}

/// Effects for a slide change. Only some transitions animate the outgoing
/// slide.
pub trait TransitionEffects: Sized {
    /// Effect applied to the incoming slide.
    fn enter(self, forward: bool) -> Option<EffectPlan>;

    /// Effect applied to the outgoing slide before the new one enters.
    fn exit(self, forward: bool) -> Option<EffectPlan>;
}

impl TransitionEffects for Transition {
    fn enter(self, forward: bool) -> (r: Option<EffectPlan>)
        ensures
            r == enter_plan(self, forward),
    {
        match self {
            Transition::Slide => Some(
                EffectPlan {
                    kind: EffectKind::SlideIn { motion: push_motion(forward), gradient_length: 10, randomness: 0 },
                    millis: 220,
                    easing: Easing::SineOut,
                },
            ),
            Transition::Coalesce => Some(
                EffectPlan { kind: EffectKind::Coalesce, millis: 300, easing: Easing::SineOut },
            ),
            Transition::Fade => Some(
                EffectPlan { kind: EffectKind::FadeFromBackground, millis: 300, easing: Easing::SineOut },
            ),
            Transition::Sweep => {
                let motion = if forward {
                    Motion::LeftToRight
                } else {
                    Motion::RightToLeft
                };
                Some(
                    EffectPlan {
                        kind: EffectKind::SweepIn { motion, gradient_length: 10, randomness: 0 },
                        millis: 300,
                        easing: Easing::SineOut,
                    },
                )
            },
            Transition::Instant => None,
        }
    }

    fn exit(self, forward: bool) -> (r: Option<EffectPlan>)
        ensures
            r == exit_plan(self, forward),
    {
        match self {
            Transition::Slide => Some(
                EffectPlan {
                    kind: EffectKind::SlideOut { motion: push_motion(forward), gradient_length: 10, randomness: 0 },
                    millis: 160,
                    easing: Easing::SineIn,
                },
            ),
            _ => None,
        }
    }
}

/// A transition animates the incoming slide exactly when the player
/// waits for an enter phase, and the outgoing slide exactly when it
/// waits for an exit phase; a push leaves the way the next slide enters.
pub proof fn law_effects_match_player_phases(t: Transition, forward: bool)
    ensures
        enter_plan(t, forward) is Some <==> has_enter(t),
        exit_plan(t, forward) is Some <==> has_exit(t),
        t == Transition::Slide ==> (enter_plan(t, forward).unwrap().kind matches EffectKind::SlideIn { motion, .. }
            && exit_plan(t, forward).unwrap().kind == (EffectKind::SlideOut { motion, gradient_length: 10, randomness: 0 })),
{
}

} // verus!
