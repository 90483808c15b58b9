//! Tap or hold: what an edge of the dictate or the paste key does.
//!
//! Times are nanoseconds on a clock that never runs backwards. A platform may
//! repeat a held key as a release and a press a few milliseconds apart, and may
//! report a release while the key is still down, so a release counts only once
//! a short wait has passed without a press.

use vstd::prelude::*;

verus! {

/// Hold this long, from press to release, to make the press push-to-talk.
pub const HOLD_MS: u64 = 400;

/// A release and a press of one key within this window are one repeat of a key
/// that is still down.
pub const REPEAT_MS: u64 = 50;

/// Nanoseconds in a millisecond.
pub const NS_PER_MS: u64 = 1_000_000;

/// What a press should do.
#[derive(Clone, Copy, PartialEq, Eq, Structural, Debug)]
pub enum PressAction {
    /// A repeat of a key that is down: nothing.
    Swallow,
    /// A real press: run the key's action.
    Dispatch,
}

/// What a release should do once the wait behind it is over.
#[derive(Clone, Copy, PartialEq, Eq, Structural, Debug)]
pub enum ReleaseAction {
    /// Nothing: a tap, a repeat, a press that started nothing, or a take that
    /// has ended meanwhile.
    Inert,
    /// The end of a hold that started the running take: run the key's action
    /// again to finish it.
    Finish,
}

/// A release, as it was when it arrived.
#[derive(Clone, Copy, PartialEq, Eq, Structural, Debug)]
pub struct PendingRelease {
    /// The number of presses seen before it.
    pub generation: u64,
    /// Whether the press that it ends lasted long enough to be a hold.
    pub held: bool,
    /// Whether that press started a take.
    pub starts_take: bool,
}

/// The tap-or-hold state of one key.
#[derive(Clone, Copy, PartialEq, Eq, Structural, Debug)]
pub struct HoldCore {
    /// When the press that is down began; `None` while the key is up.
    pub press_at: Option<u64>,
    /// Whether that press started the recording. Only such a press may finish
    /// the take by its release.
    pub starts_take: bool,
    /// The number of presses so far: a release whose number is no longer the
    /// current one has been taken back by a press.
    pub generation: u64,
    /// When the last release arrived.
    pub release_at: Option<u64>,
    /// When the last take-starting press began whose release was believed while
    /// its recording went on. If the key turns out to be still down, that press
    /// comes back to life.
    pub resurrect: Option<u64>,
}

/// The time from `earlier` to `now`, none where `earlier` is not earlier.
pub open spec fn since(now: u64, earlier: u64) -> int {
    if now >= earlier {
        now - earlier
    } else {
        0
    }
}

impl HoldCore {
    /// Whether a press at `now` comes so soon behind a release that the two are
    /// one repeat of a key that is down.
    pub open spec fn repeat_shaped(self, now: u64) -> bool {
        self.release_at matches Some(t) && since(now, t) <= REPEAT_MS * NS_PER_MS
    }

    /// What a press at `now` does.
    pub open spec fn press_action(self, now: u64) -> PressAction {
        if self.repeat_shaped(now) {
            PressAction::Swallow
        } else {
            PressAction::Dispatch
        }
    }

    /// The state behind a press at `now`. A repeat keeps the press that is down,
    /// or brings the remembered one back; any other press is a fresh one.
    pub open spec fn after_press(self, now: u64, starts_take: bool) -> HoldCore {
        let counted = HoldCore { generation: (self.generation + 1) as u64, ..self };
        if !self.repeat_shaped(now) {
            HoldCore { press_at: Some(now), starts_take, resurrect: None, ..counted }
        } else if self.press_at is None && self.resurrect is Some {
            HoldCore { press_at: self.resurrect, starts_take: true, ..counted }
        } else {
            counted
        }
    }

    /// The state behind a release at `now`.
    pub open spec fn after_release(self, now: u64) -> HoldCore {
        HoldCore { release_at: Some(now), ..self }
    }

    /// What a release at `now` leaves to be decided: nothing where no press is
    /// down.
    pub open spec fn pending(self, now: u64) -> Option<PendingRelease> {
        match self.press_at {
            Some(at) => Some(
                PendingRelease {
                    generation: self.generation,
                    held: since(now, at) >= HOLD_MS * NS_PER_MS,
                    starts_take: self.starts_take,
                },
            ),
            None => None,
        }
    }

    /// What the release `pending` does, decided now.
    pub open spec fn release_action(self, pending: PendingRelease, recording: bool) -> ReleaseAction {
        if self.generation == pending.generation && pending.held && pending.starts_take
            && recording {
            ReleaseAction::Finish
        } else {
            ReleaseAction::Inert
        }
    }

    /// The state once the release `pending` is decided. A press since then takes
    /// it back; otherwise the key is up, and a take-starting press that leaves
    /// its recording running is remembered.
    pub open spec fn after_resolve(self, pending: PendingRelease, recording: bool) -> HoldCore {
        if self.generation != pending.generation {
            self
        } else {
            HoldCore {
                press_at: None,
                resurrect: if !pending.held && pending.starts_take && recording {
                    self.press_at
                } else {
                    None
                },
                ..self
            }
        }
    }

    /// A press arrived at `now`. `starts_take` says whether running the key's
    /// action right now would start a recording.
    pub fn press(&mut self, now: u64, starts_take: bool) -> (action: PressAction)
        requires
            old(self).generation < u64::MAX,
        ensures
            action == old(self).press_action(now),
            *final(self) == old(self).after_press(now, starts_take),
    {
        self.generation = self.generation + 1;
        let repeat_shaped = match self.release_at {
            Some(t) => now.saturating_sub(t) <= REPEAT_MS * NS_PER_MS,
            None => false,
        };
        if self.press_at.is_some() {
            if repeat_shaped {
                return PressAction::Swallow;
            }
        } else if repeat_shaped {
            if let Some(press_at) = self.resurrect {
                self.press_at = Some(press_at);
                self.starts_take = true;
            }
            return PressAction::Swallow;
        }
        self.press_at = Some(now);
        self.starts_take = starts_take;
        self.resurrect = None;
        PressAction::Dispatch
    }

    /// A release arrived at `now`: what is left to be decided about it once
    /// [`REPEAT_MS`] have passed, nothing where no press was down.
    pub fn release(&mut self, now: u64) -> (r: Option<PendingRelease>)
        ensures
            r == old(self).pending(now),
            *final(self) == old(self).after_release(now),
    {
        self.release_at = Some(now);
        match self.press_at {
            Some(at) => Some(
                PendingRelease {
                    generation: self.generation,
                    held: now.saturating_sub(at) >= HOLD_MS * NS_PER_MS,
                    starts_take: self.starts_take,
                },
            ),
            None => None,
        }
    }

    /// [`REPEAT_MS`] behind a release: believe it, unless a press took it back,
    /// and decide whether it finishes the take. `recording` is whether a take is
    /// running now.
    pub fn resolve(&mut self, pending: &PendingRelease, recording: bool) -> (action: ReleaseAction)
        ensures
            action == old(self).release_action(*pending, recording),
            *final(self) == old(self).after_resolve(*pending, recording),
    {
        if self.generation != pending.generation {
            return ReleaseAction::Inert;
        }
        let press_at = self.press_at;
        self.press_at = None;
        if pending.held && pending.starts_take && recording {
            self.resurrect = None;
            ReleaseAction::Finish
        } else {
            self.resurrect = if pending.starts_take && recording {
                press_at
            } else {
                None
            };
            ReleaseAction::Inert
        }
    }
}

impl Default for HoldCore {
    /// A key that has never been pressed.
    fn default() -> (r: HoldCore)
        ensures
            r == (HoldCore {
                press_at: None,
                starts_take: false,
                generation: 0,
                release_at: None,
                resurrect: None,
            }),
    {
        HoldCore {
            press_at: None,
            starts_take: false,
            generation: 0,
            release_at: None,
            resurrect: None,
        }
    }
}

// ---- laws -------------------------------------------------------------------

/// A release taken back by a press does nothing, whatever happened between: one
/// repeat of a key that is down never ends the take.
pub proof fn law_repeat_never_finishes(
    core: HoldCore,
    released: u64,
    pressed: u64,
    starts_take: bool,
    recording: bool,
)
    requires
        core.generation < u64::MAX,
        core.press_at is Some,
        released <= pressed <= released + REPEAT_MS * NS_PER_MS,
    ensures
        ({
            let p = core.pending(released);
            let repeated = core.after_release(released).after_press(pressed, starts_take);
            &&& p is Some
            &&& core.after_release(released).press_action(pressed) == PressAction::Swallow
            &&& repeated.release_action(p->0, recording) == ReleaseAction::Inert
            &&& repeated.after_resolve(p->0, recording) == repeated
            &&& repeated.press_at == core.press_at
            &&& repeated.starts_take == core.starts_take
        }),
{
}

/// A press hard behind a release never runs the action.
pub proof fn law_repeat_shaped_press_never_dispatches(core: HoldCore, released: u64, pressed: u64)
    requires
        released <= pressed <= released + REPEAT_MS * NS_PER_MS,
    ensures
        core.after_release(released).press_action(pressed) == PressAction::Swallow,
{
}

/// The release of a press finishes the take exactly where that press lasted
/// long enough, started the take, and the take still runs.
pub proof fn law_hold_finishes_what_it_started(
    core: HoldCore,
    pressed: u64,
    starts_take: bool,
    released: u64,
    recording: bool,
)
    requires
        core.generation < u64::MAX,
        core.press_action(pressed) == PressAction::Dispatch,
        pressed <= released,
    ensures
        ({
            let down = core.after_press(pressed, starts_take);
            let p = down.pending(released);
            let up = down.after_release(released);
            &&& p is Some
            &&& (up.release_action(p->0, recording) == ReleaseAction::Finish <==> {
                &&& released - pressed >= HOLD_MS * NS_PER_MS
                &&& starts_take
                &&& recording
            })
            &&& up.after_resolve(p->0, recording).press_at is None
        }),
{
}

/// A hold whose early release was false survives: the next repeat of the key,
/// though no press is down, runs nothing, and the release that follows it is
/// measured from the first press.
pub proof fn law_false_release_is_survived(
    core: HoldCore,
    pressed: u64,
    released: u64,
    repeat_released: u64,
    repeat_pressed: u64,
    let_go: u64,
)
    requires
        core.generation < u64::MAX - 1,
        core.press_action(pressed) == PressAction::Dispatch,
        pressed <= released,
        released - pressed < HOLD_MS * NS_PER_MS,
        released <= repeat_released <= repeat_pressed,
        repeat_pressed <= repeat_released + REPEAT_MS * NS_PER_MS,
        pressed + HOLD_MS * NS_PER_MS <= let_go,
    ensures
        ({
            let down = core.after_press(pressed, true);
            let believed = down.after_release(released).after_resolve(
                down.pending(released)->0,
                true,
            );
            let repeating = believed.after_release(repeat_released);
            let revived = repeating.after_press(repeat_pressed, false);
            &&& believed.pending(repeat_released) is None
            &&& repeating.press_action(repeat_pressed) == PressAction::Swallow
            &&& revived.press_at == Some(pressed)
            &&& revived.pending(let_go) matches Some(p) && revived.after_release(
                let_go,
            ).release_action(p, true) == ReleaseAction::Finish
        }),
{
}

/// On a platform that never reports a release, every press runs the action.
pub proof fn law_without_releases_every_press_dispatches(
    core: HoldCore,
    now: u64,
    starts_take: bool,
)
    requires
        core.release_at is None,
    ensures
        core.press_action(now) == PressAction::Dispatch,
        core.after_press(now, starts_take).release_at is None,
{
}

/// A believed release after which nothing records leaves nothing to come back.
pub proof fn law_nothing_comes_back_without_a_take(core: HoldCore, pending: PendingRelease)
    requires
        core.generation == pending.generation,
    ensures
        core.after_resolve(pending, false).resurrect is None,
        core.after_resolve(pending, false).press_at is None,
{
}

/// A key is held from four tenths of a second on, and a press within a twentieth of a
/// second behind a release is a repeat.
pub proof fn law_how_long_is_held(core: HoldCore, pressed: u64, released: u64, again: u64)
    requires
        core.press_at == Some(pressed),
        pressed <= released <= again,
    ensures
        core.pending(released) matches Some(p) && (p.held <==> released - pressed >= 400_000_000)
            && p.starts_take == core.starts_take && p.generation == core.generation,
        core.after_release(released).press_action(again) == PressAction::Swallow <==> again - released
            <= 50_000_000,
{
}

/// A first press always runs the action.
pub proof fn law_a_first_press_dispatches(core: HoldCore, now: u64, starts_take: bool)
    requires
        core.release_at is None,
        core.generation < u64::MAX,
    ensures
        core.press_action(now) == PressAction::Dispatch,
        core.after_press(now, starts_take).press_at == Some(now),
        core.after_press(now, starts_take).starts_take == starts_take,
        core.after_press(now, starts_take).generation == core.generation + 1,
{
}

} // verus!
