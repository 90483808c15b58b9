//! The panel key: a burst of presses folded into one window operation.
//!
//! Every press advances one cycle: a hidden panel is shown in front, a buried
//! one is brought to the front, the one in front is hidden.

use vstd::prelude::*;

verus! {

/// A request to the panel.
#[derive(Clone, Copy, PartialEq, Eq, Structural, Debug)]
pub enum PanelCmd {
    /// A press of the hotkey or a click in the tray: advance the cycle.
    Toggle,
    /// A second launch: always end visible and in front, never hide.
    Summon,
}

/// How the panel's window stands right before a burst is applied.
#[derive(Clone, Copy, PartialEq, Eq, Structural, Debug)]
pub enum PanelState {
    /// Not on the screen.
    Hidden,
    /// On the screen, but not the active window.
    Buried,
    /// On the screen and the active window.
    Focused,
}

/// What a burst comes down to.
#[derive(Clone, Copy, PartialEq, Eq, Structural, Debug)]
pub struct PanelPlan {
    /// `Some(true)` shows the window, `Some(false)` hides it, `None` leaves it.
    pub map: Option<bool>,
    /// Bring it to the front and give it the focus afterwards.
    pub front: bool,
}

/// What is done to the window, in this order.
#[derive(Clone, Copy, PartialEq, Eq, Structural, Debug)]
pub enum MapStep {
    /// Put it where it belongs, then show it.
    PlaceAndShow,
    /// Keep its position while it is still on the screen, then hide it.
    RememberAndHide,
    /// Leave it.
    Leave,
}

/// What was done, for what follows.
#[derive(Clone, Copy, PartialEq, Eq, Structural, Debug)]
pub struct Applied {
    /// The window was hidden and is now shown.
    pub shown: bool,
    /// It is to come to the front.
    pub front: bool,
}

/// Where one request takes the panel.
pub open spec fn step(state: PanelState, cmd: PanelCmd) -> PanelState {
    if cmd == PanelCmd::Toggle && state == PanelState::Focused {
        PanelState::Hidden
    } else {
        PanelState::Focused
    }
}

/// Where a burst takes the panel, request by request.
pub open spec fn outcome(start: PanelState, cmds: Seq<PanelCmd>) -> PanelState {
    cmds.fold_left(start, |s: PanelState, c: PanelCmd| step(s, c))
}

/// The plan that takes the panel from `start` to where the burst leads: the
/// window is shown or hidden only where that changes, and comes to the front
/// where a burst that is not empty ends in front.
pub open spec fn plan_of(start: PanelState, cmds: Seq<PanelCmd>) -> PanelPlan {
    let end = outcome(start, cmds);
    let visible = end != PanelState::Hidden;
    PanelPlan {
        map: if visible != (start != PanelState::Hidden) {
            Some(visible)
        } else {
            None
        },
        front: cmds.len() > 0 && end == PanelState::Focused,
    }
}

/// Fold a burst of requests into one plan, from the state that the panel is in.
pub fn coalesce(start: PanelState, cmds: &[PanelCmd]) -> (plan: PanelPlan)
    ensures
        plan == plan_of(start, cmds@),
{
    let mut cur = start;
    for i in 0..cmds.len()
        invariant
            cur == outcome(start, cmds@.take(i as int)),
    {
        assert(cmds@.take(i + 1).drop_last() == cmds@.take(i as int));
        cur = match (cmds[i], cur) {
            (PanelCmd::Toggle, PanelState::Focused) => PanelState::Hidden,
            (PanelCmd::Toggle, _) => PanelState::Focused,
            (PanelCmd::Summon, _) => PanelState::Focused,
        };
    }
    assert(cmds@.take(cmds@.len() as int) == cmds@);
    let started_visible = start != PanelState::Hidden;
    let ends_visible = cur != PanelState::Hidden;
    PanelPlan {
        map: if ends_visible != started_visible {
            Some(ends_visible)
        } else {
            None
        },
        front: cmds.len() > 0 && cur == PanelState::Focused,
    }
}

/// The state that the window's own answers show. A window that cannot say
/// whether it is visible counts as hidden; one that cannot say whether it has
/// the focus counts as having it, so that hiding never costs a second press.
pub fn panel_state(visible: Option<bool>, focused: Option<bool>) -> (s: PanelState)
    ensures
        s == if visible != Some(true) {
            PanelState::Hidden
        } else if focused == Some(false) {
            PanelState::Buried
        } else {
            PanelState::Focused
        },
{
    match visible {
        Some(true) => match focused {
            Some(false) => PanelState::Buried,
            _ => PanelState::Focused,
        },
        _ => PanelState::Hidden,
    }
}

/// What a burst does to the window as it stands, and what is to follow.
pub fn apply_cmds(visible: Option<bool>, focused: Option<bool>, cmds: &[PanelCmd]) -> (r: (
    MapStep,
    Applied,
))
    ensures
        ({
            let start = if visible != Some(true) {
                PanelState::Hidden
            } else if focused == Some(false) {
                PanelState::Buried
            } else {
                PanelState::Focused
            };
            let plan = plan_of(start, cmds@);
            &&& r.0 == match plan.map {
                Some(true) => MapStep::PlaceAndShow,
                Some(false) => MapStep::RememberAndHide,
                None => MapStep::Leave,
            }
            &&& r.1 == Applied { shown: plan.map == Some(true), front: plan.front }
        }),
{
    let plan = coalesce(panel_state(visible, focused), cmds);
    match plan.map {
        Some(true) => (MapStep::PlaceAndShow, Applied { shown: true, front: plan.front }),
        Some(false) => (MapStep::RememberAndHide, Applied { shown: false, front: plan.front }),
        None => (MapStep::Leave, Applied { shown: false, front: plan.front }),
    }
}

/// Which of the snapshots asked for so far is the latest.
#[derive(Clone, Copy, PartialEq, Eq, Structural, Debug)]
pub struct Snapshots {
    /// How many were asked for.
    pub asked: u64,
}

impl Snapshots {
    /// Ask for a snapshot and get its number.
    pub fn ask(&mut self) -> (number: u64)
        requires
            old(self).asked < u64::MAX,
        ensures
            final(self).asked == old(self).asked + 1,
            number == final(self).asked,
    {
        self.asked = self.asked + 1;
        self.asked
    }

    /// Whether the snapshot `number`, now ready, may be shown: no newer one has
    /// been asked for.
    pub fn may_show(&self, number: u64) -> (r: bool)
        ensures
            r == (self.asked == number),
    {
        self.asked == number
    }
}

// ---- laws -------------------------------------------------------------------

/// An empty burst does nothing.
pub proof fn law_empty_burst_is_a_noop(start: PanelState)
    ensures
        plan_of(start, Seq::empty()) == (PanelPlan { map: None, front: false }),
{
}

/// A burst that ends with a summons ends visible and in front, whatever came
/// before it.
pub proof fn law_summons_ends_in_front(start: PanelState, before: Seq<PanelCmd>)
    ensures
        outcome(start, before.push(PanelCmd::Summon)) == PanelState::Focused,
        plan_of(start, before.push(PanelCmd::Summon)).front,
        plan_of(start, before.push(PanelCmd::Summon)).map != Some(false),
{
    assert(before.push(PanelCmd::Summon).drop_last() == before);
}

/// The panel comes to the front only where it ends visible, and is shown or
/// hidden only where that is a change.
pub proof fn law_plan_matches_the_outcome(start: PanelState, cmds: Seq<PanelCmd>)
    ensures
        ({
            let plan = plan_of(start, cmds);
            let end = outcome(start, cmds);
            &&& plan.front ==> end == PanelState::Focused
            &&& plan.map == Some(true) ==> start == PanelState::Hidden && plan.front
            &&& plan.map == Some(false) ==> start != PanelState::Hidden && !plan.front
            &&& plan.map is None ==> (start == PanelState::Hidden) == (end == PanelState::Hidden)
        }),
{
    if cmds.len() > 0 {
        assert(outcome(start, cmds) == step(outcome(start, cmds.drop_last()), cmds.last()));
    }
}

/// A burst cut in two gives the same as the whole: no press is lost or counted
/// twice.
pub proof fn law_bursts_compose(start: PanelState, a: Seq<PanelCmd>, b: Seq<PanelCmd>)
    ensures
        outcome(start, a + b) == outcome(outcome(start, a), b),
    decreases b.len(),
{
    if b.len() == 0 {
        assert(a + b == a);
    } else {
        law_bursts_compose(start, a, b.drop_last());
        assert((a + b).drop_last() == a + b.drop_last());
    }
}

/// From the panel that the user looks at, one press hides it, and a second one
/// brings it back.
pub proof fn law_two_presses_return_to_the_front()
    ensures
        step(PanelState::Focused, PanelCmd::Toggle) == PanelState::Hidden,
        step(PanelState::Hidden, PanelCmd::Toggle) == PanelState::Focused,
        step(PanelState::Buried, PanelCmd::Toggle) == PanelState::Focused,
{
}

/// A press hides the panel that the user looks at and brings any other in front; a
/// summons always brings it in front. Presses count one behind the other.
pub proof fn law_what_a_press_does(start: PanelState, cmds: Seq<PanelCmd>, cmd: PanelCmd)
    ensures
        outcome(start, Seq::empty()) == start,
        outcome(start, cmds.push(cmd)) == if cmd is Toggle && outcome(start, cmds) is Focused {
            PanelState::Hidden
        } else {
            PanelState::Focused
        },
{
    assert(cmds.push(cmd).drop_last() == cmds);
}

} // verus!
