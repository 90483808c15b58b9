//! Where a key edge goes, which action it runs, and which combinations are
//! registered.

use crate::hotkeys::combo;
use crate::hotkeys::hold::{HoldCore, PressAction};
use crate::text;
use vstd::prelude::*;

verus! {

/// The actions in the order of their registration, each with the configuration
/// key of its combination. The names are also the stable identifiers that the
/// portal binds.
pub open spec fn action_table() -> Seq<(&'static str, &'static str)> {
    seq![
        ("dictate", "dictation_hotkey"),
        ("paste", "paste_hotkey"),
        ("panel", "panel_hotkey"),
        ("cancel", "cancel_hotkey"),
    ]
}

/// The actions in the order of their registration, each with the configuration
/// key of its combination.
pub fn actions() -> (r: Vec<(&'static str, &'static str)>)
    ensures
        r@ == action_table(),
{
    let r = vec![
        ("dictate", "dictation_hotkey"),
        ("paste", "paste_hotkey"),
        ("panel", "panel_hotkey"),
        ("cancel", "cancel_hotkey"),
    ];
    assert(r@ == action_table());
    r
}

/// Where an edge of a key goes.
#[derive(Clone, Copy, PartialEq, Eq, Structural, Debug)]
pub enum Route {
    /// To the tap-or-hold state of that key.
    Hold,
    /// Straight to the action.
    Dispatch,
    /// Nowhere.
    Ignore,
}

/// Where an edge of the key `which` goes: both edges of the two recording keys
/// to their tap-or-hold state, the press of any other key to its action.
pub fn hotkey_event(which: &str, pressed: bool) -> (r: Route)
    ensures
        r == if which@ == "dictate"@ || which@ == "paste"@ {
            Route::Hold
        } else if pressed {
            Route::Dispatch
        } else {
            Route::Ignore
        },
{
    if text::str_eq(which, "dictate") || text::str_eq(which, "paste") {
        Route::Hold
    } else if pressed {
        Route::Dispatch
    } else {
        Route::Ignore
    }
}

/// Whether running `which` right now would start a recording. Dictating starts
/// one during a transcription too; pasting arms the take that is being
/// transcribed instead.
pub open spec fn starts_take(recording: bool, transcribing: bool, which: Seq<char>) -> bool {
    !recording && (which == "paste"@ ==> !transcribing)
}

/// Whether running `which` right now would start a recording.
pub fn press_starts_take(recording: bool, transcribing: bool, which: &str) -> (r: bool)
    ensures
        r == starts_take(recording, transcribing, which@),
{
    if text::str_eq(which, "paste") {
        !recording && !transcribing
    } else {
        !recording
    }
}

/// A recording key went down at `now`: whether its action runs.
pub fn hold_press(
    core: &mut HoldCore,
    which: &str,
    now: u64,
    recording: bool,
    transcribing: bool,
) -> (run: bool)
    requires
        old(core).generation < u64::MAX,
    ensures
        run == (old(core).press_action(now) == PressAction::Dispatch),
        *final(core) == old(core).after_press(now, starts_take(recording, transcribing, which@)),
{
    let starts = press_starts_take(recording, transcribing, which);
    let action = core.press(now, starts);
    action == PressAction::Dispatch
}

/// What runs for an action.
#[derive(Clone, Copy, PartialEq, Eq, Structural, Debug)]
pub enum Job {
    ToggleRecord,
    PasteTake,
    CancelRecord,
    /// An unknown name: nothing.
    Nothing,
}

/// What becomes of a request to run an action.
#[derive(Clone, Copy, PartialEq, Eq, Structural, Debug)]
pub enum Dispatched {
    /// It joins the queue of the panel, which never drops one.
    Panel,
    /// It is dropped: the same action still runs.
    Dropped,
    /// It runs.
    Run(Job),
}

/// The actions that are running.
#[derive(Debug, PartialEq, Eq)]
pub struct Inflight {
    names: Vec<String>,
}

impl View for Inflight {
    type V = Set<Seq<char>>;

    closed spec fn view(&self) -> Set<Seq<char>> {
        text::texts(self.names@).to_set()
    }
}

impl Inflight {
    /// Whether each running action is listed once.
    pub closed spec fn wf(&self) -> bool {
        text::texts(self.names@).no_duplicates()
    }

    /// Nothing runs.
    pub fn new() -> (r: Inflight)
        ensures
            r.wf(),
            r@ == Set::<Seq<char>>::empty(),
    {
        let r = Inflight { names: Vec::new() };
        assert(text::texts(r.names@).to_set() == Set::<Seq<char>>::empty());
        r
    }

    /// Where `which` is listed.
    fn find(&self, which: &str) -> (r: Option<usize>)
        ensures
            match r {
                Some(i) => i < self.names@.len() && self.names@[i as int]@ == which@,
                None => !self@.contains(which@),
            },
    {
        for i in 0..self.names.len()
            invariant
                forall|j: int| 0 <= j < i ==> self.names@[j]@ != which@,
        {
            if text::str_eq(self.names[i].as_str(), which) {
                return Some(i);
            }
        }
        proof {
            if self@.contains(which@) {
                let j = choose|j: int|
                    0 <= j < text::texts(self.names@).len() && text::texts(self.names@)[j]
                        == which@;
                assert(self.names@[j]@ == which@);
            }
        }
        None
    }

    /// `which` starts, unless it runs already: whether it did.
    pub fn begin(&mut self, which: &str) -> (fresh: bool)
        requires
            old(self).wf(),
        ensures
            final(self).wf(),
            fresh == !old(self)@.contains(which@),
            final(self)@ == old(self)@.insert(which@),
    {
        let ghost was = text::texts(self.names@);
        match self.find(which) {
            Some(i) => {
                proof {
                    assert(was[i as int] == which@);
                    assert(was.to_set().insert(which@) == was.to_set());
                }
                false
            },
            None => {
                self.names.push(which.to_string());
                proof {
                    let now = text::texts(self.names@);
                    assert(now == was.push(which@));
                    assert forall|x: Seq<char>| now.to_set().contains(x) <==> was.to_set().insert(
                        which@,
                    ).contains(x) by {
                        if was.contains(x) {
                            let j = choose|j: int| 0 <= j < was.len() && was[j] == x;
                            assert(now[j] == x);
                        }
                        assert(now[was.len() as int] == which@);
                    }
                    assert(now.to_set() == was.to_set().insert(which@));
                }
                true
            },
        }
    }

    /// `which` is done.
    pub fn end(&mut self, which: &str)
        requires
            old(self).wf(),
        ensures
            final(self).wf(),
            final(self)@ == old(self)@.remove(which@),
    {
        let ghost was = text::texts(self.names@);
        match self.find(which) {
            Some(i) => {
                self.names.remove(i);
                proof {
                    let now = text::texts(self.names@);
                    assert(now == was.remove(i as int));
                    assert(was[i as int] == which@);
                    assert forall|x: Seq<char>| now.to_set().contains(x) <==> was.to_set().remove(
                        which@,
                    ).contains(x) by {
                        if now.contains(x) {
                            let j = choose|j: int| 0 <= j < now.len() && now[j] == x;
                            let k = if j < i {
                                j
                            } else {
                                j + 1
                            };
                            assert(was[k] == x);
                        }
                        if was.contains(x) && x != which@ {
                            let k = choose|k: int| 0 <= k < was.len() && was[k] == x;
                            let j = if k < i {
                                k
                            } else {
                                k - 1
                            };
                            assert(now[j] == x);
                        }
                    }
                    assert(now.to_set() == was.to_set().remove(which@));
                }
            },
            None => {
                proof {
                    assert(was.to_set().remove(which@) == was.to_set());
                }
            },
        }
    }
}

/// The job of an action.
pub open spec fn job_of(which: Seq<char>) -> Job {
    if which == "dictate"@ {
        Job::ToggleRecord
    } else if which == "paste"@ {
        Job::PasteTake
    } else if which == "cancel"@ {
        Job::CancelRecord
    } else {
        Job::Nothing
    }
}

/// What becomes of a request to run `which` while `running` are running.
pub open spec fn dispatched(running: Set<Seq<char>>, which: Seq<char>) -> Dispatched {
    if which == "panel"@ {
        Dispatched::Panel
    } else if running.contains(which) {
        Dispatched::Dropped
    } else {
        Dispatched::Run(job_of(which))
    }
}

/// What is running behind a request to run `which`.
pub open spec fn running_after(running: Set<Seq<char>>, which: Seq<char>) -> Set<Seq<char>> {
    if which == "panel"@ {
        running
    } else {
        running.insert(which)
    }
}

/// A request to run `which`: the panel's are queued, another is dropped while
/// the same action still runs. One that runs ends with [`Inflight::end`].
pub fn dispatch(running: &mut Inflight, which: &str) -> (r: Dispatched)
    requires
        old(running).wf(),
    ensures
        final(running).wf(),
        r == dispatched(old(running)@, which@),
        final(running)@ == running_after(old(running)@, which@),
{
    if text::str_eq(which, "panel") {
        return Dispatched::Panel;
    }
    if !running.begin(which) {
        return Dispatched::Dropped;
    }
    let job = if text::str_eq(which, "dictate") {
        Job::ToggleRecord
    } else if text::str_eq(which, "paste") {
        Job::PasteTake
    } else if text::str_eq(which, "cancel") {
        Job::CancelRecord
    } else {
        Job::Nothing
    };
    Dispatched::Run(job)
}

// ---- registration -----------------------------------------------------------

/// A configured combination.
#[derive(Debug, PartialEq, Eq)]
pub struct Binding {
    /// The action.
    pub which: &'static str,
    /// Its combination.
    pub combo: String,
    /// Whether the combination passed the check of its form.
    pub well_formed: bool,
}

/// What becomes of a binding when the grabs are registered.
#[derive(Debug, PartialEq, Eq)]
pub enum Grab {
    /// It has no accelerator: skipped.
    Skip,
    /// It is registered under this accelerator.
    Register(String),
}

/// What becomes of a binding when the grabs are registered.
pub open spec fn grab_of(b: Binding) -> Option<Seq<char>> {
    if b.well_formed {
        combo::accelerator_of(b.combo@)
    } else {
        None
    }
}

/// Pair the actions with their configured combinations, given in the order of
/// [`actions`], ill-formed ones included.
pub fn configured_bindings(combos: Vec<String>, well_formed: Vec<bool>) -> (r: Vec<Binding>)
    requires
        combos@.len() == 4,
        well_formed@.len() == 4,
    ensures
        r@.len() == 4,
        forall|i: int|
            #![trigger r@[i]]
            0 <= i < 4 ==> r@[i].which == action_table()[i].0 && r@[i].combo@ == combos@[i]@
                && r@[i].well_formed == well_formed@[i],
{
    let table = actions();
    let mut r: Vec<Binding> = Vec::new();
    for i in 0..4usize
        invariant
            table@ == action_table(),
            combos@.len() == 4,
            well_formed@.len() == 4,
            r@.len() == i,
            forall|j: int|
                #![trigger r@[j]]
                0 <= j < i ==> r@[j].which == action_table()[j].0 && r@[j].combo@ == combos@[j]@
                    && r@[j].well_formed == well_formed@[j],
    {
        r.push(
            Binding {
                which: table[i].0,
                combo: combos[i].clone(),
                well_formed: well_formed[i],
            },
        );
    }
    r
}

/// The bindings that the portal should bind: the well-formed ones, in order.
pub fn portal_bindings(bindings: Vec<Binding>) -> (r: Vec<Binding>)
    ensures
        r@ == bindings@.filter(|b: Binding| b.well_formed),
{
    let mut bindings = bindings;
    let ghost all = bindings@;
    let mut kept: Vec<Binding> = Vec::new();
    let ghost mut done: int = 0;
    proof {
        reveal(Seq::filter);
        assert(all.take(0) == Seq::<Binding>::empty());
    }
    while bindings.len() > 0
        invariant
            0 <= done <= all.len(),
            bindings@ == all.skip(done),
            kept@ == all.take(done).filter(|b: Binding| b.well_formed),
        decreases bindings@.len(),
    {
        let b = bindings.remove(0);
        proof {
            reveal(Seq::filter);
            assert(b == all[done]);
            assert(all.take(done + 1).drop_last() == all.take(done));
            done = done + 1;
            assert(bindings@ == all.skip(done));
        }
        if b.well_formed {
            kept.push(b);
        }
    }
    assert(all.take(done) == all);
    kept
}

/// What becomes of each binding when the grabs are registered, in order.
pub fn register_grabs(bindings: &Vec<Binding>) -> (r: Vec<Grab>)
    ensures
        r@.len() == bindings@.len(),
        forall|i: int|
            #![trigger r@[i]]
            0 <= i < r@.len() ==> match r@[i] {
                Grab::Skip => grab_of(bindings@[i]) is None,
                Grab::Register(a) => grab_of(bindings@[i]) == Some(a@),
            },
{
    let mut r: Vec<Grab> = Vec::new();
    for i in 0..bindings.len()
        invariant
            r@.len() == i,
            forall|j: int|
                #![trigger r@[j]]
                0 <= j < i ==> match r@[j] {
                    Grab::Skip => grab_of(bindings@[j]) is None,
                    Grab::Register(a) => grab_of(bindings@[j]) == Some(a@),
                },
    {
        let b = &bindings[i];
        if !b.well_formed {
            r.push(Grab::Skip);
        } else {
            match combo::to_accelerator(b.combo.as_str()) {
                Some(a) => r.push(Grab::Register(a)),
                None => r.push(Grab::Skip),
            }
        }
    }
    r
}

/// The message shown when a registration failed, shown for the panel alone: its
/// hotkey is the only way into an otherwise invisible program.
pub fn registration_warning(which: &str, combo: &str) -> (r: Option<String>)
    ensures
        text::opt_text(r) == if which@ == "panel"@ {
            Some(
                "Tiro could not register the panel hotkey:\n\n    "@ + combo@
                    + "\n\nAnother app is likely using this combination, so the Tiro panel can't be opened. Edit panel_hotkey in config.ini (next to the app) to a free combination, then restart Tiro."@,
            )
        } else {
            None
        },
{
    if !text::str_eq(which, "panel") {
        return None;
    }
    let mut out: Vec<char> = Vec::new();
    text::extend_str(&mut out, "Tiro could not register the panel hotkey:\n\n    ");
    text::extend_str(&mut out, combo);
    text::extend_str(
        &mut out,
        "\n\nAnother app is likely using this combination, so the Tiro panel can't be opened. Edit panel_hotkey in config.ini (next to the app) to a free combination, then restart Tiro.",
    );
    Some(text::string_of(out.as_slice()))
}

// ---- laws -------------------------------------------------------------------

/// An action that runs is dropped when asked for again, and runs again once it
/// is done; no other action takes notice. The panel is never dropped.
pub proof fn law_no_double_run(running: Set<Seq<char>>, which: Seq<char>, other: Seq<char>)
    requires
        which != "panel"@,
        other != which,
    ensures
        dispatched(running_after(running, which), which) == Dispatched::Dropped,
        dispatched(running_after(running, which).remove(which), which) == Dispatched::Run(
            job_of(which),
        ),
        dispatched(running_after(running, which), other) == dispatched(running, other),
        dispatched(running, "panel"@) == Dispatched::Panel,
{
}

/// Arming a take by the paste key during its transcription starts nothing, so
/// that press's release finishes nothing.
pub proof fn law_paste_during_transcription_starts_nothing(
    core: HoldCore,
    recording: bool,
    pressed: u64,
    released: u64,
    recording_then: bool,
)
    requires
        core.generation < u64::MAX,
        core.press_action(pressed) == PressAction::Dispatch,
    ensures
        !starts_take(recording, true, "paste"@),
        ({
            let down = core.after_press(pressed, starts_take(recording, true, "paste"@));
            let up = down.after_release(released);
            down.pending(released) matches Some(p) && up.release_action(p, recording_then)
                == crate::hotkeys::hold::ReleaseAction::Inert
        }),
{
}

/// Each key runs its own action: the dictation key toggles the recording, the paste key
/// takes and pastes, the cancel key cancels.
pub proof fn law_keys_run_their_actions(running: Set<Seq<char>>)
    requires
        !running.contains("dictate"@),
        !running.contains("paste"@),
        !running.contains("cancel"@),
    ensures
        dispatched(running, "dictate"@) == Dispatched::Run(Job::ToggleRecord),
        dispatched(running, "paste"@) == Dispatched::Run(Job::PasteTake),
        dispatched(running, "cancel"@) == Dispatched::Run(Job::CancelRecord),
        dispatched(running, "panel"@) == Dispatched::Panel,
{
    reveal_strlit("dictate");
    reveal_strlit("paste");
    reveal_strlit("cancel");
    reveal_strlit("panel");
    assert("dictate"@[0] == 'd' && "cancel"@[0] == 'c');
    assert("paste"@[2] == 's' && "panel"@[2] == 'n' && "paste"@[0] == 'p' && "panel"@[0] == 'p');
}

/// A press starts a take where none is being recorded; the paste key starts none while
/// one is being transcribed either.
pub proof fn law_when_a_press_starts_a_take(recording: bool, transcribing: bool)
    ensures
        starts_take(recording, transcribing, "dictate"@) == !recording,
        starts_take(recording, transcribing, "paste"@) == (!recording && !transcribing),
{
    reveal_strlit("dictate");
    reveal_strlit("paste");
    assert("dictate"@[0] == 'd' && "paste"@[0] == 'p');
}

/// The actions, and where each one's combination is configured.
pub proof fn law_the_actions()
    ensures
        action_table().len() == 4,
        action_table()[0].0@ == "dictate"@ && action_table()[0].1@ == "dictation_hotkey"@,
        action_table()[1].0@ == "paste"@ && action_table()[1].1@ == "paste_hotkey"@,
        action_table()[2].0@ == "panel"@ && action_table()[2].1@ == "panel_hotkey"@,
        action_table()[3].0@ == "cancel"@ && action_table()[3].1@ == "cancel_hotkey"@,
{
}

/// A combination that is well formed is grabbed by its accelerator, and no other is.
pub proof fn law_what_is_grabbed(b: Binding)
    ensures
        b.well_formed ==> grab_of(b) == combo::accelerator_of(b.combo@),
        !b.well_formed ==> grab_of(b) is None,
{
}

} // verus!
