//! Hotkeys through the desktop's shortcut portal: whether the session needs it,
//! what is bound, where its signals go, and which of two passes counts.

use crate::hotkeys::{combo, route};
use crate::text;
use vstd::prelude::*;

verus! {

/// Whether two texts are the same but for the case of ASCII letters.
pub open spec fn same_but_case(a: Seq<char>, b: Seq<char>) -> bool {
    a.map_values(|c: char| text::lower_char(c)) == b.map_values(|c: char| text::lower_char(c))
}

/// Whether two texts are the same but for the case of ASCII letters.
fn eq_ignore_case(a: &str, b: &str) -> (r: bool)
    ensures
        r == same_but_case(a@, b@),
{
    let x = text::chars_of(a);
    let y = text::chars_of(b);
    let ghost p = a@.map_values(|c: char| text::lower_char(c));
    let ghost q = b@.map_values(|c: char| text::lower_char(c));
    if x.len() != y.len() {
        assert(p.len() != q.len());
        return false;
    }
    for i in 0..x.len()
        invariant
            x@ == a@,
            y@ == b@,
            x@.len() == y@.len(),
            p == a@.map_values(|c: char| text::lower_char(c)),
            q == b@.map_values(|c: char| text::lower_char(c)),
            forall|j: int| 0 <= j < i ==> p[j] == q[j],
    {
        if text::ascii_lower(x[i]) != text::ascii_lower(y[i]) {
            assert(p[i as int] != q[i as int]);
            return false;
        }
    }
    assert(p == q);
    true
}

/// Whether the session is a Wayland one: `WAYLAND_DISPLAY` is set, or
/// `XDG_SESSION_TYPE`, given as `session_type`, says so in any letter case.
pub fn wayland_session(wayland_display_set: bool, session_type: Option<&str>) -> (r: bool)
    ensures
        r == (wayland_display_set || (session_type matches Some(t) && same_but_case(
            t@,
            "wayland"@,
        ))),
{
    wayland_display_set || match session_type {
        Some(t) => eq_ignore_case(t, "wayland"),
        None => false,
    }
}

/// What the desktop's settings show for an action.
pub open spec fn description_of(which: Seq<char>) -> Seq<char> {
    if which == "dictate"@ {
        "Start or stop dictation (hold for push-to-talk)"@
    } else if which == "paste"@ {
        "Dictate and paste at the cursor (hold to talk)"@
    } else if which == "panel"@ {
        "Show or hide the Tiro panel"@
    } else if which == "cancel"@ {
        "Cancel the current recording"@
    } else {
        "Tiro shortcut"@
    }
}

/// What the desktop's settings show for an action.
pub fn description(which: &str) -> (r: &'static str)
    ensures
        r@ == description_of(which@),
{
    if text::str_eq(which, "dictate") {
        "Start or stop dictation (hold for push-to-talk)"
    } else if text::str_eq(which, "paste") {
        "Dictate and paste at the cursor (hold to talk)"
    } else if text::str_eq(which, "panel") {
        "Show or hide the Tiro panel"
    } else if text::str_eq(which, "cancel") {
        "Cancel the current recording"
    } else {
        "Tiro shortcut"
    }
}

/// Whether `id` names an action.
pub open spec fn is_action(id: Seq<char>) -> bool {
    exists|i: int|
        0 <= i < route::action_table().len() && (#[trigger] route::action_table()[i]).0@ == id
}

/// The action that a shortcut identifier names. One that names none comes from
/// elsewhere and is dropped.
pub fn action_for(id: &str) -> (r: Option<&'static str>)
    ensures
        match r {
            Some(which) => which@ == id@ && is_action(id@),
            None => !is_action(id@),
        },
{
    let table = route::actions();
    for i in 0..table.len()
        invariant
            table@ == route::action_table(),
            forall|j: int| 0 <= j < i ==> (#[trigger] route::action_table()[j]).0@ != id@,
    {
        assert(table@[i as int] == route::action_table()[i as int]);
        if text::str_eq(table[i].0, id) {
            return Some(table[i].0);
        }
    }
    None
}

/// A shortcut to be bound.
#[derive(Debug, PartialEq, Eq)]
pub struct NewShortcut {
    /// Its identifier: the name of the action.
    pub id: &'static str,
    /// What the desktop's settings show for it.
    pub description: &'static str,
    /// The combination to prefer.
    pub preferred_trigger: Option<String>,
}

/// What is bound for the bindings, in order.
pub fn shortcuts(bindings: &Vec<route::Binding>) -> (r: Vec<NewShortcut>)
    ensures
        r@.len() == bindings@.len(),
        forall|i: int|
            #![trigger r@[i]]
            0 <= i < r@.len() ==> r@[i].id == bindings@[i].which && r@[i].description@
                == description_of(bindings@[i].which@) && text::opt_text(r@[i].preferred_trigger)
                == combo::trigger_of(bindings@[i].combo@),
{
    let mut r: Vec<NewShortcut> = Vec::new();
    for i in 0..bindings.len()
        invariant
            r@.len() == i,
            forall|j: int|
                #![trigger r@[j]]
                0 <= j < i ==> r@[j].id == bindings@[j].which && r@[j].description@
                    == description_of(bindings@[j].which@) && text::opt_text(
                    r@[j].preferred_trigger,
                ) == combo::trigger_of(bindings@[j].combo@),
    {
        let b = &bindings[i];
        r.push(
            NewShortcut {
                id: b.which,
                description: description(b.which),
                preferred_trigger: combo::to_portal_trigger(b.combo.as_str()),
            },
        );
    }
    r
}

/// What the portal bound, a line for each: its identifier and, in brackets, the
/// combination as the portal describes it.
pub open spec fn bound_line(id: Seq<char>, trigger: Seq<char>) -> Seq<char> {
    id + " ("@ + trigger + ")"@
}

/// What to make of the portal's answer: that nothing was bound is a failure.
pub fn bound(shortcuts: &Vec<(String, String)>) -> (r: Result<Vec<String>, String>)
    ensures
        match r {
            Ok(lines) => shortcuts@.len() > 0 && text::texts(lines@) == shortcuts@.map_values(
                |s: (String, String)| bound_line(s.0@, s.1@),
            ),
            Err(why) => shortcuts@.len() == 0 && why@ == "the portal bound no shortcuts"@,
        },
{
    if shortcuts.len() == 0 {
        return Err("the portal bound no shortcuts".to_string());
    }
    let mut lines: Vec<String> = Vec::new();
    for i in 0..shortcuts.len()
        invariant
            text::texts(lines@) == shortcuts@.take(i as int).map_values(
                |s: (String, String)| bound_line(s.0@, s.1@),
            ),
    {
        let ghost was = lines@;
        let s = &shortcuts[i];
        let mut line = text::chars_of(s.0.as_str());
        text::extend_str(&mut line, " (");
        text::extend_str(&mut line, s.1.as_str());
        text::extend_str(&mut line, ")");
        let line = text::string_of(line.as_slice());
        let ghost w = line@;
        lines.push(line);
        assert(text::texts(lines@) == text::texts(was).push(w));
        assert(shortcuts@.take(i + 1) == shortcuts@.take(i as int).push(shortcuts@[i as int]));
    }
    assert(shortcuts@.take(shortcuts@.len() as int) == shortcuts@);
    Ok(lines)
}

// ---- the session ------------------------------------------------------------

/// What to ask of the desktop next.
#[derive(Debug, PartialEq, Eq)]
pub enum BindStep {
    /// Close the session that was kept: shortcuts cannot be unbound.
    CloseOld,
    /// Create a session.
    Create,
    /// Bind the shortcuts in it.
    Bind,
    /// Close the session in which nothing could be bound.
    CloseFresh,
    /// The shortcuts are bound: a line for each.
    Done(Vec<String>),
    /// Nothing is bound, and why.
    Failed(String),
}

/// Why the portal bound nothing.
#[derive(Debug, PartialEq, Eq)]
pub enum BindError {
    /// It could not be asked.
    Call(String),
    /// It refused.
    Response(String),
}

/// Where a registration stands.
#[derive(Clone, Copy, PartialEq, Eq, Structural, Debug)]
pub enum BindPhase {
    Idle,
    /// The session that was kept is closed.
    ClosingOld,
    Creating,
    Binding,
    /// The new session is closed.
    ClosingFresh,
}

/// The session with the portal that holds the shortcuts.
#[derive(Debug, PartialEq, Eq)]
pub struct Binder {
    /// Whether a session is kept.
    pub kept: bool,
    /// Whether there is a session that is not kept.
    pub fresh: bool,
    pub phase: BindPhase,
    /// Why the new session is closed.
    pub why: String,
}

/// What became of an attempt to bind: the lines, or why there are none.
pub open spec fn binding_of(answer: Result<Vec<(String, String)>, BindError>) -> Result<
    Seq<Seq<char>>,
    Seq<char>,
> {
    match answer {
        Ok(all) => if all@.len() == 0 {
            Err("the portal bound no shortcuts"@)
        } else {
            Ok(all@.map_values(|s: (String, String)| bound_line(s.0@, s.1@)))
        },
        Err(BindError::Call(e)) => Err("bind_shortcuts: "@ + e@),
        Err(BindError::Response(e)) => Err("bind_shortcuts response: "@ + e@),
    }
}

/// `what` with `e` behind it.
fn because(what: &str, e: &str) -> (r: String)
    ensures
        r@ == what@ + e@,
{
    let mut out = text::chars_of(what);
    text::extend_str(&mut out, e);
    text::string_of(out.as_slice())
}

impl Binder {
    /// Between registrations there is no session but the one that is kept.
    pub open spec fn wf(self) -> bool {
        &&& self.fresh == (self.phase == BindPhase::Binding || self.phase
            == BindPhase::ClosingFresh || self.phase == BindPhase::ClosingOld)
        &&& self.kept ==> self.phase == BindPhase::Idle
    }

    /// Nothing was bound yet.
    pub fn new() -> (r: Self)
        ensures
            r.wf(),
            r.phase == BindPhase::Idle,
            !r.kept,
    {
        Binder { kept: false, fresh: false, phase: BindPhase::Idle, why: String::new() }
    }

    /// A registration begins: whether the portal is there, or why not.
    pub fn begin(&mut self, portal: Result<(), String>) -> (r: BindStep)
        requires
            old(self).wf(),
            old(self).phase == BindPhase::Idle,
        ensures
            final(self).wf(),
            match portal {
                Ok(()) => if old(self).kept {
                    final(self).phase == BindPhase::ClosingOld && r is CloseOld
                } else {
                    final(self).phase == BindPhase::Creating && r is Create
                },
                Err(e) => {
                    &&& *final(self) == *old(self)
                    &&& r matches BindStep::Failed(why) && why@ == "no portal proxy: "@ + e@
                },
            },
    {
        match portal {
            Ok(()) => {
                if self.kept {
                    self.kept = false;
                    self.fresh = true;
                    self.phase = BindPhase::ClosingOld;
                    BindStep::CloseOld
                } else {
                    self.phase = BindPhase::Creating;
                    BindStep::Create
                }
            },
            Err(e) => BindStep::Failed(because("no portal proxy: ", e.as_str())),
        }
    }

    /// The session that was kept was closed, as well as could be.
    pub fn old_closed(&mut self) -> (r: BindStep)
        requires
            old(self).wf(),
            old(self).phase == BindPhase::ClosingOld,
        ensures
            final(self).wf(),
            final(self).phase == BindPhase::Creating,
            r is Create,
    {
        self.fresh = false;
        self.phase = BindPhase::Creating;
        BindStep::Create
    }

    /// A session was created, or why not.
    pub fn created(&mut self, made: Result<(), String>) -> (r: BindStep)
        requires
            old(self).wf(),
            old(self).phase == BindPhase::Creating,
        ensures
            final(self).wf(),
            !final(self).kept,
            match made {
                Ok(()) => final(self).phase == BindPhase::Binding && r is Bind,
                Err(e) => {
                    &&& final(self).phase == BindPhase::Idle
                    &&& r matches BindStep::Failed(why) && why@ == "create_session: "@ + e@
                },
            },
    {
        match made {
            Ok(()) => {
                self.fresh = true;
                self.phase = BindPhase::Binding;
                BindStep::Bind
            },
            Err(e) => {
                self.phase = BindPhase::Idle;
                BindStep::Failed(because("create_session: ", e.as_str()))
            },
        }
    }

    /// The portal was to bind the shortcuts: each with its combination as the
    /// portal describes it, or why not. A session in which nothing is bound does
    /// not stay.
    pub fn answered(&mut self, answer: Result<Vec<(String, String)>, BindError>) -> (r: BindStep)
        requires
            old(self).wf(),
            old(self).phase == BindPhase::Binding,
        ensures
            final(self).wf(),
            match binding_of(answer) {
                Ok(lines) => {
                    &&& final(self).phase == BindPhase::Idle
                    &&& final(self).kept
                    &&& r matches BindStep::Done(l) && text::texts(l@) == lines
                },
                Err(why) => {
                    &&& final(self).phase == BindPhase::ClosingFresh
                    &&& final(self).why@ == why
                    &&& r is CloseFresh
                },
            },
    {
        let result = match answer {
            Ok(all) => bound(&all),
            Err(BindError::Call(e)) => Err(because("bind_shortcuts: ", e.as_str())),
            Err(BindError::Response(e)) => Err(because("bind_shortcuts response: ", e.as_str())),
        };
        match result {
            Ok(lines) => {
                self.fresh = false;
                self.kept = true;
                self.phase = BindPhase::Idle;
                BindStep::Done(lines)
            },
            Err(why) => {
                self.why = why;
                self.phase = BindPhase::ClosingFresh;
                BindStep::CloseFresh
            },
        }
    }

    /// The session in which nothing was bound was closed, as well as could be.
    pub fn fresh_closed(&mut self) -> (r: BindStep)
        requires
            old(self).wf(),
            old(self).phase == BindPhase::ClosingFresh,
        ensures
            final(self).wf(),
            final(self).phase == BindPhase::Idle,
            !final(self).kept,
            r matches BindStep::Failed(why) && why@ == old(self).why@,
    {
        self.fresh = false;
        self.phase = BindPhase::Idle;
        BindStep::Failed(self.why.clone())
    }
}

/// Which registration pass is the latest.
#[derive(Clone, Copy, PartialEq, Eq, Structural, Debug)]
pub struct Passes {
    /// How many were started.
    pub started: u64,
}

/// What a pass does at one of its two looks at the others.
#[derive(Clone, Copy, PartialEq, Eq, Structural, Debug)]
pub enum PassStep {
    /// A newer pass exists: leave its session and its grabs alone.
    Stop,
    /// Bind through the portal.
    Bind,
    /// The portal has the hotkeys: drop the grabs and listen to its signals.
    DropGrabs,
    /// The portal failed: the grabs stay.
    KeepGrabs,
}

impl Passes {
    /// A pass starts: its number.
    pub fn start(&mut self) -> (number: u64)
        requires
            old(self).started < u64::MAX,
        ensures
            final(self).started == old(self).started + 1,
            number == final(self).started,
    {
        self.started = self.started + 1;
        self.started
    }

    /// What the pass `number` does first.
    pub fn before_bind(&self, number: u64) -> (r: PassStep)
        ensures
            r == if self.started == number {
                PassStep::Bind
            } else {
                PassStep::Stop
            },
    {
        if self.started == number {
            PassStep::Bind
        } else {
            PassStep::Stop
        }
    }

    /// What the pass `number` does once the portal has answered.
    pub fn after_bind(&self, number: u64, bound: bool) -> (r: PassStep)
        ensures
            r == if !bound {
                PassStep::KeepGrabs
            } else if self.started == number {
                PassStep::DropGrabs
            } else {
                PassStep::Stop
            },
    {
        if !bound {
            PassStep::KeepGrabs
        } else if self.started == number {
            PassStep::DropGrabs
        } else {
            PassStep::Stop
        }
    }
}

// ---- laws -------------------------------------------------------------------

/// Every action's own identifier leads back to it, and shows a text of its own.
pub proof fn law_every_action_is_known(i: int)
    requires
        0 <= i < route::action_table().len(),
    ensures
        is_action(route::action_table()[i].0@),
        description_of(route::action_table()[i].0@) != "Tiro shortcut"@,
{
    reveal_strlit("Tiro shortcut");
    reveal_strlit("Start or stop dictation (hold for push-to-talk)");
    reveal_strlit("Dictate and paste at the cursor (hold to talk)");
    reveal_strlit("Show or hide the Tiro panel");
    reveal_strlit("Cancel the current recording");
    assert("Tiro shortcut"@[0] == 'T');
    assert("Start or stop dictation (hold for push-to-talk)"@[0] == 'S');
    assert("Dictate and paste at the cursor (hold to talk)"@[0] == 'D');
    assert("Show or hide the Tiro panel"@[0] == 'S');
    assert("Cancel the current recording"@[0] == 'C');
    assert(route::action_table().len() == 4);
}

/// There is never more than one session, and between registrations none but the
/// one that holds the shortcuts.
pub proof fn law_one_shortcut_session(b: Binder)
    requires
        b.wf(),
    ensures
        !(b.kept && b.fresh),
        b.phase == BindPhase::Idle ==> !b.fresh,
{
}

/// What the portal shows of each action.
pub proof fn law_descriptions()
    ensures
        description_of("dictate"@) == "Start or stop dictation (hold for push-to-talk)"@,
        description_of("paste"@) == "Dictate and paste at the cursor (hold to talk)"@,
        description_of("panel"@) == "Show or hide the Tiro panel"@,
        description_of("cancel"@) == "Cancel the current recording"@,
{
    reveal_strlit("dictate");
    reveal_strlit("paste");
    reveal_strlit("cancel");
    reveal_strlit("panel");
    assert("dictate"@[0] == 'd' && "cancel"@[0] == 'c');
    assert("paste"@[2] == 's' && "panel"@[2] == 'n' && "paste"@[0] == 'p' && "panel"@[0] == 'p');
}

/// Only the four actions are known.
pub proof fn law_other_identifiers_are_not_known(id: Seq<char>)
    ensures
        is_action(id) <==> id == "dictate"@ || id == "paste"@ || id == "panel"@ || id == "cancel"@,
{
    assert(route::action_table().len() == 4);
    assert(route::action_table()[0].0@ == "dictate"@);
    assert(route::action_table()[1].0@ == "paste"@);
    assert(route::action_table()[2].0@ == "panel"@);
    assert(route::action_table()[3].0@ == "cancel"@);
}

/// Nothing bound is a failure, and so is an error; else each shortcut is reported with its
/// trigger.
pub proof fn law_what_was_bound(answer: Result<Vec<(String, String)>, BindError>)
    ensures
        match answer {
            Ok(all) => {
                &&& binding_of(answer) is Err <==> all@.len() == 0
                &&& binding_of(answer) matches Ok(lines) ==> lines.len() == all@.len() && forall|i: int|
                    0 <= i < lines.len() ==> #[trigger] lines[i] == all@[i].0@ + " ("@ + all@[i].1@
                        + ")"@
            },
            Err(_) => binding_of(answer) is Err,
        },
{
}

/// Letter case makes no difference.
pub proof fn law_same_but_case(a: Seq<char>, b: Seq<char>)
    ensures
        same_but_case(a, b) <==> a.len() == b.len() && forall|i: int|
            0 <= i < a.len() ==> text::lower_char(#[trigger] a[i]) == text::lower_char(b[i]),
{
    let f = |c: char| text::lower_char(c);
    let x = a.map_values(f);
    let y = b.map_values(f);
    if same_but_case(a, b) {
        assert(x == y);
        assert(x.len() == a.len() && y.len() == b.len());
        assert forall|i: int| 0 <= i < a.len() implies text::lower_char(#[trigger] a[i])
            == text::lower_char(b[i]) by {
            assert(x[i] == y[i]);
        }
    }
    if a.len() == b.len() && forall|i: int|
        0 <= i < a.len() ==> text::lower_char(#[trigger] a[i]) == text::lower_char(b[i]) {
        assert(x =~= y);
    }
}

/// Why nothing was bound says what failed: the question, the answer, or that there was
/// none.
pub proof fn law_why_nothing_was_bound(e: String, none: Vec<(String, String)>)
    requires
        none@.len() == 0,
    ensures
        binding_of(Err(BindError::Call(e))) == Err::<Seq<Seq<char>>, Seq<char>>(
            "bind_shortcuts: "@ + e@,
        ),
        binding_of(Err(BindError::Response(e))) == Err::<Seq<Seq<char>>, Seq<char>>(
            "bind_shortcuts response: "@ + e@,
        ),
        binding_of(Ok(none)) == Err::<Seq<Seq<char>>, Seq<char>>("the portal bound no shortcuts"@),
{
}

} // verus!
