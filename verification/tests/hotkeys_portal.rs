//! The shortcuts that are bound through the desktop's portal.

use tiro::hotkeys::{actions, configured_bindings};
use tiro::hotkeys_portal::{
    action_for, bound, description, shortcuts, wayland_session, BindError, BindStep, Binder,
    PassStep, Passes,
};

#[test]
fn every_action_id_resolves_to_itself() {
    // The portal echoes back the ids we bind; each must route to its
    // own action, exactly as the grab path dispatches it.
    for (which, _) in actions() {
        assert_eq!(action_for(which), Some(which));
    }
}

#[test]
fn foreign_ids_are_dropped() {
    assert_eq!(action_for(""), None);
    assert_eq!(action_for("Dictate"), None, "ids are case-sensitive");
    assert_eq!(action_for("quit"), None);
}

#[test]
fn every_action_has_a_real_description() {
    for (which, _) in actions() {
        let d = description(which);
        assert!(!d.is_empty() && d != "Tiro shortcut", "{which}: {d}");
    }
}

#[test]
fn a_wayland_session_is_told_by_either_variable() {
    assert!(wayland_session(true, None));
    assert!(wayland_session(false, Some("Wayland")));
    assert!(!wayland_session(false, Some("x11")));
    assert!(!wayland_session(false, None));
}

#[test]
fn shortcuts_carry_their_preferred_trigger() {
    let bindings = configured_bindings(
        vec![
            "ctrl+alt+space".to_string(),
            "ctrl+bogus".to_string(),
            "win+f1".to_string(),
            "esc".to_string(),
        ],
        vec![true; 4],
    );
    let all = shortcuts(&bindings);
    assert_eq!(all[0].id, "dictate");
    assert_eq!(all[0].preferred_trigger.as_deref(), Some("CTRL+ALT+space"));
    assert_eq!(all[1].preferred_trigger, None);
    assert_eq!(all[2].description, "Show or hide the Tiro panel");
    assert_eq!(all[3].preferred_trigger.as_deref(), Some("Escape"));
}

#[test]
fn an_answer_without_shortcuts_is_a_failure() {
    assert_eq!(
        bound(&Vec::new()),
        Err("the portal bound no shortcuts".to_string())
    );
    assert_eq!(
        bound(&vec![("dictate".to_string(), "Ctrl+Alt+Space".to_string())]),
        Ok(vec!["dictate (Ctrl+Alt+Space)".to_string()])
    );
}

#[test]
fn an_older_pass_leaves_the_newer_one_alone() {
    let mut passes = Passes { started: 0 };
    let first = passes.start();
    assert_eq!(passes.before_bind(first), PassStep::Bind);
    let second = passes.start();
    assert_eq!(passes.before_bind(first), PassStep::Stop);
    assert_eq!(passes.after_bind(first, true), PassStep::Stop);
    assert_eq!(passes.after_bind(second, true), PassStep::DropGrabs);
    assert_eq!(passes.after_bind(second, false), PassStep::KeepGrabs);
}

#[test]
fn a_rebind_replaces_the_session() {
    let one = || vec![("panel".to_string(), "Meta+P".to_string())];
    let mut b = Binder::new();
    assert_eq!(
        b.begin(Err("no bus".to_string())),
        BindStep::Failed("no portal proxy: no bus".to_string())
    );
    assert_eq!(b.begin(Ok(())), BindStep::Create);
    assert_eq!(b.created(Ok(())), BindStep::Bind);
    assert_eq!(
        b.answered(Ok(one())),
        BindStep::Done(vec!["panel (Meta+P)".to_string()])
    );
    assert!(b.kept && !b.fresh);
    assert_eq!(b.begin(Ok(())), BindStep::CloseOld);
    assert!(!b.kept);
    assert_eq!(b.old_closed(), BindStep::Create);
    assert_eq!(
        b.created(Err("denied".to_string())),
        BindStep::Failed("create_session: denied".to_string())
    );
    assert!(!b.kept && !b.fresh);
}

#[test]
fn a_session_without_shortcuts_does_not_stay() {
    let failures = [
        (Ok(Vec::new()), "the portal bound no shortcuts"),
        (Err(BindError::Call("a".to_string())), "bind_shortcuts: a"),
        (Err(BindError::Response("b".to_string())), "bind_shortcuts response: b"),
    ];
    for (answer, why) in failures {
        let mut b = Binder::new();
        b.begin(Ok(()));
        b.created(Ok(()));
        assert_eq!(b.answered(answer), BindStep::CloseFresh);
        assert_eq!(b.fresh_closed(), BindStep::Failed(why.to_string()));
        assert!(!b.kept && !b.fresh);
    }
}
