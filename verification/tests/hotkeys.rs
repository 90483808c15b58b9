//! Combinations, the panel cycle, and taps and holds.

use tiro::hotkeys::{
    apply_cmds, coalesce, configured_bindings, dispatch, hold_press, hotkey_event, key_code,
    keysym_name, panel_state, portal_bindings, press_starts_take, register_grabs,
    registration_warning, to_accelerator, to_portal_trigger, Applied, Binding, Dispatched, Grab,
    HoldCore, Inflight, Job, MapStep, PanelCmd, PanelPlan, PanelState, PressAction, ReleaseAction,
    Route, Snapshots, HOLD_MS, NS_PER_MS,
};

#[test]
fn accelerators_for_the_defaults() {
    assert_eq!(
        to_accelerator("ctrl+alt+space").as_deref(),
        Some("Ctrl+Alt+Space")
    );
    assert_eq!(
        to_accelerator("ctrl+alt+v").as_deref(),
        Some("Ctrl+Alt+KeyV")
    );
    assert_eq!(
        to_accelerator("ctrl+alt+x").as_deref(),
        Some("Ctrl+Alt+KeyX")
    );
}

#[test]
fn accelerator_key_forms() {
    assert_eq!(to_accelerator("shift+f12").as_deref(), Some("Shift+F12"));
    assert_eq!(to_accelerator("win+5").as_deref(), Some("Super+Digit5"));
    assert_eq!(
        to_accelerator("ctrl+pageup").as_deref(),
        Some("Ctrl+PageUp")
    );
    assert_eq!(to_accelerator("ctrl+`").as_deref(), Some("Ctrl+Backquote"));
    assert_eq!(to_accelerator("esc").as_deref(), Some("Escape"));
}

#[test]
fn accelerator_rejects_unmappable() {
    assert_eq!(to_accelerator(""), None);
    assert_eq!(to_accelerator("ctrl+alt"), None, "no non-modifier key");
    assert_eq!(to_accelerator("ctrl+bogus"), None);
    assert_eq!(to_accelerator("ctrl+f25"), None);
}

#[test]
fn portal_triggers_for_the_defaults() {
    assert_eq!(
        to_portal_trigger("ctrl+alt+space").as_deref(),
        Some("CTRL+ALT+space")
    );
    assert_eq!(
        to_portal_trigger("ctrl+alt+v").as_deref(),
        Some("CTRL+ALT+v")
    );
    assert_eq!(
        to_portal_trigger("ctrl+alt+c").as_deref(),
        Some("CTRL+ALT+c")
    );
    assert_eq!(
        to_portal_trigger("ctrl+alt+x").as_deref(),
        Some("CTRL+ALT+x")
    );
}

#[test]
fn portal_trigger_key_forms() {
    // letters and digits keep their xkb keysym names verbatim
    assert_eq!(to_portal_trigger("shift+a").as_deref(), Some("SHIFT+a"));
    assert_eq!(to_portal_trigger("win+5").as_deref(), Some("LOGO+5"));
    assert_eq!(to_portal_trigger("meta+9").as_deref(), Some("LOGO+9"));
    assert_eq!(to_portal_trigger("shift+f12").as_deref(), Some("SHIFT+F12"));
    assert_eq!(
        to_portal_trigger("ctrl+pageup").as_deref(),
        Some("CTRL+Page_Up")
    );
    assert_eq!(to_portal_trigger("ctrl+`").as_deref(), Some("CTRL+grave"));
    assert_eq!(to_portal_trigger("esc").as_deref(), Some("Escape"));
    assert_eq!(
        to_portal_trigger("ctrl+backspace").as_deref(),
        Some("CTRL+BackSpace")
    );
    // duplicate/alias modifiers collapse, mixed case accepted
    assert_eq!(
        to_portal_trigger("Ctrl+Control+Shift+C").as_deref(),
        Some("CTRL+SHIFT+c")
    );
}

#[test]
fn portal_trigger_rejects_what_the_accelerator_rejects() {
    for combo in ["", "ctrl+alt", "ctrl+bogus", "ctrl+f25"] {
        assert_eq!(to_portal_trigger(combo), None, "combo {combo:?}");
        assert_eq!(to_accelerator(combo), None, "combo {combo:?}");
    }
    // and both accept the same valid domain
    for combo in ["ctrl+alt+space", "win+f1", "shift+.", "ctrl+alt+enter"] {
        assert!(to_portal_trigger(combo).is_some(), "combo {combo:?}");
        assert!(to_accelerator(combo).is_some(), "combo {combo:?}");
    }
}

use PanelCmd::{Summon, Toggle};
use PanelState::{Buried, Focused, Hidden};

fn plan(state: PanelState, cmds: &[PanelCmd]) -> PanelPlan {
    coalesce(state, cmds)
}

#[test]
fn single_press_advances_the_cycle() {
    assert_eq!(
        plan(Hidden, &[Toggle]),
        PanelPlan {
            map: Some(true),
            front: true
        },
        "hidden + press = show and bring to front"
    );
    assert_eq!(
        plan(Buried, &[Toggle]),
        PanelPlan {
            map: None,
            front: true
        },
        "buried + press = raise and focus only — no re-map, no hide"
    );
    assert_eq!(
        plan(Focused, &[Toggle]),
        PanelPlan {
            map: Some(false),
            front: false
        },
        "focused + press = hide, no raise"
    );
}

#[test]
fn rapid_presses_coalesce_to_net_intent() {
    // press-press from buried: raise-then-hide — each press advances
    // the cycle, so the burst nets out to a single hide
    assert_eq!(
        plan(Buried, &[Toggle, Toggle]),
        PanelPlan {
            map: Some(false),
            front: false
        }
    );
    // press-press from hidden: open-then-close, net nothing, ends hidden
    assert_eq!(
        plan(Hidden, &[Toggle, Toggle]),
        PanelPlan {
            map: None,
            front: false
        }
    );
    // press-press-press from hidden ends visible (one show, one raise)
    assert_eq!(
        plan(Hidden, &[Toggle, Toggle, Toggle]),
        PanelPlan {
            map: Some(true),
            front: true
        }
    );
    // press-press from focused: close-then-open — no map change, but
    // the panel ends (stays) visible and is raised
    assert_eq!(
        plan(Focused, &[Toggle, Toggle]),
        PanelPlan {
            map: None,
            front: true
        }
    );
    // press-press-press from buried: raise, hide, show — already
    // mapped, so no map change, but it ends front-and-focused
    assert_eq!(
        plan(Buried, &[Toggle, Toggle, Toggle]),
        PanelPlan {
            map: None,
            front: true
        }
    );
    // four presses from focused: even parity, ends (stays) visible and
    // raised because the last press turned it back on
    assert_eq!(
        plan(Focused, &[Toggle, Toggle, Toggle, Toggle]),
        PanelPlan {
            map: None,
            front: true
        }
    );
    // odd parity from focused ends hidden
    assert_eq!(
        plan(Focused, &[Toggle, Toggle, Toggle]),
        PanelPlan {
            map: Some(false),
            front: false
        }
    );
}

#[test]
fn summon_always_ends_visible_and_in_front() {
    assert_eq!(
        plan(Hidden, &[Summon]),
        PanelPlan {
            map: Some(true),
            front: true
        }
    );
    assert_eq!(
        plan(Focused, &[Summon]),
        PanelPlan {
            map: None,
            front: true
        },
        "already visible: raise only, never re-map"
    );
    assert_eq!(
        plan(Buried, &[Summon]),
        PanelPlan {
            map: None,
            front: true
        },
        "a buried panel is raised, never hidden, by a summon"
    );
    // a toggle after a summon still wins — strict press order
    assert_eq!(
        plan(Focused, &[Summon, Toggle]),
        PanelPlan {
            map: Some(false),
            front: false
        }
    );
    // and a summon after a hide-toggle rescues visibility
    assert_eq!(
        plan(Focused, &[Toggle, Summon]),
        PanelPlan {
            map: None,
            front: true
        }
    );
}

#[test]
fn empty_burst_is_a_noop() {
    for state in [Hidden, Buried, Focused] {
        assert_eq!(
            plan(state, &[]),
            PanelPlan {
                map: None,
                front: false
            },
            "{state:?}"
        );
    }
}

// ---- tap/hold state machine (shared by the dictate and paste keys) ----
//
// The same HoldCore drives both keys; only the dispatched action
// differs (dictate = clipboard toggle/stop, paste = stop-and-paste), so
// one set of decision-table tests covers both.

fn ms(n: u64) -> u64 {
    n * NS_PER_MS
}

#[test]
fn tap_dispatches_on_press_and_its_release_is_inert() {
    let mut c = HoldCore::default();
    let t0: u64 = 3_600_000 * NS_PER_MS;
    assert_eq!(c.press(t0, true), PressAction::Dispatch); // starts the take
    let p = c.release(t0 + ms(120)).expect("live press");
    assert!(!p.held);
    // recording is live (the tap started it) but a tap never PTT-stops:
    // today's toggle — the NEXT tap stops it
    assert_eq!(c.resolve(&p, true), ReleaseAction::Inert);
    assert_eq!(c.press(t0 + ms(2000), false), PressAction::Dispatch);
}

#[test]
fn hold_release_finishes_the_take_it_started() {
    let mut c = HoldCore::default();
    let t0: u64 = 3_600_000 * NS_PER_MS;
    assert_eq!(c.press(t0, true), PressAction::Dispatch);
    let p = c.release(t0 + ms(HOLD_MS)).expect("live press");
    assert!(p.held);
    // dictate: clipboard stop; paste: stop-copy-paste — same decision
    assert_eq!(c.resolve(&p, true), ReleaseAction::Finish);
    // and the core is ready for the next take
    assert_eq!(c.press(t0 + ms(HOLD_MS + 500), true), PressAction::Dispatch);
}

#[test]
fn finishing_press_held_long_has_an_inert_release() {
    // Edge 1: V pressed while a take (started by Space or an earlier V
    // tap) is live stops-and-pastes ON PRESS (starts_take = false);
    // holding that press and releasing must not fire anything more.
    let mut c = HoldCore::default();
    let t0: u64 = 3_600_000 * NS_PER_MS;
    assert_eq!(c.press(t0, false), PressAction::Dispatch); // the finishing press
    let p = c.release(t0 + ms(700)).expect("live press");
    assert!(p.held);
    // by release time the press's dispatch has stopped the take
    assert_eq!(c.resolve(&p, false), ReleaseAction::Inert);
    // ...and even if ANOTHER key started a new take meanwhile, a
    // non-starting press's release still must not touch it
    let mut c2 = HoldCore::default();
    assert_eq!(c2.press(t0, false), PressAction::Dispatch);
    let p2 = c2.release(t0 + ms(700)).expect("live press");
    assert_eq!(c2.resolve(&p2, true), ReleaseAction::Inert);
}

#[test]
fn tap_then_later_hold_finishes_on_the_second_press() {
    // Edge 2 as a sequence: tap V starts the take; a later hold of V is
    // a finishing press (recording is live, so starts_take = false) —
    // stop-and-paste fires on the press, the release stays inert.
    let mut c = HoldCore::default();
    let t0: u64 = 3_600_000 * NS_PER_MS;
    assert_eq!(c.press(t0, true), PressAction::Dispatch); // tap: starts take
    let p = c.release(t0 + ms(100)).expect("live press");
    assert_eq!(c.resolve(&p, true), ReleaseAction::Inert); // still recording
    let t1 = t0 + ms(3000);
    assert_eq!(c.press(t1, false), PressAction::Dispatch); // finishing press
    let p = c.release(t1 + ms(900)).expect("live press");
    assert!(p.held);
    assert_eq!(c.resolve(&p, false), ReleaseAction::Inert);
}

#[test]
fn hold_through_mic_failure_release_is_inert() {
    // Edge 3: the idle press claimed starts_take, but the mic never
    // opened, so recording is false at release time — nothing to stop,
    // and the release must not toggle a fresh recording on.
    let mut c = HoldCore::default();
    let t0: u64 = 3_600_000 * NS_PER_MS;
    assert_eq!(c.press(t0, true), PressAction::Dispatch);
    let p = c.release(t0 + ms(600)).expect("live press");
    assert!(p.held);
    assert_eq!(c.resolve(&p, false), ReleaseAction::Inert);
}

#[test]
fn autorepeat_never_stops_the_take_early() {
    // Edge 4: X11 autorepeat while held arrives as release+press pairs
    // a few ms apart. Every repeat Released is voided by its paired
    // Pressed's generation bump; every repeat Pressed is swallowed; the
    // eventual real release still finishes the take.
    let mut c = HoldCore::default();
    let t0: u64 = 3_600_000 * NS_PER_MS;
    assert_eq!(c.press(t0, true), PressAction::Dispatch);
    let mut t = t0 + ms(500); // autorepeat kicks in
    let mut voided = Vec::new();
    for _ in 0..5 {
        let p = c.release(t).expect("hold is live");
        assert_eq!(c.press(t + ms(3), false), PressAction::Swallow);
        voided.push(p);
        t += ms(35);
    }
    for p in &voided {
        assert_eq!(c.resolve(p, true), ReleaseAction::Inert, "voided repeat");
    }
    // the real release (no paired Pressed follows) finishes the take
    let p = c.release(t).expect("hold still live");
    assert!(p.held);
    assert_eq!(c.resolve(&p, true), ReleaseAction::Finish);
}

#[test]
fn focus_steal_synthetic_release_does_not_stop_the_hold() {
    // THE KDE Wayland premature-stop bug: hold Ctrl+Alt+V, the take
    // starts, the pill maps and the compositor moves keyboard focus —
    // XWayland synthesizes a Released for the held chord (no re-press
    // reaches the grab). It commits as if the user let go. When
    // autorepeat resumes at the repeat delay as Released+Pressed pairs,
    // the stray Released pairs with a Pressed that used to look like a
    // fresh press and toggled the take OFF while the key was still
    // physically held.
    let mut c = HoldCore::default();
    let t0: u64 = 3_600_000 * NS_PER_MS;
    // the hold starts the take
    assert_eq!(c.press(t0, true), PressAction::Dispatch);
    // ~150ms in: synthetic Released from the focus change, then silence
    let synth = c.release(t0 + ms(150)).expect("hold is live");
    assert!(!synth.held);
    // the debounce expires with recording still on: it commits
    assert_eq!(c.resolve(&synth, true), ReleaseAction::Inert);
    // autorepeat resumes at the 600ms repeat delay: a Released+Pressed
    // pair whose Released finds no live press...
    let t1 = t0 + ms(600);
    assert!(c.release(t1).is_none(), "stray release: hold was committed");
    // ...and whose Pressed is repeat-shaped: swallowed, hold revived
    assert_eq!(c.press(t1 + ms(3), false), PressAction::Swallow);
    // further repeat pairs behave like normal autorepeat against the
    // revived hold
    let mut t = t1 + ms(40);
    let mut voided = Vec::new();
    for _ in 0..3 {
        let p = c.release(t).expect("hold is live again");
        assert_eq!(c.press(t + ms(3), false), PressAction::Swallow);
        voided.push(p);
        t += ms(40);
    }
    for p in &voided {
        assert_eq!(c.resolve(p, true), ReleaseAction::Inert, "voided repeat");
    }
    // the real physical release finally lands — push-to-talk finishes,
    // with the hold measured from the ORIGINAL press
    let real = c.release(t + ms(100)).expect("hold is live");
    assert!(real.held, "hold duration measured from the original press");
    assert_eq!(c.resolve(&real, true), ReleaseAction::Finish);
}

#[test]
fn repeat_shaped_press_never_dispatches() {
    // A Pressed hard on the heels of a Released is the second half of
    // an autorepeat pair even when there is no live press and nothing
    // to resurrect — it must never dispatch (a dispatch here is a
    // spurious take toggle).
    let mut c = HoldCore::default();
    let t0: u64 = 3_600_000 * NS_PER_MS;
    assert!(c.release(t0).is_none()); // stray release
    assert_eq!(c.press(t0 + ms(10), true), PressAction::Swallow);
    // a press a human-scale gap later is genuine
    assert_eq!(c.press(t0 + ms(300), true), PressAction::Dispatch);
}

#[test]
fn synthetic_release_after_cancel_stays_dead() {
    // Synthetic release commits mid-hold, the take is then cancelled
    // elsewhere (recording = false at commit): nothing to resurrect —
    // later repeat-shaped presses stay swallowed without reviving a
    // hold, and the eventual real release is inert.
    let mut c = HoldCore::default();
    let t0: u64 = 3_600_000 * NS_PER_MS;
    assert_eq!(c.press(t0, true), PressAction::Dispatch);
    let synth = c.release(t0 + ms(150)).expect("hold is live");
    assert_eq!(c.resolve(&synth, false), ReleaseAction::Inert); // take already dead
    let t1 = t0 + ms(600);
    assert!(c.release(t1).is_none());
    assert_eq!(c.press(t1 + ms(3), false), PressAction::Swallow);
    assert!(c.release(t1 + ms(40)).is_none(), "no hold was revived");
}

#[test]
fn missing_released_degrades_to_toggle() {
    // A platform that never delivers Released: no Released ever
    // precedes a press, so every press is a fresh press and the key
    // behaves as the plain toggle.
    let mut c = HoldCore::default();
    let t0: u64 = 3_600_000 * NS_PER_MS;
    assert_eq!(c.press(t0, true), PressAction::Dispatch); // starts the take
    assert_eq!(c.press(t0 + ms(5000), false), PressAction::Dispatch); // stops it
    assert_eq!(c.press(t0 + ms(9000), true), PressAction::Dispatch); // starts again
}

#[test]
fn stray_release_is_ignored() {
    // e.g. the shortcut registered while the key was already down
    let mut c = HoldCore::default();
    assert!(c.release(ms(7)).is_none());
}

#[test]
fn edges_go_to_the_key_they_belong_to() {
    for which in ["dictate", "paste"] {
        assert_eq!(hotkey_event(which, true), Route::Hold);
        assert_eq!(hotkey_event(which, false), Route::Hold);
    }
    assert_eq!(hotkey_event("panel", true), Route::Dispatch);
    assert_eq!(hotkey_event("panel", false), Route::Ignore);
}

#[test]
fn pasting_during_a_transcription_starts_nothing() {
    assert!(press_starts_take(false, false, "paste"));
    assert!(!press_starts_take(false, true, "paste"));
    assert!(press_starts_take(false, true, "dictate"));
    assert!(!press_starts_take(true, false, "dictate"));
    let mut core = HoldCore::default();
    assert!(hold_press(&mut core, "paste", ms(10), false, true));
    assert!(!core.starts_take);
}

#[test]
fn an_action_that_runs_is_not_run_twice() {
    let mut running = Inflight::new();
    assert_eq!(dispatch(&mut running, "dictate"), Dispatched::Run(Job::ToggleRecord));
    assert_eq!(dispatch(&mut running, "dictate"), Dispatched::Dropped);
    assert_eq!(dispatch(&mut running, "cancel"), Dispatched::Run(Job::CancelRecord));
    assert_eq!(dispatch(&mut running, "panel"), Dispatched::Panel);
    assert_eq!(dispatch(&mut running, "panel"), Dispatched::Panel);
    running.end("dictate");
    assert_eq!(dispatch(&mut running, "dictate"), Dispatched::Run(Job::ToggleRecord));
    assert_eq!(dispatch(&mut running, "nope"), Dispatched::Run(Job::Nothing));
    assert_eq!(dispatch(&mut running, "paste"), Dispatched::Run(Job::PasteTake));
}

fn defaults() -> Vec<Binding> {
    configured_bindings(
        vec![
            "ctrl+alt+space".to_string(),
            "ctrl+alt+v".to_string(),
            "ctrl+bogus".to_string(),
            "ctrl+alt+x".to_string(),
        ],
        vec![true, true, true, false],
    )
}

#[test]
fn what_cannot_be_registered_is_skipped() {
    let grabs = register_grabs(&defaults());
    assert_eq!(
        grabs,
        [
            Grab::Register("Ctrl+Alt+Space".into()),
            Grab::Register("Ctrl+Alt+KeyV".into()),
            Grab::Skip,
            Grab::Skip,
        ]
    );
    let bound = portal_bindings(defaults());
    let names: Vec<&str> = bound.iter().map(|b| b.which).collect();
    assert_eq!(names, ["dictate", "paste", "panel"]);
}

#[test]
fn only_the_panel_key_is_worth_a_warning() {
    assert_eq!(registration_warning("dictate", "ctrl+x"), None);
    let text = registration_warning("panel", "ctrl+x").unwrap();
    assert!(text.starts_with("Tiro could not register the panel hotkey:\n\n    ctrl+x\n\n"));
    assert!(text.ends_with("then restart Tiro."));
}

#[test]
fn windows_that_cannot_answer_are_taken_for_safe() {
    assert_eq!(panel_state(None, Some(true)), PanelState::Hidden);
    assert_eq!(panel_state(Some(true), None), PanelState::Focused);
    assert_eq!(panel_state(Some(true), Some(false)), PanelState::Buried);
    assert_eq!(
        apply_cmds(Some(false), None, &[Toggle]),
        (
            MapStep::PlaceAndShow,
            Applied {
                shown: true,
                front: true
            }
        )
    );
    assert_eq!(
        apply_cmds(Some(true), Some(true), &[Toggle]),
        (
            MapStep::RememberAndHide,
            Applied {
                shown: false,
                front: false
            }
        )
    );
    assert_eq!(apply_cmds(Some(true), Some(false), &[Summon]).0, MapStep::Leave);
}

#[test]
fn only_the_latest_snapshot_is_shown() {
    let mut all = Snapshots { asked: 0 };
    let first = all.ask();
    let second = all.ask();
    assert!(!all.may_show(first));
    assert!(all.may_show(second));
}

#[test]
fn bursts_may_be_cut_in_two() {
    for start in [Hidden, Buried, Focused] {
        for cmds in [[Toggle, Summon], [Summon, Toggle], [Toggle, Toggle]] {
            let whole = coalesce(start, &cmds);
            let first = coalesce(start, &cmds[..1]);
            let between = match first.map {
                Some(false) => Hidden,
                _ => Focused,
            };
            let second = coalesce(between, &cmds[1..]);
            assert_eq!(second.front, whole.front, "{start:?} {cmds:?}");
        }
    }
}

#[test]
fn keys_have_a_code_and_a_symbol() {
    assert_eq!(key_code("space").as_deref(), Some("Space"));
    assert_eq!(keysym_name("space").as_deref(), Some("space"));
    assert_eq!(key_code("f1").as_deref(), Some("F1"));
    assert_eq!(key_code("bogus"), None);
    assert_eq!(keysym_name("bogus"), None);
}

#[test]
fn combinations_may_be_written_in_many_ways() {
    let forms = [
        "ctrl+alt+space",
        "Ctrl+ALT+Space",
        " ctrl + alt +\tspace ",
        "+ctrl++alt+space+",
        "control+alt+space",
    ];
    for form in forms {
        assert_eq!(to_accelerator(form).as_deref(), Some("Ctrl+Alt+Space"), "{form}");
        assert_eq!(
            to_portal_trigger(form),
            to_portal_trigger("ctrl+alt+space"),
            "{form}"
        );
    }
}
