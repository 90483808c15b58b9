//! The keys of a paste, and the session with the portal.

use tiro::inject::{
    any_down, chord, key_down, keycode_down, keycodes_for, paste_at_cursor, persist_token,
    portal_keys, release_step, releases, send_result, windows_stray, windows_watched, x11_chord,
    Backend, Key, Os, Portal, PortalStep, ReleaseStep, RELEASE_WAIT_MS,
};

#[test]
fn keycodes_for_scans_all_columns() {
    // min_keycode 8; two keysyms per keycode; keycode 9 carries 'v'.
    let syms = [0x61, 0x41, 0x76, 0x56, 0xFFE3, 0];
    assert_eq!(keycodes_for(0x76, 8, &syms, 2), vec![9]);
    assert_eq!(keycodes_for(0x56, 8, &syms, 2), vec![9], "shifted column");
    assert_eq!(keycodes_for(0xFFE3, 8, &syms, 2), vec![10]);
    assert!(keycodes_for(0x7A, 8, &syms, 2).is_empty(), "absent keysym");
}

#[test]
fn keycodes_for_reports_every_match() {
    let syms = [0xFFE1, 0, 0xFFE2, 0, 0xFFE1, 0];
    assert_eq!(keycodes_for(0xFFE1, 8, &syms, 2), vec![8, 10]);
}

#[test]
fn keycode_down_reads_the_bitmask() {
    let mut keymap = [0u8; 32];
    keymap[4] = 0b0000_0100; // keycode 34 (byte 4, bit 2)
    assert!(keycode_down(&keymap, 34));
    assert!(!keycode_down(&keymap, 35));
    assert!(!keycode_down(&keymap, 0));
}

/// Closing with no live session asks nothing of the desktop.
#[test]
fn close_without_session_is_a_noop() {
    let mut portal = Portal::new();
    assert!(!portal.kept);
    assert!(!portal.close_portal_session());
    assert!(!portal.kept);
}

/// Token persistence: only a real replacement is written back.
#[test]
fn persist_token_saves_only_changed_replacements() {
    let saved = persist_token("old", Some("new".into()));
    assert_eq!(saved.as_deref(), Some("new"));

    let saved = persist_token("same", Some("same".into()));
    assert_eq!(saved, None, "unchanged token must not be rewritten");

    let saved = persist_token("old", None);
    assert_eq!(saved, None, "a reused session refreshes nothing");
}

#[test]
fn the_way_in_depends_on_the_session() {
    assert_eq!(paste_at_cursor(Os::Windows, true), Backend::SendInput);
    assert_eq!(paste_at_cursor(Os::Linux, true), Backend::Portal);
    assert_eq!(paste_at_cursor(Os::Linux, false), Backend::Xtest);
    assert_eq!(paste_at_cursor(Os::MacOs, false), Backend::Quartz);
}

#[test]
fn a_held_hotkey_is_waited_for() {
    assert_eq!(release_step(false, 0), ReleaseStep::Go);
    assert_eq!(release_step(true, RELEASE_WAIT_MS - 1), ReleaseStep::Wait);
    assert_eq!(release_step(true, RELEASE_WAIT_MS), ReleaseStep::Force);
    let mut keymap = [0u8; 32];
    assert!(!any_down(&keymap, &[9, 34]));
    keymap[4] = 4;
    assert!(any_down(&keymap, &[9, 34]));
}

fn key(code: i32, down: bool) -> Key {
    Key { code, down }
}

#[test]
fn the_keys_of_a_paste_come_from_the_keymap() {
    // codes 8 to 12: v, left control, left alt, right control, left shift
    let syms = [0x76, 0xFFE3, 0xFFE9, 0xFFE4, 0xFFE1];
    let chord = x11_chord(8, &syms, 1).unwrap();
    assert_eq!((chord.ctrl, chord.v), (9, 8));
    assert_eq!(chord.stray, [10, 12]);
    assert_eq!(chord.watched, [10, 12, 11, 9, 8]);
    assert_eq!(chord.forced(), [key(10, false), key(12, false)]);
    assert_eq!(
        chord.keys(),
        [key(9, true), key(8, true), key(8, false), key(9, false)]
    );
    assert_eq!(
        x11_chord(8, &[0x61], 1),
        Err("keymap has no Control_L / V keycode".to_string())
    );
    assert_eq!(keycodes_for(0x76, 250, &[0, 0, 0, 0, 0, 0, 0x76], 0), [255]);
}

#[test]
fn a_paste_lands_as_the_plain_chord() {
    // the user still holds the hotkey: control, alt and V
    let mut down = vec![29, 56, 47];
    for k in portal_keys() {
        down.retain(|&c| c != k.code);
        if k.down {
            down.push(k.code);
            if k.code == 47 {
                assert_eq!(down, [29, 47], "what is down when V is struck");
            }
        }
    }
    assert!(down.is_empty());
    assert_eq!(chord(29, 47)[..], portal_keys()[8..]);
    assert_eq!(releases(&windows_stray()).len(), 4);
    assert_eq!(windows_watched().len(), 6);
}

#[test]
fn windows_says_what_it_took() {
    assert_eq!(send_result(4, 4), Ok(()));
    assert_eq!(
        send_result(1, 4),
        Err("SendInput injected 1/4 events".to_string())
    );
    assert!(key_down(0x8001));
    assert!(!key_down(1));
}

#[test]
fn one_session_serves_every_paste() {
    let mut p = Portal::new();
    assert_eq!(p.paste("old".to_string()), PortalStep::Create);
    assert_eq!(p.created(Ok(())), PortalStep::Start(Some("old".to_string())));
    assert_eq!(p.started(Ok(Some("new".to_string()))), PortalStep::Inject);
    assert_eq!(p.injected(Ok(())), PortalStep::Done(Some("new".to_string())));
    assert!(p.kept && !p.out);
    // the next one reuses it
    assert_eq!(p.paste("new".to_string()), PortalStep::Inject);
    assert!(!p.kept && p.out);
    assert_eq!(p.injected(Ok(())), PortalStep::Done(None));
    assert!(p.kept);
    // a dead one is replaced within the paste
    assert_eq!(p.paste(String::new()), PortalStep::Inject);
    assert_eq!(p.injected(Err("gone".to_string())), PortalStep::Close);
    assert_eq!(p.closed(), PortalStep::Create);
    assert_eq!(p.created(Ok(())), PortalStep::Start(None));
    assert_eq!(p.started(Err("denied".to_string())), PortalStep::Close);
    assert_eq!(
        p.closed(),
        PortalStep::Failed("RemoteDesktop portal: denied".to_string())
    );
    assert!(!p.kept && !p.out);
    assert_eq!(p.paste(String::new()), PortalStep::Create);
    assert_eq!(
        p.created(Err("no bus".to_string())),
        PortalStep::Failed("RemoteDesktop portal: no bus".to_string())
    );
}

#[test]
fn a_fresh_session_that_cannot_type_is_closed() {
    let mut p = Portal::new();
    p.paste("t".to_string());
    p.created(Ok(()));
    p.started(Ok(None));
    assert_eq!(p.injected(Err("mute".to_string())), PortalStep::Close);
    assert_eq!(
        p.closed(),
        PortalStep::Failed("RemoteDesktop portal: mute".to_string())
    );
    assert!(!p.close_portal_session());
}
