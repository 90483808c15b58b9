//! Where the panel and the pill go.

use tiro::placement::{
    active_work_area, center_on_any, centered_spot, clamp_int_str, expanded_x, format_panel_pos,
    parse_panel_pos, pill_spot, place_window, prefers_x11, resolve_pill_placement,
    without_protocol, work_area, Placement, Window,
};

#[test]
fn wm_protocols_strip_drops_only_take_focus() {
    // Atom values are opaque ids; stand-ins are fine for the pure core.
    let (delete, take_focus, ping, sync) = (11, 22, 33, 44);
    // The exact list GDK writes at realize -> TAKE_FOCUS removed, order kept.
    assert_eq!(
        without_protocol(&[delete, take_focus, ping, sync], take_focus),
        Some(vec![delete, ping, sync])
    );
    // Already clean -> None, so callers never rewrite the property.
    assert_eq!(without_protocol(&[delete, ping, sync], take_focus), None);
    // Empty / absent property -> None.
    assert_eq!(without_protocol(&[], take_focus), None);
}

#[test]
fn panel_pos_parses_x_comma_y() {
    assert_eq!(parse_panel_pos("100,200"), Some((100, 200)));
    assert_eq!(parse_panel_pos(" -5 , 30 "), Some((-5, 30)));
    assert_eq!(parse_panel_pos("0,0"), Some((0, 0)));
}

#[test]
fn panel_pos_garbage_is_unset() {
    for s in ["", ",", "abc", "12", "12,", ",34", "1,2,3", "1.5,2", "x,y"] {
        assert_eq!(parse_panel_pos(s), None, "{s:?} must be unset");
    }
}

#[test]
fn centered_spot_matches_original_math() {
    // 1920x1040 work area at (0,40): a 560x640 panel centers with the
    // mh/16 downward nudge.
    let work = (0, 40, 1920, 1080);
    assert_eq!(
        centered_spot(work, 560, 640),
        Some((680, 40 + (1040 - 640) / 2 + 1040 / 16))
    );
    assert_eq!(centered_spot((0, 0, 0, 0), 560, 640), None);
}

#[test]
fn pill_default_matches_original_spot() {
    // Fresh config (no pill_position/pill_padding values set): the pill
    // must land exactly where the fixed bottom-center ~110-up math put it.
    let work = (0, 40, 1920, 1080);
    let (top, pad) = resolve_pill_placement("bottom", "110");
    assert_eq!((top, pad), (false, 110));
    assert_eq!(
        pill_spot(work, 300, 88, top, pad),
        Some((810, 40 + 1040 - 88 - 110)),
        "default placement must not move"
    );
}

#[test]
fn pill_spot_docks_to_either_edge() {
    // work area (0,40)-(1920,1080): mh = 1040
    let work = (0, 40, 1920, 1080);
    // top, padding P: pill top edge P px below the work-area top
    assert_eq!(pill_spot(work, 300, 88, true, 24), Some((810, 40 + 24)));
    // bottom, padding P: pill bottom edge P px above the work-area bottom
    assert_eq!(
        pill_spot(work, 300, 88, false, 24),
        Some((810, 1080 - 88 - 24))
    );
    // padding 0 hugs the edge exactly
    assert_eq!(pill_spot(work, 300, 88, true, 0), Some((810, 40)));
    assert_eq!(pill_spot(work, 300, 88, false, 0), Some((810, 1080 - 88)));
    // secondary monitor offset carries through (work area not at 0,0)
    let second = (1920, 0, 3840, 1080);
    assert_eq!(pill_spot(second, 300, 88, true, 50), Some((2730, 50)));
    // degenerate work area: no spot
    assert_eq!(pill_spot((0, 0, 0, 0), 300, 88, false, 110), None);
}

#[test]
fn pill_padding_clamps_to_half_the_work_area() {
    let work = (0, 40, 1920, 1080); // mh = 1040 -> cap 520
    assert_eq!(
        pill_spot(work, 300, 88, true, 9999),
        Some((810, 40 + 520)),
        "excessive padding stops at half the work-area height"
    );
    assert_eq!(
        pill_spot(work, 300, 88, false, 9999),
        Some((810, 1080 - 88 - 520))
    );
    assert_eq!(
        pill_spot(work, 300, 88, true, -50),
        Some((810, 40)),
        "negative padding behaves as 0"
    );
}

#[test]
fn pill_placement_resolution_defaults_and_garbage() {
    // untouched config -> the historical spot
    assert_eq!(resolve_pill_placement("bottom", "110"), (false, 110));
    // top is case/space-insensitive
    assert_eq!(resolve_pill_placement(" Top ", "24"), (true, 24));
    assert_eq!(resolve_pill_placement("TOP", "0"), (true, 0));
    // anything unrecognized -> bottom (the default), never a crash
    assert_eq!(resolve_pill_placement("middle", "110"), (false, 110));
    assert_eq!(resolve_pill_placement("", "110"), (false, 110));
    // garbage padding -> the 110 default; negatives floor at 0
    assert_eq!(resolve_pill_placement("bottom", "garbage"), (false, 110));
    assert_eq!(resolve_pill_placement("bottom", ""), (false, 110));
    assert_eq!(resolve_pill_placement("top", "-30"), (true, 0));
}

#[test]
fn remembered_position_validity_across_monitors() {
    let two = [(0, 0, 1920, 1080), (1920, 0, 3840, 1080)];
    // window centered on the second monitor: valid
    assert!(center_on_any(&two, 2500, 300, 560, 640));
    // straddling the seam but center on monitor 1: valid
    assert!(center_on_any(&two, 1700, 300, 560, 640));
    // far off every monitor (unplugged screen at negative x): invalid
    assert!(!center_on_any(&two, -2000, 300, 560, 640));
    assert!(!center_on_any(&two, 100, 2000, 560, 640));
    // no monitors reported at all: invalid, callers fall back to center
    assert!(!center_on_any(&[], 100, 100, 560, 640));
}

#[test]
fn positions_read_back() {
    for (x, y) in [(0, 0), (-5, 30), (i32::MIN, i32::MAX), (1920, -1080)] {
        assert_eq!(parse_panel_pos(&format_panel_pos(x, y)), Some((x, y)));
    }
    assert_eq!(format_panel_pos(-5, 30), "-5,30");
}

#[test]
fn the_latest_position_is_the_one_that_is_kept() {
    let mut p = Placement::new();
    assert!(p.init_panel_tracking("10,20"));
    assert!(!p.init_panel_tracking("30,40"), "tracking starts once");
    assert_eq!(p.panel_pos, Some((10, 20)));
    assert_eq!(p.moved(false, 1, 1), None, "a hidden panel does not move");
    let first = p.moved(true, 50, 60).unwrap();
    let second = p.note_panel_pos(70, 80);
    assert_eq!(p.to_save(first, "10,20"), None, "superseded");
    assert_eq!(p.to_save(second, "10,20").as_deref(), Some("70,80"));
    assert_eq!(p.to_save(second, "70,80"), None, "nothing has changed");
}

#[test]
fn the_pin_is_remembered() {
    let mut p = Placement::default();
    assert!(!p.pinned());
    p.set_pin(true);
    assert!(p.pinned());
}

#[test]
fn a_lost_panel_is_centred_and_remembered() {
    let screen = (0, 0, 1920, 1080);
    let mut p = Placement::new();
    p.note_panel_pos(-4000, 100);
    let spot = place_window(
        &mut p,
        Window::Panel,
        400,
        560,
        &[screen],
        Some(screen),
        false,
        110,
    );
    assert_eq!(spot, centered_spot(screen, 400, 560));
    assert_eq!(p.panel_pos, spot);
    // one that is on a screen stays
    p.note_panel_pos(100, 100);
    let spot = place_window(
        &mut p,
        Window::Panel,
        400,
        560,
        &[screen],
        Some(screen),
        false,
        110,
    );
    assert_eq!(spot, Some((100, 100)));
    // the pill does not touch what is remembered
    let spot = place_window(&mut p, Window::Pill, 300, 88, &[screen], Some(screen), true, 24);
    assert_eq!(spot, Some((810, 24)));
    assert_eq!(p.panel_pos, Some((100, 100)));
    // without a screen nothing moves
    assert_eq!(
        place_window(&mut p, Window::Pill, 300, 88, &[], None, true, 24),
        None
    );
}

#[test]
fn the_active_screen_is_that_of_the_cursor() {
    let (a, b, c) = ((0, 0, 1, 1), (2, 2, 3, 3), (4, 4, 5, 5));
    assert_eq!(active_work_area(Some(a), Some(b), Some(c)), Some(a));
    assert_eq!(active_work_area(None, Some(b), Some(c)), Some(b));
    assert_eq!(active_work_area(None, None, Some(c)), Some(c));
    assert_eq!(active_work_area(None, None, None), None);
    assert_eq!(work_area(10, 20, 300, 400), (10, 20, 310, 420));
}

#[test]
fn an_expanded_panel_stays_on_its_screen() {
    assert_eq!(expanded_x(1500, 0, 1920, 800), Some(1120));
    assert_eq!(expanded_x(100, 0, 1920, 800), None, "it fits where it is");
    assert_eq!(expanded_x(100, 0, 600, 800), Some(0), "a narrow screen");
}

#[test]
fn numbers_are_clamped_or_replaced() {
    assert_eq!(clamp_int_str("7", 0, 10, 5), 7);
    assert_eq!(clamp_int_str("70", 0, 10, 5), 10);
    assert_eq!(clamp_int_str("-7", 0, 10, 5), 0);
    assert_eq!(clamp_int_str("seven", 0, 10, 5), 5);
}

#[test]
fn windows_go_through_the_x_server_where_there_is_one() {
    assert!(prefers_x11(true, true, false));
    assert!(!prefers_x11(false, true, false));
    assert!(!prefers_x11(true, false, false));
    assert!(!prefers_x11(true, true, true));
}
