//! The score of the cues.

use tiro::cues::{cue, cue_len, names, play_cue, Note, SR_OUT};

fn expected_tone_len(dur: f64) -> usize {
    (SR_OUT as f64 * dur) as usize
}

const GAP_LEN: usize = 529; // int(44100 * 0.012)

#[test]
fn cue_lengths_match_original() {
    let len = |name: &str| cue_len(name).unwrap();
    assert_eq!(
        len("start"),
        expected_tone_len(0.055) + GAP_LEN + expected_tone_len(0.075) + GAP_LEN
    );
    assert_eq!(
        len("stop"),
        expected_tone_len(0.055) + GAP_LEN + expected_tone_len(0.085) + GAP_LEN
    );
    assert_eq!(len("done"), expected_tone_len(0.18), "done has no gap");
    assert_eq!(len("copy"), expected_tone_len(0.045), "copy has no gap");
    assert_eq!(
        len("cancel"),
        expected_tone_len(0.07) + GAP_LEN + expected_tone_len(0.11) + GAP_LEN
    );
    assert_eq!(
        len("error"),
        expected_tone_len(0.07) + GAP_LEN + expected_tone_len(0.12) + GAP_LEN
    );
}

#[test]
fn unknown_cue_is_absent() {
    assert!(cue("nope").is_none());
}

#[test]
fn every_cue_has_its_notes() {
    for name in names() {
        let notes = cue(name).unwrap();
        for n in &notes {
            let shape = n.shape();
            assert_eq!(shape.len, expected_tone_len(n.ms as f64 / 1000.0));
            assert_eq!(shape.attack, (SR_OUT as f64 * 0.006) as usize);
            let fade = (n.ms as f64 / 1000.0 * 0.7).min(0.13);
            assert_eq!(shape.release, (SR_OUT as f64 * fade) as usize);
            assert!(shape.gap == GAP_LEN || shape.gap == 0);
            assert!(shape.attack <= shape.len && shape.release <= shape.len);
        }
        assert!(4 * cue_len(name).unwrap() < SR_OUT as usize);
    }
    let done = cue("done").unwrap();
    assert_eq!((done[0].pitch, done[0].second), (65_925, Some(98_777)));
}

#[test]
fn cues_are_played_only_where_they_can_be() {
    assert!(play_cue(true, "start", true).is_some());
    assert!(play_cue(false, "start", true).is_none());
    assert!(play_cue(true, "start", false).is_none());
    assert!(play_cue(true, "nope", true).is_none());
}

#[test]
fn a_note_may_be_long() {
    let note = Note {
        pitch: 44_000,
        second: None,
        ms: 3_600_000,
        volume: 10,
        gap_ms: 61_000,
    };
    let shape = note.shape();
    assert_eq!(shape.len, 158_760_000);
    assert_eq!(shape.gap, 2_690_100);
    assert_eq!(shape.release, 5_733);
}
