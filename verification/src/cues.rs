//! The score of the sound cues: short sine tones, one note after the other.

use crate::text;
use vstd::prelude::*;

verus! {

/// The samples of a second.
pub const SR_OUT: u32 = 44_100;

/// The silence behind a note, in milliseconds.
pub const GAP_MS: u32 = 12;

/// The longest that a note fades for, in tenths of a millisecond.
pub const LONGEST_RELEASE: u32 = 1300;

/// How long a note takes to swell, in milliseconds.
pub const ATTACK_MS: u32 = 6;

/// A note: one sine, or two that sound together.
#[derive(Clone, Copy, PartialEq, Eq, Structural, Debug)]
pub struct Note {
    /// The frequency, in hundredths of a hertz.
    pub pitch: u32,
    /// The frequency of the second voice.
    pub second: Option<u32>,
    pub ms: u32,
    /// In hundredths.
    pub volume: u32,
    /// The silence behind it.
    pub gap_ms: u32,
}

pub open spec fn a_note(pitch: u32, ms: u32, volume: u32) -> Note {
    Note { pitch, second: None, ms, volume, gap_ms: GAP_MS }
}

/// The notes of a cue: nothing for a name that is none.
pub open spec fn score_of(name: Seq<char>) -> Option<Seq<Note>> {
    if name == "start"@ {
        Some(seq![a_note(52325, 55, 16), a_note(78399, 75, 18)])
    } else if name == "stop"@ {
        Some(seq![a_note(78399, 55, 15), a_note(58733, 85, 15)])
    } else if name == "done"@ {
        Some(seq![Note { pitch: 65925, second: Some(98777), ms: 180, volume: 17, gap_ms: 0 }])
    } else if name == "cancel"@ {
        Some(seq![a_note(39200, 70, 11), a_note(31113, 110, 9)])
    } else if name == "copy"@ {
        Some(seq![Note { pitch: 104650, second: None, ms: 45, volume: 13, gap_ms: 0 }])
    } else if name == "error"@ {
        Some(seq![a_note(44000, 70, 15), a_note(32963, 120, 15)])
    } else {
        None
    }
}

/// The names of the cues, in the order in which they are tried out.
pub fn names() -> (r: Vec<&'static str>)
    ensures
        r@ == seq!["start", "stop", "done", "cancel", "copy", "error"],
{
    let r = vec!["start", "stop", "done", "cancel", "copy", "error"];
    assert(r@ == seq!["start", "stop", "done", "cancel", "copy", "error"]);
    r
}

fn note(pitch: u32, ms: u32, volume: u32) -> (r: Note)
    ensures
        r == a_note(pitch, ms, volume),
{
    Note { pitch, second: None, ms, volume, gap_ms: GAP_MS }
}

/// The notes of a cue: nothing for a name that is none.
pub fn cue(name: &str) -> (r: Option<Vec<Note>>)
    ensures
        match r {
            Some(v) => score_of(name@) == Some(v@),
            None => score_of(name@) is None,
        },
{
    let notes: Vec<Note> = if text::str_eq(name, "start") {
        vec![note(52325, 55, 16), note(78399, 75, 18)]
    } else if text::str_eq(name, "stop") {
        vec![note(78399, 55, 15), note(58733, 85, 15)]
    } else if text::str_eq(name, "done") {
        vec![Note { pitch: 65925, second: Some(98777), ms: 180, volume: 17, gap_ms: 0 }]
    } else if text::str_eq(name, "cancel") {
        vec![note(39200, 70, 11), note(31113, 110, 9)]
    } else if text::str_eq(name, "copy") {
        vec![Note { pitch: 104650, second: None, ms: 45, volume: 13, gap_ms: 0 }]
    } else if text::str_eq(name, "error") {
        vec![note(44000, 70, 15), note(32963, 120, 15)]
    } else {
        return None;
    };
    assert(score_of(name@).unwrap() =~= notes@);
    Some(notes)
}

/// The notes to play, where cues are on, the name is that of one, and the volume
/// that was set can be made out.
pub fn play_cue(beeps: bool, name: &str, volume_known: bool) -> (r: Option<Vec<Note>>)
    ensures
        match r {
            Some(v) => beeps && volume_known && score_of(name@) == Some(v@),
            None => !beeps || !volume_known || score_of(name@) is None,
        },
{
    if beeps && volume_known {
        cue(name)
    } else {
        None
    }
}

/// The samples of `ms` milliseconds.
pub open spec fn samples(ms: int) -> int {
    SR_OUT * ms / 1000
}

/// How the samples of a note are shaped.
#[derive(Clone, Copy, PartialEq, Eq, Structural, Debug)]
pub struct Shape {
    /// How many samples sound.
    pub len: usize,
    /// Over how many of the first the note swells.
    pub attack: usize,
    /// Over how many of the last it fades.
    pub release: usize,
    /// How many silent samples follow.
    pub gap: usize,
}

/// Over how many samples a note fades: over seven tenths of it, but not for
/// longer than the longest release.
pub open spec fn fade(ms: int) -> int {
    let tenths = if 7 * ms <= LONGEST_RELEASE {
        7 * ms
    } else {
        LONGEST_RELEASE as int
    };
    let n = SR_OUT * tenths / 10_000;
    if n < 1 {
        1
    } else {
        n
    }
}

impl Note {
    /// How the samples of the note are shaped.
    pub fn shape(&self) -> (r: Shape)
        requires
            samples(self.ms as int) <= usize::MAX,
            samples(self.gap_ms as int) <= usize::MAX,
        ensures
            r.len == samples(self.ms as int),
            r.attack == samples(ATTACK_MS as int),
            r.release == fade(self.ms as int),
            r.gap == samples(self.gap_ms as int),
    {
        let len: u64 = 44_100 * self.ms as u64 / 1000;
        let attack: u64 = 44_100 * 6 / 1000;
        let tenths: u64 = if 7 * self.ms as u64 <= LONGEST_RELEASE as u64 {
            7 * self.ms as u64
        } else {
            1300
        };
        let fading: u64 = 44_100 * tenths / 10_000;
        let gap: u64 = 44_100 * self.gap_ms as u64 / 1000;
        Shape {
            len: len as usize,
            attack: attack as usize,
            release: if fading < 1 {
                1
            } else {
                fading as usize
            },
            gap: gap as usize,
        }
    }
}

/// How many samples the notes make.
pub open spec fn length(notes: Seq<Note>) -> int
    decreases notes.len(),
{
    if notes.len() == 0 {
        0
    } else {
        length(notes.drop_last()) + samples(notes.last().ms as int) + samples(
            notes.last().gap_ms as int,
        )
    }
}

/// How many samples a cue has: nothing for a name that is none.
pub fn cue_len(name: &str) -> (r: Option<usize>)
    ensures
        match r {
            Some(n) => score_of(name@) matches Some(notes) && n == length(notes),
            None => score_of(name@) is None,
        },
{
    match cue(name) {
        Some(notes) => {
            let mut n: usize = 0;
            for i in 0..notes.len()
                invariant
                    notes@.len() <= 2,
                    forall|k: int|
                        0 <= k < notes@.len() ==> (#[trigger] notes@[k]).ms <= 180
                            && notes@[k].gap_ms <= 12,
                    n == length(notes@.take(i as int)),
                    n <= 10_000 * i,
            {
                let shape = notes[i].shape();
                assert(notes@.take(i + 1).drop_last() == notes@.take(i as int));
                n = n + shape.len + shape.gap;
            }
            assert(notes@.take(notes@.len() as int) == notes@);
            Some(n)
        },
        None => None,
    }
}

/// Every note of every cue has room for its swell and its fade, and no cue lasts
/// as long as a quarter of a second.
pub proof fn law_cues_are_short(name: Seq<char>, i: int)
    requires
        score_of(name) matches Some(notes) && 0 <= i < notes.len(),
    ensures
        ({
            let notes = score_of(name).unwrap();
            &&& samples(ATTACK_MS as int) <= samples(notes[i].ms as int)
            &&& fade(notes[i].ms as int) <= samples(notes[i].ms as int)
            &&& 4 * length(notes) < SR_OUT
        }),
{
    let notes = score_of(name).unwrap();
    if notes.len() == 1 {
        assert(notes.drop_last().len() == 0);
    } else {
        assert(notes.drop_last().drop_last().len() == 0);
        assert(notes.drop_last().last() == notes[0]);
    }
    reveal_with_fuel(length, 3);
}

/// A note lasts as long as it says: so many samples as there are in that time.
pub proof fn law_notes_last_as_long_as_they_say(ms: u32)
    ensures
        1000 * samples(ms as int) <= 44_100 * ms < 1000 * (samples(ms as int) + 1),
        samples(1000) == 44_100,
        fade(ms as int) >= 1,
        fade(ms as int) > 1 ==> 10_000 * fade(ms as int) <= 308_700 * ms && 10_000 * fade(
            ms as int,
        ) <= 57_330_000,
        7 * ms <= 1300 ==> 308_700 * ms < 10_000 * (fade(ms as int) + 1),
        7 * ms > 1300 ==> fade(ms as int) == 5733,
{
}

/// The score of every cue.
pub proof fn law_the_score()
    ensures
        ({
            let note = |pitch: u32, ms: u32, volume: u32|
                Note { pitch, second: None, ms, volume, gap_ms: 12 };
            &&& score_of("start"@) == Some(seq![note(52325, 55, 16), note(78399, 75, 18)])
            &&& score_of("stop"@) == Some(seq![note(78399, 55, 15), note(58733, 85, 15)])
            &&& score_of("done"@) == Some(
                seq![Note { pitch: 65925, second: Some(98777), ms: 180, volume: 17, gap_ms: 0 }],
            )
            &&& score_of("cancel"@) == Some(seq![note(39200, 70, 11), note(31113, 110, 9)])
            &&& score_of("copy"@) == Some(
                seq![Note { pitch: 104650, second: None, ms: 45, volume: 13, gap_ms: 0 }],
            )
            &&& score_of("error"@) == Some(seq![note(44000, 70, 15), note(32963, 120, 15)])
        }),
{
    reveal_strlit("start");
    reveal_strlit("stop");
    reveal_strlit("done");
    reveal_strlit("cancel");
    reveal_strlit("copy");
    reveal_strlit("error");
    assert("start"@.len() == 5 && "start"@[0] == 's');
    assert("stop"@.len() == 4 && "stop"@[0] == 's');
    assert("done"@.len() == 4 && "done"@[0] == 'd');
    assert("cancel"@.len() == 6);
    assert("copy"@.len() == 4 && "copy"@[0] == 'c');
    assert("error"@.len() == 5 && "error"@[0] == 'e');
}

/// The notes of a cue sound one behind the other.
pub proof fn law_notes_follow_each_other(notes: Seq<Note>, n: Note)
    ensures
        length(Seq::empty()) == 0,
        length(notes.push(n)) == length(notes) + samples(n.ms as int) + samples(n.gap_ms as int),
{
    assert(notes.push(n).drop_last() == notes);
}

} // verus!
