//! The log of takes.

use std::hash::{DefaultHasher, Hash, Hasher};
use tiro::store::{
    clock, entry_from_rec, fmt_clock, fmt_dur, log_dir, log_files, markdown_entry, newest_first,
    read_today_entries, write_log, Fraction, Moment, Rec, Seconds,
};

/// Splits a length into its whole seconds and what is left.
fn secs(s: f64) -> Seconds {
    let rest = s - s.floor();
    Seconds {
        whole: s.floor() as i64,
        rest: if rest > 0.5 {
            Fraction::AboveHalf
        } else if rest == 0.5 {
            Fraction::Half
        } else {
            Fraction::BelowHalf
        },
    }
}

fn at(hour: u32, minute: u32, second: u32) -> Moment {
    Moment {
        year: 2026,
        month: 7,
        day: 27,
        hour,
        minute,
        second,
    }
}

/// The text of a record, from its line.
fn text_of(line: &str) -> Option<String> {
    let value: serde_json::Value = serde_json::from_str(line).ok()?;
    Some(value.get("text")?.as_str()?.to_string())
}

fn line(text: &str) -> String {
    format!("{{\"ts\":\"2026-07-27T10:00:00\",\"text\":\"{text}\",\"secs\":1.0}}\n")
}

#[test]
fn markdown_gets_header_once_then_appends() {
    let mut md = String::new();
    for (text, now) in [("first take", at(9, 5, 0)), ("second take", at(9, 6, 0))] {
        let fresh = md.is_empty();
        md.push_str(&markdown_entry(fresh, &now.day_text(), &now.clock_text(), text));
    }
    assert_eq!(
        md,
        "# Tiro — 2026-07-27\n\nVerbatim dictation capture (raw layer; the \
         refine-transcript pipeline cleans this later). One line per utterance.\n\n\
         - **09:05** — first take\n- **09:06** — second take\n"
    );
}

#[test]
fn today_entries_are_newest_first_and_capped() {
    let mut raw = String::new();
    for i in 0..205 {
        raw.push_str(&line(&format!("take {i}")));
    }
    let entries = read_today_entries(Some(&raw), 200, text_of);
    assert_eq!(entries.len(), 200);
    assert_eq!(entries[0], "take 204", "newest first");
    assert_eq!(entries[199], "take 5", "oldest 5 dropped");
}

#[test]
fn corrupt_jsonl_lines_are_skipped() {
    let mut raw = line("good");
    raw.push_str("not json at all\n");
    raw.push_str(&line("after"));
    let entries = read_today_entries(Some(&raw), 200, text_of);
    assert_eq!(entries.len(), 2);
    assert_eq!(entries[0], "after");
}

#[test]
fn unwritable_vault_falls_back() {
    let dir = log_dir("vault", false, "logs", &Ok(()));
    let logged = write_log(&dir, "fallback take", "", "", "m", "cpu", secs(1.0), &at(11, 0, 0))
        .unwrap();
    assert!(!logged.in_vault, "vault unwritable -> fallback");
    assert_eq!(logged.records, "logs/2026-07-27.jsonl");
}

#[test]
fn entry_shape_matches_bridge_contract() {
    let rec = Rec {
        ts: "2026-07-27T15:42:07".into(),
        text: "hello there".into(),
        clean: "Hello there.".into(),
        mic: "Mic A".into(),
        model: "small.en".into(),
        device: "cuda".into(),
        secs: secs(8.0),
    };
    let e = entry_from_rec(&rec, "base.en", "", (0, 0));
    assert!(e.id.starts_with("2026-07-27T15:42:07|"));
    assert_eq!(e.clock, "3:42 PM");
    assert_eq!(e.dur, "0:08");
    assert_eq!(e.text, "Hello there.", "clean preferred over text");
    assert_eq!(e.device, "GPU", "legacy cuda maps to GPU");
    assert_eq!(e.model, "small.en");
    assert_eq!(e.mic, "Mic A");
}

#[test]
fn entry_falls_back_to_text_and_config() {
    let rec = Rec {
        ts: "2026-07-27T00:05:00".into(),
        text: "raw words".into(),
        clean: String::new(),
        mic: String::new(),
        model: String::new(),
        device: "gpu".into(),
        secs: secs(130.0),
    };
    let e = entry_from_rec(&rec, "base.en", "", (0, 0));
    assert_eq!(e.text, "raw words");
    assert_eq!(e.clock, "12:05 AM", "midnight hour renders as 12");
    assert_eq!(e.dur, "2:10");
    assert_eq!(e.device, "GPU");
    assert_eq!(e.model, "base.en", "falls back to config model");
}

#[test]
fn clock_covers_noon_and_pm() {
    assert_eq!(fmt_clock("2026-07-27T12:00:00", (0, 0)), "12:00 PM");
    assert_eq!(fmt_clock("2026-07-27T23:59:00", (0, 0)), "11:59 PM");
    assert_eq!(fmt_clock("2026-07-27T01:09:00", (0, 0)), "1:09 AM");
}

#[test]
fn dur_rounds_ties_to_even_like_python() {
    assert_eq!(fmt_dur(secs(8.5)), "0:08");
    assert_eq!(fmt_dur(secs(9.5)), "0:10");
    assert_eq!(fmt_dur(secs(-3.0)), "0:00");
    assert_eq!(fmt_dur(secs(59.6)), "1:00");
}

#[test]
fn the_vault_comes_first() {
    assert_eq!(
        log_dir("vault", true, "logs", &Err("x".to_string())),
        Ok(("vault".to_string(), true))
    );
    assert_eq!(
        log_dir("vault", false, "logs", &Err("denied".to_string())),
        Err("denied".to_string())
    );
    let failed = Err("denied".to_string());
    assert_eq!(
        write_log(&failed, "a", "b", "", "", "", secs(1.0), &at(1, 2, 3)),
        Err("denied".to_string())
    );
}

#[test]
fn a_record_holds_the_take_as_it_was_heard() {
    let dir = Ok(("/vault/".to_string(), true));
    let l = write_log(
        &dir,
        "hello there",
        "Hello there.",
        "Mic A",
        "base.en",
        "cpu",
        secs(8.234),
        &at(15, 42, 7),
    )
    .unwrap();
    assert!(l.in_vault);
    assert_eq!(l.rec.ts, "2026-07-27T15:42:07");
    assert_eq!(l.rec.text, "hello there");
    assert_eq!(l.rec.clean, "Hello there.");
    assert_eq!(l.records, "/vault/2026-07-27.jsonl");
    assert_eq!(l.prose, "/vault/2026-07-27.md");
    assert_eq!(log_files("2026-01-02").1, "2026-01-02.md");
}

#[test]
fn every_stamp_shows_its_time() {
    let mut n = 0;
    for year in [0, 1, 1999, 2000, 2024, 2026, 9999] {
        for (month, day) in [(1, 1), (2, 28), (12, 31)] {
            for (hour, minute) in [(0, 0), (9, 5), (12, 59), (23, 1)] {
                let m = Moment {
                    year,
                    month,
                    day,
                    hour,
                    minute,
                    second: 59,
                };
                assert_eq!(
                    fmt_clock(&m.stamp(), (7, 7)),
                    clock(hour, minute),
                    "{}",
                    m.stamp()
                );
                n += 1;
            }
        }
    }
    assert_eq!(n, 84);
    let leap = Moment {
        year: 2024,
        month: 2,
        day: 29,
        hour: 5,
        minute: 6,
        second: 7,
    };
    assert_eq!(leap.stamp(), "2024-02-29T05:06:07");
    assert_eq!(fmt_clock(&leap.stamp(), (7, 7)), "5:06 AM");
}

#[test]
fn what_is_no_stamp_shows_the_present() {
    assert_eq!(fmt_clock("yesterday", (15, 4)), "3:04 PM");
    assert_eq!(fmt_clock("2026-02-30T10:00:00", (0, 30)), "12:30 AM");
}

#[test]
fn the_identifier_is_the_number_of_what_is_shown() {
    let rec = Rec {
        ts: "t".into(),
        text: "raw".into(),
        clean: "Grüße.".into(),
        mic: String::new(),
        model: String::new(),
        device: "CUDA".into(),
        secs: secs(0.0),
    };
    let mut hasher = DefaultHasher::new();
    "Grüße.".hash(&mut hasher);
    let e = entry_from_rec(&rec, "m", "Mic B", (0, 0));
    assert_eq!(e.id, format!("t|{}", hasher.finish() % 100_000));
    assert_eq!(e.device, "GPU");
    assert_eq!(e.mic, "Mic B");
}

#[test]
fn lengths_beyond_measure_stay_whole() {
    assert_eq!(fmt_dur(secs(f64::NAN)), "0:00");
    assert_eq!(fmt_dur(secs(-0.5)), "0:00");
    assert_eq!(fmt_dur(secs(3599.5)), "60:00");
    assert_eq!(fmt_dur(secs(f64::INFINITY)), format!("{}:07", i64::MAX / 60));
}

#[test]
fn a_day_without_a_file_has_no_entries() {
    assert!(read_today_entries(None, 200, text_of).is_empty());
    assert_eq!(newest_first(vec![1, 2, 3], 2), [3, 2]);
    assert_eq!(newest_first(vec![1], 2), [1]);
}
