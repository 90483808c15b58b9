//! Microphones, their formats, and what is recorded from them.

use tiro::audio::{
    all_inputs, append_capped, attempts, candidates, channel_counts, cpal_mic_names, default_first,
    format_label, format_order, is_fresh, is_null_device, list_mic_names, mic_names, parse_sources,
    plan, rate_chain, resample_to_16k, snapshot, take_cap, too_short, Config, Device, Format,
    LevelMeter, Plan, Source, Walk, DEFAULT_SUFFIX, MAX_TAKE_SECS, SOURCES_TTL_NS,
};

fn resample(audio: &[f32], rate: u32) -> Vec<f32> {
    resample_to_16k(audio, rate, |a, b, num, den| {
        let frac = (num as f64 / den as f64) as f32;
        a * (1.0 - frac) + b * frac
    })
}

fn append(buf: &mut Vec<f32>, data: &[f32], channels: u16, max: usize) -> bool {
    append_capped(buf, data, channels, max, |frame| {
        frame.iter().sum::<f32>() / frame.len() as f32
    })
}

fn bits(samples: &[f32]) -> Vec<u32> {
    samples.iter().map(|s| s.to_bits()).collect()
}

#[test]
fn resample_identity_at_16k() {
    let audio = vec![0.1, 0.2, 0.3];
    assert_eq!(resample(&audio, 16_000), audio);
}

#[test]
fn resample_halves_from_32k() {
    let audio: Vec<f32> = (0..3200).map(|i| i as f32).collect();
    let out = resample(&audio, 32_000);
    assert_eq!(out.len(), 1600);
    // positions land exactly on every other input sample
    assert_eq!(out[0], 0.0);
    assert_eq!(out[1], 2.0);
    assert_eq!(out[799], 1598.0);
}

#[test]
fn resample_interpolates_between_samples() {
    // 8 kHz -> 16 kHz doubles length; odd outputs sit halfway between inputs
    let audio = vec![0.0, 1.0, 2.0, 3.0];
    let out = resample(&audio, 8_000);
    assert_eq!(out.len(), 8);
    assert_eq!(out[0], 0.0);
    assert_eq!(out[1], 0.5);
    assert_eq!(out[2], 1.0);
    assert_eq!(out[7], 3.0, "clamped at the final sample");
}

#[test]
fn resample_of_empty_is_empty() {
    assert!(resample(&[], 48_000).is_empty());
}

#[test]
fn null_device_is_recognized() {
    assert!(is_null_device(
        "Discard all samples (playback) or generate zero samples (capture)",
        Some("null"),
    ));
    assert!(
        is_null_device("Discard all samples (playback)", None),
        "description alone is enough"
    );
    assert!(
        is_null_device("anything", Some("null")),
        "raw PCM id alone is enough"
    );
    assert!(!is_null_device("PipeWire Sound Server", Some("pipewire")));
    assert!(!is_null_device("MIC_TEST, USB Audio", None));
    assert!(!is_null_device("Microphone (USB Audio)", Some("{0.0.1}")));
}

#[test]
fn append_capped_mono_under_cap() {
    let mut buf = vec![0.5f32; 3];
    assert!(!append(&mut buf, &[1.0, 2.0], 1, 10));
    assert_eq!(buf, vec![0.5, 0.5, 0.5, 1.0, 2.0]);
}

#[test]
fn append_capped_mono_stops_at_cap() {
    let mut buf = vec![0.0f32; 8];
    assert!(append(&mut buf, &[1.0, 2.0, 3.0], 1, 10));
    assert_eq!(buf.len(), 10);
    assert_eq!(&buf[8..], &[1.0, 2.0]);
    // once full, further data is dropped entirely and still reported
    assert!(append(&mut buf, &[4.0], 1, 10));
    assert_eq!(buf.len(), 10);
}

#[test]
fn append_capped_downmixes_and_caps() {
    let mut buf = Vec::new();
    // stereo frames [1,3] [5,7] [9,11] -> mono 2, 6, 10; cap at 2 frames
    assert!(append(
        &mut buf,
        &[1.0, 3.0, 5.0, 7.0, 9.0, 11.0],
        2,
        2
    ));
    assert_eq!(buf, vec![2.0, 6.0]);
}

#[test]
fn max_take_is_ten_minutes() {
    assert_eq!(MAX_TAKE_SECS, 600);
    // ~45 min of null-device output at 48 kHz would be capped to 10 min
    let cap = 48_000 * MAX_TAKE_SECS;
    assert!(130_887_360 > cap);
}

#[test]
fn level_meter_folds_peak_and_resets_on_take() {
    let mut meter = LevelMeter::new();
    assert_eq!(f32::from_bits(meter.take_peak()), 0.0, "starts silent");
    meter.fold(&bits(&[0.1, -0.5, 0.2]));
    meter.fold(&bits(&[0.3, -0.05]));
    assert_eq!(
        f32::from_bits(meter.take_peak()),
        0.5,
        "peak |sample| across chunks"
    );
    assert_eq!(f32::from_bits(meter.take_peak()), 0.0, "take resets the meter");
    meter.fold(&[]);
    assert_eq!(
        f32::from_bits(meter.take_peak()),
        0.0,
        "empty chunk leaves it silent"
    );
}

#[test]
fn too_short_boundary() {
    assert!(too_short(0, 48_000));
    assert!(too_short(14_399, 48_000), "just under 0.3 s at 48 kHz");
    assert!(!too_short(14_400, 48_000), "exactly 0.3 s at 48 kHz");
    assert!(!too_short(16_000, 16_000), "1 s at 16 kHz");
}

#[test]
fn format_labels() {
    assert_eq!(format_label(Format::F32), "f32");
    assert_eq!(format_label(Format::I16), "i16");
    assert_eq!(format_label(Format::I32), "i32");
    assert_eq!(format_label(Format::U16), "u16");
    assert_eq!(format_label(Format::Other), "?", "unhandled formats");
}

/// Trimmed-down real `pactl --format=json list sources` output: a sink
/// monitor, the built-in mic, a USB mic, one malformed entry, and one
/// source without ALSA properties.
const PACTL_JSON: &str = r#"[
  {"index":51,"name":"alsa_output.pci-0000_00_1f.3.analog-stereo.monitor",
   "description":"Monitor of Built-in Audio Analog Stereo",
   "properties":{"device.class":"monitor","alsa.card_name":"HDA Intel PCH"}},
  {"index":52,"name":"alsa_input.pci-0000_00_1f.3.analog-stereo",
   "description":"Built-in Audio Analog Stereo",
   "properties":{"device.class":"sound","alsa.card_name":"HDA Intel PCH",
                 "alsa.long_card_name":"HDA Intel PCH at 0x6044118000 irq 188"}},
  {"index":1698,"name":"alsa_input.usb-ABC_MIC_TEST-00.iec958-stereo",
   "description":"MIC_TEST Digital Stereo (IEC958)",
   "properties":{"device.class":"sound","alsa.card_name":"MIC_TEST"}},
  {"index":9999},
  {"index":77,"name":"echo-cancel-source",
   "description":"Echo-Cancel Source","properties":{}}
]"#;

const DEFAULT: &str = "alsa_input.usb-ABC_MIC_TEST-00.iec958-stereo";

fn sources() -> Vec<Source> {
    parse_sources(PACTL_JSON).expect("canned JSON parses")
}

#[test]
fn parse_drops_monitors_and_malformed_entries() {
    let s = sources();
    assert_eq!(s.len(), 3, "monitor and nameless entries dropped");
    assert_eq!(s[0].description, "Built-in Audio Analog Stereo");
    assert_eq!(s[0].card_name.as_deref(), Some("HDA Intel PCH"));
    assert_eq!(s[1].description, "MIC_TEST Digital Stereo (IEC958)");
    assert_eq!(s[1].card_name.as_deref(), Some("MIC_TEST"));
    assert_eq!(s[2].description, "Echo-Cancel Source");
    assert_eq!(s[2].card_name, None, "no ALSA properties");
}

#[test]
fn parse_rejects_garbage() {
    assert!(parse_sources("not json").is_none());
    assert!(parse_sources("{\"a\":1}").is_none(), "not an array");
    assert_eq!(parse_sources("[]"), Some(Vec::new()));
}

#[test]
fn monitor_suffix_alone_excludes() {
    let json = r#"[{"name":"x.monitor","description":"Monitor of X"}]"#;
    assert_eq!(parse_sources(json), Some(Vec::new()));
}

#[test]
fn mic_names_default_first_and_labeled() {
    let names = mic_names(&sources(), Some(DEFAULT));
    assert_eq!(
        names,
        vec![
            format!("MIC_TEST Digital Stereo (IEC958){DEFAULT_SUFFIX}"),
            "Built-in Audio Analog Stereo".to_string(),
            "Echo-Cancel Source".to_string(),
        ]
    );
}

#[test]
fn mic_names_without_known_default() {
    let names = mic_names(&sources(), None);
    assert_eq!(names.len(), 3);
    assert_eq!(names[0], "Built-in Audio Analog Stereo", "pactl order");
    let names = mic_names(&sources(), Some("gone-source"));
    assert_eq!(names.len(), 3, "stale default name just goes unlabeled");
}

#[test]
fn plan_empty_and_labeled_names_follow_system_default() {
    let s = sources();
    assert_eq!(plan("", &s, Some(DEFAULT)), Plan::SystemDefault);
    assert_eq!(plan("   ", &s, Some(DEFAULT)), Plan::SystemDefault);
    assert_eq!(
        plan(
            &format!("Built-in Audio Analog Stereo{DEFAULT_SUFFIX}"),
            &s,
            Some(DEFAULT)
        ),
        Plan::SystemDefault,
        "a stale labeled entry still means 'the default'"
    );
}

#[test]
fn plan_default_source_routes_through_default_device() {
    // The chosen source IS the default: share it via PipeWire's default
    // path instead of fighting for the raw hw device.
    assert_eq!(
        plan("MIC_TEST", &sources(), Some(DEFAULT)),
        Plan::SystemDefault
    );
}

#[test]
fn plan_non_default_source_maps_to_its_alsa_card() {
    assert_eq!(
        plan("built-in audio", &sources(), Some(DEFAULT)),
        Plan::Card("HDA Intel PCH".to_string()),
        "case-insensitive substring on the description"
    );
    assert_eq!(
        plan("MIC_TEST", &sources(), Some("other-source")),
        Plan::Card("MIC_TEST".to_string())
    );
}

#[test]
fn plan_source_without_card_falls_back_to_default() {
    assert_eq!(
        plan("Echo-Cancel", &sources(), Some(DEFAULT)),
        Plan::SystemDefault
    );
}

#[test]
fn plan_unmatched_name_is_legacy() {
    assert_eq!(plan("pipewire", &sources(), Some(DEFAULT)), Plan::Legacy);
    assert_eq!(plan("Webcam C920", &sources(), None), Plan::Legacy);
}

fn device(handle: u64, name: &str) -> Device {
    Device {
        handle,
        id: Some(format!("id{handle}")),
        name: Some(name.to_string()),
        driver: None,
        config: None,
    }
}

#[test]
fn the_null_device_is_never_listed() {
    let mut null = device(0, "anything");
    null.driver = Some("null".to_string());
    let mut mute = device(1, "x");
    mute.name = None;
    let all = vec![null, mute, device(2, "A"), device(3, "A"), device(4, "B")];
    assert_eq!(cpal_mic_names(&all), ["A", "B"]);
    let handles: Vec<u64> = all_inputs(&all).iter().map(|i| i.handle).collect();
    assert_eq!(handles, [2, 3, 4]);
    assert_eq!(list_mic_names(&None, &all), ["A", "B"]);
    let known = Some((sources(), Some(DEFAULT.to_string())));
    assert_eq!(list_mic_names(&known, &all).len(), 3);
}

#[test]
fn the_default_device_leads_once() {
    let all = vec![device(2, "A"), device(3, "B")];
    let led = default_first(&Some(device(3, "B")), all_inputs(&all));
    let names: Vec<&str> = led.iter().map(|i| i.name.as_str()).collect();
    assert_eq!(names, ["B", "A"]);
    let mut mute = device(9, "x");
    mute.name = None;
    let led = default_first(&Some(mute), all_inputs(&all));
    assert_eq!(led[0].name, "system default");
    assert_eq!(led.len(), 3);
}

#[test]
fn a_name_picks_its_devices() {
    let all = vec![
        device(1, "HDA Intel PCH, ALC"),
        device(2, "MIC_TEST, USB Audio"),
        device(3, "MIC_TEST, USB Audio"),
    ];
    let default = Some(device(1, "HDA Intel PCH, ALC"));
    let handles = |name: &str, known: &Option<(Vec<Source>, Option<String>)>| -> Vec<u64> {
        candidates(name, known, &all, &default)
            .iter()
            .map(|i| i.handle)
            .collect()
    };
    assert_eq!(handles("mic_test", &None), [2, 3]);
    assert_eq!(handles("", &None), [1, 2, 3]);
    assert_eq!(handles("nope", &None), [1, 2, 3]);
    let known = Some((sources(), Some("other".to_string())));
    assert_eq!(handles("MIC_TEST", &known), [2, 3, 1]);
    let known = Some((sources(), Some(DEFAULT.to_string())));
    assert_eq!(handles("MIC_TEST", &known), [1, 2, 3]);
}

#[test]
fn a_device_is_tried_in_its_own_ways_first() {
    let own = Some(Config {
        rate: 44_100,
        channels: 2,
        format: Format::I16,
    });
    assert_eq!(rate_chain(own), [44_100, 48_000, 16_000]);
    assert_eq!(rate_chain(None), [48_000, 44_100, 16_000]);
    assert_eq!(channel_counts(own), [1, 2]);
    assert_eq!(channel_counts(None), [1, 2]);
    assert_eq!(
        format_order(own),
        [Format::I16, Format::F32, Format::I32, Format::U16]
    );
    assert_eq!(
        format_order(Some(Config {
            rate: 1,
            channels: 1,
            format: Format::Other
        })),
        [Format::F32, Format::I16, Format::I32, Format::U16]
    );
}

#[test]
fn every_way_is_tried_until_one_opens() {
    let mut a = device(5, "A");
    a.config = Some(Config {
        rate: 16_000,
        channels: 1,
        format: Format::F32,
    });
    let inputs = all_inputs(&vec![a]);
    let ways = attempts(&inputs);
    assert_eq!(ways.len(), 3 * 4, "three rates, one channel, four forms");
    assert_eq!(ways[0].rate, 16_000);
    assert_eq!(ways[4].rate, 48_000);
    let mut walk = Walk::start(&inputs);
    let mut tried = 0;
    while walk.next().is_some() {
        tried += 1;
        walk.failed(format!("no {tried}"));
    }
    assert_eq!(tried, 12);
    assert_eq!(walk.error().message(), "no 12");
    let nothing = Walk::start(&Vec::new());
    assert!(nothing.next().is_none());
    assert_eq!(nothing.error().message(), "no input devices");
}

#[test]
fn a_listing_is_believed_for_a_while() {
    assert!(is_fresh(0, SOURCES_TTL_NS - 1));
    assert!(!is_fresh(0, SOURCES_TTL_NS));
    assert!(snapshot(None, Some("x")).is_none());
    assert!(snapshot(Some("[]"), Some("x")).is_none(), "no sources");
    let (all, default) = snapshot(Some(PACTL_JSON), Some(" echo-cancel-source\n")).unwrap();
    assert_eq!(all.len(), 3);
    assert_eq!(default.as_deref(), Some("echo-cancel-source"));
    assert_eq!(snapshot(Some(PACTL_JSON), Some(" \n")).unwrap().1, None);
}

#[test]
fn takes_are_capped_at_any_rate() {
    assert_eq!(take_cap(48_000), 28_800_000);
    assert_eq!(take_cap(u32::MAX), u32::MAX as u64 * 600);
}

#[test]
fn what_is_no_number_is_not_loud() {
    let mut meter = LevelMeter::default();
    meter.fold(&bits(&[f32::NAN, -0.25]));
    assert_eq!(f32::from_bits(meter.take_peak()), 0.25);
    meter.fold(&bits(&[f32::INFINITY, 0.5]));
    assert_eq!(f32::from_bits(meter.take_peak()), f32::INFINITY);
}

#[test]
fn names_are_compared_beyond_ascii() {
    let source = Source {
        name: "a".into(),
        description: "ÉCOUTE Ω".into(),
        card_name: Some("CARD".into()),
    };
    assert_eq!(
        plan("écoute ω", &[source], None),
        Plan::Card("CARD".to_string())
    );
}

#[test]
fn every_row_that_is_offered_has_a_route() {
    let all = sources();
    for default in [Some(DEFAULT), Some("gone-source"), None] {
        for row in mic_names(&all, default) {
            assert_ne!(plan(&row, &all, default), Plan::Legacy, "{row}");
        }
    }
    let row = &mic_names(&all, Some(DEFAULT))[0];
    assert_eq!(plan(row, &all, Some("other-source")), Plan::SystemDefault);
    assert_eq!(plan(row, &[], None), Plan::SystemDefault);
}

#[test]
fn rows_beyond_ascii_have_a_route_too() {
    let source = |name: &str, description: &str, card: &str| Source {
        name: name.to_string(),
        description: description.to_string(),
        card_name: Some(card.to_string()),
    };
    let all = vec![
        source("a", "  ΜΙΚΡΌΦΩΝΟΣ ΣΊΓΜΑΣ ", "one"),
        source("b", "\u{2003}Écouteurs İ", "two"),
    ];
    for default in [Some("a"), Some("b"), None] {
        for row in mic_names(&all, default) {
            let expected = if row.ends_with(DEFAULT_SUFFIX) {
                Plan::SystemDefault
            } else if row.contains('Σ') {
                Plan::Card("one".to_string())
            } else {
                Plan::Card("two".to_string())
            };
            assert_eq!(plan(&row, &all, default), expected, "{row}");
        }
    }
    for text in ["ΑΣ ΑΣ", " ΑΣ", "ΑΣ\u{a0}Β", "Σ Σ", "ΑΣ' ΒΣ.Γ"] {
        let apart: String = text
            .split_inclusive(char::is_whitespace)
            .map(|piece| piece.trim_end().to_lowercase() + &piece[piece.trim_end().len()..])
            .collect();
        assert_eq!(text.to_lowercase(), apart, "white space parts words");
    }
}
