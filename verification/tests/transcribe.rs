//! Models, downloads and the sounds that are no speech.

use tiro::transcribe::{
    catalog, catalog_find, collapse_non_speech, ensure_model, ensure_vad_model, get_vocab_prompt,
    is_non_speech_phrase, model_file_name, model_status, part_name, transcript, Download, FileMeta,
    Progress, DOWNLOAD_IO_TIMEOUT_SECS,
};

fn file(len: u64) -> Option<FileMeta> {
    Some(FileMeta { is_file: true, len })
}

#[test]
fn model_files_map_like_the_original_compute_type() {
    assert_eq!(model_file_name("base.en", "int8"), "ggml-base.en-q8_0.bin");
    assert_eq!(
        model_file_name("small.en", "int8"),
        "ggml-small.en-q8_0.bin"
    );
    assert_eq!(model_file_name("base.en", "float16"), "ggml-base.en.bin");
    assert_eq!(model_file_name("medium.en", ""), "ggml-medium.en.bin");
    // not in the catalog -> historical mapping still applies
    assert_eq!(
        model_file_name("distil-x", "int8"),
        "ggml-distil-x-q8_0.bin"
    );
}

#[test]
fn models_without_q8_fall_back_to_f16() {
    // The HF repo has no q8_0 file for large-v1/large-v3 (checked live);
    // int8 must resolve to the plain f16 file for those, not a 404 name.
    assert_eq!(model_file_name("large-v1", "int8"), "ggml-large-v1.bin");
    assert_eq!(model_file_name("large-v3", "int8"), "ggml-large-v3.bin");
    assert_eq!(
        model_file_name("large-v2", "int8"),
        "ggml-large-v2-q8_0.bin"
    );
    assert_eq!(
        model_file_name("large-v3-turbo", "int8"),
        "ggml-large-v3-turbo-q8_0.bin"
    );
}

#[test]
fn catalog_is_complete_and_curated_in_order() {
    assert_eq!(catalog().len(), 12);
    let curated: Vec<&str> = catalog()
        .iter()
        .filter(|m| m.curated)
        .map(|m| m.name)
        .collect();
    assert_eq!(
        curated,
        [
            "tiny.en",
            "base.en",
            "small.en",
            "medium.en",
            "large-v3-turbo"
        ]
    );
    for m in catalog() {
        assert!(m.f16_bytes > 0, "{} has no f16 size", m.name);
        assert_eq!(m.has_q8, m.q8_bytes > 0, "{} q8 size mismatch", m.name);
        assert!(m.size_bytes("int8") > 0, "{}", m.name);
    }
    assert!(catalog_find("tiny.en").is_some());
    assert!(catalog_find("nope").is_none());
}

#[test]
fn model_status_reports_install_state_and_size() {
    let st = model_status(None, "tiny.en", "int8");
    assert!(!st.installed);
    assert_eq!(st.bytes, 0);
    // catalog entry at its exact pinned size -> installed
    let expected = catalog_find("tiny.en").unwrap().q8_bytes;
    let on_disk = |name: &str| {
        if name == "ggml-tiny.en-q8_0.bin" {
            file(expected)
        } else {
            None
        }
    };
    let st = model_status(on_disk(&model_file_name("tiny.en", "int8")), "tiny.en", "int8");
    assert!(st.installed);
    assert_eq!(st.bytes, expected);
    // a different compute_type resolves to a different (absent) file
    let other = on_disk(&model_file_name("tiny.en", "float16"));
    assert!(!model_status(other, "tiny.en", "float16").installed);
}

#[test]
fn truncated_or_oversized_catalog_files_read_as_not_installed() {
    let expected = catalog_find("tiny.en").unwrap().q8_bytes;
    // truncated (older builds renamed short bodies into place)
    let st = model_status(file(expected - 1), "tiny.en", "int8");
    assert!(!st.installed, "truncated file must offer re-download");
    assert_eq!(st.bytes, 0);
    // oversized is just as wrong
    assert!(!model_status(file(expected + 1), "tiny.en", "int8").installed);
    // repaired to the exact size -> installed again
    assert!(model_status(file(expected), "tiny.en", "int8").installed);
}

#[test]
fn unknown_models_fall_back_to_existence() {
    // No pinned size outside the catalog: existence is the only signal.
    assert!(!model_status(None, "distil-x", "int8").installed);
    assert_eq!(model_file_name("distil-x", "int8"), "ggml-distil-x-q8_0.bin");
    let st = model_status(file(4), "distil-x", "int8");
    assert!(st.installed);
    assert_eq!(st.bytes, 4);
}

#[test]
fn non_speech_only_takes_collapse_to_empty() {
    for t in [
        "[BLANK_AUDIO]",
        " [BLANK_AUDIO] ",
        "[BLANK_AUDIO] [BLANK_AUDIO]",
        "[blank_audio]",
        "[Blank_Audio]",
        "[BLANK-AUDIO]",
        "(silence)",
        "(Silence)",
        "[SILENCE]",
        "[ Silence ]",
        "[ Inaudible ]",
        "[MUSIC]",
        "*music*",
        "(noise)",
        "♪",
        "♪ ♪ ♪",
        "[MUSIC] (silence) ♪",
        "",
        "   ",
    ] {
        assert_eq!(collapse_non_speech(t), "", "{t:?}");
    }
}

#[test]
fn real_speech_passes_through_untouched() {
    for t in [
        "hello world",
        "he said [BLANK_AUDIO] appears on screen",
        "[BLANK_AUDIO] then he spoke",
        "turn the music down",
        "silence",        // bare word, no marker delimiters
        "(well, maybe)",  // parenthesized real words
        "[BLANK_AUDIO",   // unclosed bracket -> doubt -> keep
        "[BLANK_AUDIO].", // stray punctuation -> doubt -> keep
        "(no)",           // ambiguous single word -> keep
        "♪ happy birthday ♪",
        "...",
    ] {
        assert_eq!(collapse_non_speech(t), t, "{t:?}");
    }
}

#[test]
fn vocab_prompt_skips_comments_and_blanks() {
    assert_eq!(
        get_vocab_prompt(true, Some("# names\nTiro\n\n  # tools\nWhisper   cpal\n")),
        Some("Tiro Whisper cpal".to_string())
    );
}

#[test]
fn vocab_prompt_none_when_disabled_or_missing() {
    assert_eq!(get_vocab_prompt(true, None), None, "no vocab.txt");
    assert_eq!(get_vocab_prompt(false, Some("word\n")), None, "bias disabled");
    assert_eq!(
        get_vocab_prompt(true, Some("# only comments\n\n")),
        None,
        "empty after filter"
    );
}

#[test]
fn what_is_missing_is_fetched() {
    let f = ensure_model(None, "tiny.en", "int8");
    assert_eq!(f.file, "ggml-tiny.en-q8_0.bin");
    assert_eq!(
        f.url.as_deref(),
        Some("https://huggingface.co/ggerganov/whisper.cpp/resolve/main/ggml-tiny.en-q8_0.bin")
    );
    let whole = file(catalog_find("tiny.en").unwrap().q8_bytes);
    assert_eq!(ensure_model(whole, "tiny.en", "int8").url, None);
    assert_eq!(ensure_vad_model(true).url, None);
    assert!(ensure_vad_model(false).url.unwrap().ends_with("ggml-silero-v5.1.2.bin"));
    let folder = Some(FileMeta {
        is_file: false,
        len: 4,
    });
    assert!(ensure_model(folder, "distil-x", "int8").url.is_some());
    assert_eq!(part_name("a.bin", 12, 3), "a.bin.part.12.3");
}

#[test]
fn a_download_is_whole_or_an_error() {
    let second = 1_000_000_000;
    let mut d = Download::begin("a.bin", Some("10"), false, 0);
    assert_eq!((d.total, d.expected), (Some(10), Some(10)));
    d.arrived(4, second);
    assert_eq!(d.after_data(true), Progress::GoOn);
    assert_eq!(d.after_data(false), Progress::Cancelled);
    assert_eq!(
        d.ended(),
        Err("download of a.bin incomplete (4/10 bytes)".to_string())
    );
    let limit = second + DOWNLOAD_IO_TIMEOUT_SECS * second;
    assert_eq!(d.after_silence(true, limit - 1), Progress::GoOn);
    assert_eq!(d.after_silence(true, limit), Progress::Stalled);
    assert_eq!(d.after_silence(false, limit), Progress::Cancelled);
    d.arrived(6, 2 * second);
    assert_eq!(d.ended(), Ok(()));
    assert_eq!(d.broken("reset"), "download of a.bin failed: reset");
    assert_eq!(d.vanished(), "download of a.bin ended unexpectedly");
    assert_eq!(d.stalled(), "download of a.bin stalled (no data for 30s)");
    assert_eq!(d.finalized(&Ok(()), None), Ok(()));
    let failed = Err("denied".to_string());
    assert_eq!(d.finalized(&failed, file(10)), Ok(()), "another was first");
    assert_eq!(
        d.finalized(&failed, file(9)),
        Err("finalize of a.bin failed: denied".to_string())
    );
    let encoded = Download::begin("a.bin", Some("10"), true, 0);
    assert_eq!((encoded.total, encoded.expected), (Some(10), None));
    assert_eq!(encoded.ended(), Ok(()));
    assert_eq!(Download::begin("a", Some("ten"), false, 0).total, None);
}

#[test]
fn every_tenth_of_a_download_is_reported() {
    let mut d = Download::begin("a.bin", Some("200"), false, 0);
    let mut reported = Vec::new();
    for _ in 0..20 {
        d.arrived(10, 0);
        reported.extend(d.report());
    }
    assert_eq!(reported, [10, 20, 30, 40, 50, 60, 70, 80, 90, 100]);
    let mut d = Download::begin("a.bin", Some("200"), false, 0);
    d.arrived(50, 0);
    assert_eq!(d.report(), Some(25));
    d.arrived(8, 0);
    assert_eq!(d.report(), None, "29 percent");
    d.arrived(2, 0);
    assert_eq!(d.report(), Some(30));
    let mut unknown = Download::begin("a.bin", None, false, 0);
    unknown.arrived(7, 0);
    assert_eq!(unknown.report(), None);
}

#[test]
fn segments_make_a_transcript() {
    let all: Vec<String> = [" Hello ", "", "world."].map(String::from).to_vec();
    assert_eq!(transcript(&all), "Hello world.");
    assert_eq!(transcript(&vec!["[BLANK_AUDIO]".to_string()]), "");
    assert!(is_non_speech_phrase("blank_audio"));
    assert!(!is_non_speech_phrase("hello"));
}
