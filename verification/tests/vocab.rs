//! Words to listen for, and words to put right.

use tiro::json::Json;
use tiro::vocab::{self, apply_corrections, list, read_corrections, read_hotwords};

fn text(s: &str) -> Json {
    Json::Text(s.to_string())
}

fn words(all: &[&str]) -> Json {
    Json::List(all.iter().map(|w| text(w)).collect())
}

#[test]
fn hotwords_round_trip_preserving_comments() {
    let old = "# my words\n\nTiro\nPipeWire\n";
    assert_eq!(read_hotwords(old), ["Tiro", "PipeWire"]);
    let (hotwords, corrections) = vocab::set(
        old,
        &words(&["Tiro", "Beckett"]),
        &Json::List(vec![words(&["tyro", "Tiro"])]),
    );
    assert_eq!(
        hotwords, "# my words\n\nTiro\nBeckett\n",
        "comment block kept"
    );
    assert_eq!(
        read_corrections(&corrections),
        [("tyro".into(), "Tiro".into())]
    );
}

#[test]
fn missing_files_read_as_empty() {
    assert!(read_hotwords("").is_empty());
    assert!(read_corrections("").is_empty());
    let v = list(None, None);
    assert!(v.hotwords.is_empty());
    assert!(v.corrections.is_empty());
}

#[test]
fn corrections_skip_malformed_lines() {
    assert_eq!(
        read_corrections(
            "# fixes\ntyro => Tiro\nno arrow line\n => empty heard\njoy con => Joy-Con\n"
        ),
        [
            ("tyro".into(), "Tiro".into()),
            ("joy con".into(), "Joy-Con".into())
        ]
    );
}

#[test]
fn apply_is_case_insensitive_whole_phrase() {
    let pairs = vec![
        ("tyro".to_string(), "Tiro".to_string()),
        ("med star".to_string(), "MedStar".to_string()),
    ];
    assert_eq!(
        apply_corrections("Tyro and med star, but tyrode stays.", &pairs),
        "Tiro and MedStar, but tyrode stays."
    );
    assert_eq!(apply_corrections("", &pairs), "");
    assert_eq!(apply_corrections("nothing to do", &[]), "nothing to do");
}

#[test]
fn apply_never_empties_a_take() {
    let pairs = vec![("um".to_string(), " ".to_string())];
    assert_eq!(apply_corrections("um", &pairs), "um", "fallback kept");
}

#[test]
fn set_scrubs_arrows_and_newlines() {
    let (hotwords, corrections) = vocab::set(
        "",
        &words(&["a => b\nc"]),
        &Json::List(vec![words(&["he\nard", "writ => ten"])]),
    );
    assert_eq!(read_hotwords(&hotwords), ["a b c"]);
    assert_eq!(
        read_corrections(&corrections),
        [("he ard".into(), "writ ten".into())]
    );
}

#[test]
fn what_is_written_reads_back() {
    let words = vec!["Tiro".to_string(), "Joy-Con".to_string()];
    let file = vocab::write_hotwords("# a\n\nold\n# b\n", &words);
    assert_eq!(file, "# a\n\nTiro\nJoy-Con\n", "the leading block alone");
    assert_eq!(read_hotwords(&file), words);
    let pairs = vec![
        ("tyro".to_string(), "Tiro".to_string()),
        ("joy con".to_string(), "Joy-Con".to_string()),
    ];
    assert_eq!(read_corrections(&vocab::write_corrections(&pairs)), pairs);
}

#[test]
fn what_is_no_term_is_dropped() {
    assert_eq!(vocab::clean_term(&Json::Null), None);
    assert_eq!(vocab::clean_term(&text(" \n ")), None);
    assert_eq!(vocab::clean_term(&text(" a\tb ")).as_deref(), Some("a b"));
    let (hotwords, corrections) = vocab::received(
        &Json::List(vec![text("one"), Json::Bool(true), text("")]),
        &Json::List(vec![words(&["a"]), words(&["a", "b"]), text("c")]),
    );
    assert_eq!(hotwords, ["one"]);
    assert_eq!(corrections, [("a".to_string(), "b".to_string())]);
}

#[test]
fn corrections_take_their_phrase_literally() {
    assert_eq!(apply_corrections("a.b", &[("a.b".into(), "x".into())]), "x");
    assert_eq!(apply_corrections("aXb", &[("a.b".into(), "x".into())]), "aXb");
}

#[test]
fn no_corrections_change_nothing() {
    assert_eq!(apply_corrections("  as it is  ", &[]), "  as it is  ");
    assert_eq!(vocab::keep_take("take", " ".to_string()), "take");
    assert_eq!(vocab::keep_take("take", "new".to_string()), "new");
}

#[test]
fn written_texts_stand_as_they_are() {
    let pairs = [("five bucks".to_string(), "$5".to_string())];
    assert_eq!(apply_corrections("pay five bucks now", &pairs), "pay $5 now");
    let pairs = [("cash".to_string(), "$$ ${x} $0".to_string())];
    assert_eq!(apply_corrections("Cash", &pairs), "$$ ${x} $0");
}
