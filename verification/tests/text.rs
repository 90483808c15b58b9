//! Texts and JSON, against what the standard library makes of them.

use tiro::json::{
    find, get_bool, get_str, get_texts, get_u64, read_object, Field, Json,
};
use tiro::text::{
    chars_of, decimal_of, is_white_space, lines_of, parse_i32, parse_i64, parse_u64, parse_usize,
    signed_decimal_of, split_on, string_of, trimmed, words_of,
};

fn texts(pieces: Vec<Vec<char>>) -> Vec<String> {
    pieces.iter().map(|p| string_of(p)).collect()
}

const SAMPLES: [&str; 8] = [
    "",
    " ",
    "a",
    " a  b\tc\n",
    "one\r\ntwo\rthree\n\nfour",
    "\u{a0}x\u{2003}y\u{3000}",
    "a,b,,c,",
    "ünïcödé 漢字 \u{1f600}",
];

#[test]
fn white_space_is_what_the_standard_library_says() {
    for n in 0..=0x10_ffff {
        if let Some(c) = char::from_u32(n) {
            assert_eq!(is_white_space(c), c.is_whitespace(), "{n:x}");
        }
    }
}

#[test]
fn texts_are_cut_like_the_standard_library_does() {
    for s in SAMPLES {
        let c = chars_of(s);
        assert_eq!(string_of(&c), s);
        assert_eq!(string_of(trimmed(&c)), s.trim());
        assert_eq!(
            texts(words_of(&c)),
            s.split_whitespace().collect::<Vec<_>>()
        );
        assert_eq!(texts(lines_of(&c)), s.lines().collect::<Vec<_>>());
        assert_eq!(texts(split_on(&c, ',')), s.split(',').collect::<Vec<_>>());
    }
}

#[test]
fn numbers_are_read_like_the_standard_library_does() {
    for s in [
        "", "0", "+7", "-7", "007", "+", "-", "1e3", " 1", "18446744073709551615",
        "18446744073709551616", "-9223372036854775808", "9223372036854775808", "2147483648",
        "-2147483648", "1_000",
    ] {
        let c = chars_of(s);
        assert_eq!(parse_u64(&c), s.parse::<u64>().ok(), "{s}");
        assert_eq!(parse_usize(&c), s.parse::<usize>().ok(), "{s}");
        assert_eq!(parse_i64(&c), s.parse::<i64>().ok(), "{s}");
        assert_eq!(parse_i32(&c), s.parse::<i32>().ok(), "{s}");
    }
    for n in [0, 9, 10, 1234, u64::MAX] {
        assert_eq!(string_of(&decimal_of(n)), n.to_string());
    }
    for n in [0, -1, 10, i64::MIN, i64::MAX] {
        assert_eq!(string_of(&signed_decimal_of(n)), n.to_string());
    }
}

#[test]
fn objects_are_read_one_level_deep() {
    let o = read_object(
        br#"{"b":true,"n":7,"f":1.5,"m":-1,"t":"x","l":["a",1,"b"],"o":{"k":null},"z":null,"t":"y"}"#,
    )
    .unwrap();
    assert_eq!(get_bool(&o, "b"), Some(true));
    assert_eq!(get_u64(&o, "n"), Some(7));
    assert_eq!(get_u64(&o, "f"), None);
    assert_eq!(get_u64(&o, "m"), None);
    assert_eq!(get_str(&o, "t"), Some("y"), "the last one counts");
    assert_eq!(get_texts(&o, "l"), ["a", "b"]);
    assert_eq!(find(&o, "o"), Some(&Field::Object("{\"k\":null}".to_string())));
    assert_eq!(find(&o, "z"), Some(&Field::Null));
    assert_eq!(find(&o, "none"), None);
    assert_eq!(read_object(b"[1]"), Ok(Vec::new()), "no object");
    assert!(read_object(b"{").is_err());
    assert_eq!(Json::Text("a".into()).as_str(), Some("a"));
    assert!(Json::Null.as_array().is_none());
}
