//! The tidying of a take before it is copied.

use tiro::clipboard::{
    cleanup_text, clipboard_text, collapse, finish_sentence, CopyStep, Holder,
};
use tiro::pattern::{substitute, FILLER, SPACE_PUNCT, STANDALONE_I};

#[test]
fn collapses_and_trims_whitespace() {
    assert_eq!(cleanup_text("  hello   world  ", "light"), "Hello world.");
    assert_eq!(
        cleanup_text("hello\tthere\nfriend", "light"),
        "Hello there friend."
    );
}

#[test]
fn none_mode_returns_collapsed_verbatim() {
    assert_eq!(cleanup_text("  hello   world  ", "none"), "hello world");
    assert_eq!(cleanup_text("no period added", "none"), "no period added");
}

#[test]
fn capitalizes_first_letter_unless_already_upper() {
    assert_eq!(cleanup_text("hello", "light"), "Hello.");
    assert_eq!(cleanup_text("Hello", "light"), "Hello.");
    assert_eq!(cleanup_text("123 go", "light"), "123 go.");
}

#[test]
fn appends_period_only_without_terminal_punctuation() {
    assert_eq!(cleanup_text("done", "light"), "Done.");
    assert_eq!(cleanup_text("done.", "light"), "Done.");
    assert_eq!(cleanup_text("really?", "light"), "Really?");
    assert_eq!(cleanup_text("wow!", "light"), "Wow!");
    assert_eq!(cleanup_text("wait;", "light"), "Wait;.");
}

#[test]
fn standalone_i_is_capitalized() {
    assert_eq!(
        cleanup_text("i think i'm sure i'll go and i've been", "light"),
        "I think I'm sure I'll go and I've been."
    );
    assert_eq!(
        cleanup_text("the wifi is fine", "light"),
        "The wifi is fine."
    );
}

#[test]
fn fixes_space_before_punctuation() {
    assert_eq!(cleanup_text("hello , world .", "light"), "Hello, world.");
    assert_eq!(cleanup_text("wait ; no : yes !", "light"), "Wait; no: yes!");
}

#[test]
fn fillers_are_stripped_in_fillers_mode_only() {
    assert_eq!(
        cleanup_text("um, so uh this is hmm good", "fillers"),
        "So this is good."
    );
    assert_eq!(
        cleanup_text("ummm well uhhh fine erm ok", "fillers"),
        "Well fine ok."
    );
    assert_eq!(
        cleanup_text("um, so this stays", "light"),
        "Um, so this stays."
    );
    assert_eq!(
        cleanup_text("the column is umbrella-shaped", "fillers"),
        "The column is umbrella-shaped."
    );
}

#[test]
fn unknown_mode_gets_light_rules() {
    assert_eq!(cleanup_text("hello there", "banana"), "Hello there.");
}

#[test]
fn all_fillers_cleanup_is_empty_and_falls_back_to_verbatim() {
    assert_eq!(cleanup_text("um uh hmm", "fillers"), "");
    assert_eq!(clipboard_text("um uh hmm", "fillers"), "um uh hmm");
    assert_eq!(clipboard_text("real words", "fillers"), "Real words.");
}

#[test]
fn empty_input_stays_empty() {
    assert_eq!(cleanup_text("", "light"), "");
    assert_eq!(cleanup_text("   ", "fillers"), "");
}

#[test]
fn letters_beyond_ascii_are_raised_too() {
    assert_eq!(cleanup_text("élan", "light"), "Élan.");
    assert_eq!(cleanup_text("ßa", "light"), "SSa.");
}

#[test]
fn every_mode_leaves_nothing_of_white_space() {
    for mode in ["none", "light", "fillers", "banana"] {
        assert_eq!(cleanup_text(" \u{2003}\n", mode), "");
    }
}

#[test]
fn a_sentence_ends_once() {
    assert_eq!(finish_sentence(""), "");
    assert_eq!(finish_sentence("a"), "A.");
    assert_eq!(finish_sentence("really?"), "Really?");
    assert_eq!(collapse("\ta  b\n"), "a b");
}

#[test]
fn a_handle_that_failed_is_given_up() {
    let mut holder = Holder { open: false };
    assert_eq!(holder.begin(), CopyStep::Open);
    assert_eq!(holder.opened(false), CopyStep::Failed);
    assert_eq!(holder.opened(true), CopyStep::Write);
    assert_eq!(holder.written(true), CopyStep::Done);
    assert_eq!(holder.begin(), CopyStep::Write, "the handle is kept");
    assert_eq!(holder.written(false), CopyStep::Failed);
    assert_eq!(holder.begin(), CopyStep::Open, "the next copy starts fresh");
}

#[test]
fn patterns_that_are_none_change_nothing() {
    assert_eq!(substitute("(", "a(b", "x"), "a(b");
    assert_eq!(substitute("(b)(c)", "abcd", "$2$1"), "acbd");
}

#[test]
fn cleaning_twice_is_cleaning_once() {
    let said = "  um i think ,  uh it  works \n";
    for mode in ["none", "light", "fillers"] {
        let once = cleanup_text(said, mode);
        assert_eq!(cleanup_text(&once, mode), once, "{mode}");
        assert!(!once.contains("  "), "{mode}");
    }
    assert_eq!(cleanup_text(said, "none"), "um i think , uh it works");
    assert_eq!(cleanup_text(said, "light"), "Um I think, uh it works.");
    assert_eq!(finish_sentence(&finish_sentence("yes")), "Yes.");
}

/// Every text of at most `longest` characters of the alphabet.
fn texts(alphabet: &[char], longest: usize) -> Vec<Vec<char>> {
    let mut all = vec![Vec::new()];
    let mut from = 0;
    for _ in 0..longest {
        let to = all.len();
        for i in from..to {
            for c in alphabet {
                let mut next = all[i].clone();
                next.push(*c);
                all.push(next);
            }
        }
        from = to;
    }
    all
}

fn is_word(c: char) -> bool {
    c.is_ascii_alphanumeric() || c == '_' || c == 'é'
}

#[test]
fn space_goes_in_front_of_marks_alone() {
    for t in texts(&['a', ' ', '\u{2003}', ',', '?', '-'], 4) {
        let gone = |i: usize| {
            let end = (i..t.len()).find(|k| !t[*k].is_whitespace());
            t[i].is_whitespace() && end.is_some_and(|k| ",.!?;:".contains(t[k]))
        };
        let left: String = (0..t.len()).filter(|i| !gone(*i)).map(|i| t[i]).collect();
        let whole: String = t.iter().collect();
        assert_eq!(substitute(SPACE_PUNCT, &whole, "$1"), left, "{whole:?}");
    }
}

#[test]
fn an_i_is_raised_where_it_stands_alone() {
    for t in texts(&['i', 'é', '_', ' ', '\'', '.'], 4) {
        let near = |i: Option<usize>| i.and_then(|i| t.get(i)).is_some_and(|c| is_word(*c));
        let alone = |i: usize| t[i] == 'i' && !near(i.checked_sub(1)) && !near(Some(i + 1));
        let raised: String = (0..t.len())
            .map(|i| if alone(i) { 'I' } else { t[i] })
            .collect();
        let whole: String = t.iter().collect();
        assert_eq!(substitute(STANDALONE_I, &whole, "I"), raised, "{whole:?}");
    }
}

/// Whether `w` is a hesitation.
fn is_hesitation(w: &str) -> bool {
    let w = w.to_ascii_lowercase();
    let drawn = |head: &str, c: char| {
        w.strip_prefix(head)
            .is_some_and(|tail| !tail.is_empty() && tail.chars().all(|k| k == c))
    };
    drawn("u", 'm') || drawn("u", 'h') || drawn("er", 'm') || drawn("hm", 'm')
}

/// `t` without its hesitations.
fn without_fillers(t: &[char]) -> String {
    let mut out = String::new();
    let mut i = 0;
    while i < t.len() {
        let run: String = t[i..].iter().take_while(|c| is_word(**c)).collect();
        let inside = i > 0 && is_word(t[i - 1]);
        if !inside && is_hesitation(&run) {
            i += run.chars().count();
            if t.get(i) == Some(&',') {
                i += 1;
            }
            while t.get(i).is_some_and(|c| c.is_whitespace()) {
                i += 1;
            }
        } else {
            out.push(t[i]);
            i += 1;
        }
    }
    out
}

#[test]
fn hesitations_go_as_whole_words() {
    for t in texts(&['u', 'M', 'h', 'é', ' ', ','], 4) {
        let whole: String = t.iter().collect();
        assert_eq!(substitute(FILLER, &whole, ""), without_fillers(&t), "{whole:?}");
    }
    for said in [
        "um uh,  erm hmm",
        "Ummm, UHHH erMM hMMM h hm er u",
        "um-um um,um um_ album umé \u{2003}um\u{2003}x",
        "so um, well, uh",
        "hmm, ,uh , um.",
    ] {
        let t: Vec<char> = said.chars().collect();
        assert_eq!(substitute(FILLER, said, ""), without_fillers(&t), "{said}");
    }
}

#[test]
fn first_letters_settle() {
    let upper = |c: char| c.to_uppercase().collect::<String>();
    let word = |c: char| substitute("\\w", &c.to_string(), "").is_empty();
    for c in ('\u{80}'..='\u{5ff}').filter(|c| upper(*c) != c.to_string()) {
        let u = upper(c);
        let first = u.chars().next().unwrap();
        assert_eq!(upper(first), first.to_string(), "{c}");
        assert!(u.chars().all(|k| !k.is_whitespace() && k != 'i'), "{c}");
        assert!(u.chars().all(|k| word(k) == word(c)), "{c}");
        assert!(u.chars().any(|k| !"umher".contains(k.to_ascii_lowercase())), "{c}");
    }
}

#[test]
fn clean_texts_are_clean_in_every_mode() {
    let said = [
        "um i think , uh it  works \n",
        "ßo um i , éi",
        "hmm , i ! i",
        "u um m",
        "ẖmm",
        "i",
        ", um",
    ];
    for mode in ["light", "fillers"] {
        for s in said {
            let once = cleanup_text(s, mode);
            assert_eq!(cleanup_text(&once, mode), once, "{mode} {s}");
            assert!(once.is_empty() || once.ends_with(['.', '!', '?']), "{mode} {s}");
            assert_eq!(once.split_whitespace().collect::<Vec<_>>().join(" "), once);
            assert!(!once.contains(" ,") && !once.contains(" ."), "{mode} {s}");
        }
    }
    assert_eq!(cleanup_text("ßo um i , éi", "fillers"), "SSo I, éi.");
    assert_eq!(cleanup_text(", um", "fillers"), ",.");
    assert_eq!(cleanup_text("um", "fillers"), "");
}
