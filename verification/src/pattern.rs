//! Regular expressions, as the `regex` crate has them.

use crate::text;
use vstd::prelude::*;

verus! {

/// Hesitations, with the comma and the white space behind them.
pub const FILLER: &'static str = "(?i)\\b(um+|uh+|erm+|hmm+)\\b,?\\s*";

/// White space in front of a punctuation mark.
pub const SPACE_PUNCT: &'static str = "\\s+([,.!?;:])";

/// The word "i" on its own.
pub const STANDALONE_I: &'static str = "\\bi\\b";

/// What is left of `text` when every match of `pattern` is replaced by
/// `replacement`, in which `$` and a number stand for a group; nothing where
/// `pattern` is no regular expression. It names the result where [`known`] does not
/// say it.
pub uninterp spec fn regex_replaced(
    pattern: Seq<char>,
    text: Seq<char>,
    replacement: Seq<char>,
) -> Option<Seq<char>>;

/// Whether `c` is one of the punctuation marks that [`SPACE_PUNCT`] looks for.
pub open spec fn is_mark(c: char) -> bool {
    c == ',' || c == '.' || c == '!' || c == '?' || c == ';' || c == ':'
}

/// Whether `s` begins with white space, or none, and then a mark.
pub open spec fn leads_to_mark(s: Seq<char>) -> bool
    decreases s.len(),
{
    s.len() > 0 && (is_mark(s[0]) || (text::is_white(s[0]) && leads_to_mark(s.skip(1))))
}

/// `s` without the white space in front of marks.
pub open spec fn tightened(s: Seq<char>) -> Seq<char>
    decreases s.len(),
{
    if s.len() == 0 {
        s
    } else if text::is_white(s[0]) && leads_to_mark(s) {
        tightened(s.skip(1))
    } else {
        seq![s[0]] + tightened(s.skip(1))
    }
}

/// Whether `c` is a word character, one that `\w` matches: an ASCII letter, digit or
/// underscore, and beyond ASCII what that pattern takes away. White space is none.
pub open spec fn is_word_char(c: char) -> bool {
    if (c as u32) < 128 {
        text::is_alnum(c) || c == '_'
    } else {
        !text::is_white(c) && regex_replaced("\\w"@, seq![c], ""@) == Some(Seq::<char>::empty())
    }
}

/// Whether there is a word character at `i`.
pub open spec fn word_at(s: Seq<char>, i: int) -> bool {
    0 <= i < s.len() && is_word_char(s[i])
}

/// Whether the character at `i` is an `i` without a word character on either side.
pub open spec fn stands_alone(s: Seq<char>, i: int) -> bool {
    s[i] == 'i' && !word_at(s, i - 1) && !word_at(s, i + 1)
}

/// `s` with `I` for every `i` that stands alone.
pub open spec fn raised(s: Seq<char>) -> Seq<char> {
    Seq::new(
        s.len(),
        |i: int|
            if stands_alone(s, i) {
                'I'
            } else {
                s[i]
            },
    )
}

/// The word characters that `s` begins with.
pub open spec fn first_run(s: Seq<char>) -> Seq<char>
    decreases s.len(),
{
    if s.len() > 0 && is_word_char(s[0]) {
        seq![s[0]] + first_run(s.skip(1))
    } else {
        Seq::empty()
    }
}

/// Whether `w` is `head` and then `c` once or more, in any letter case.
pub open spec fn is_drawn(w: Seq<char>, head: Seq<char>, c: char) -> bool {
    &&& w.len() > head.len()
    &&& forall|i: int|
        0 <= i < w.len() ==> text::lower_char(#[trigger] w[i]) == if i < head.len() {
            head[i]
        } else {
            c
        }
}

/// Whether `w` is a hesitation, however long it is drawn.
pub open spec fn is_hesitation(w: Seq<char>) -> bool {
    ||| is_drawn(w, seq!['u'], 'm')
    ||| is_drawn(w, seq!['u'], 'h')
    ||| is_drawn(w, seq!['e', 'r'], 'm')
    ||| is_drawn(w, seq!['h', 'm'], 'm')
}

/// What stands behind a hesitation: a comma goes with it, and then white space.
pub open spec fn behind(s: Seq<char>) -> Seq<char> {
    text::trim_start(
        if s.len() > 0 && s[0] == ',' {
            s.skip(1)
        } else {
            s
        },
    )
}

/// What trimming leaves is no longer than what it was given.
pub proof fn lemma_trim_start_len(s: Seq<char>)
    ensures
        text::trim_start(s).len() <= s.len(),
    decreases s.len(),
{
    if s.len() > 0 && text::is_white(s[0]) {
        lemma_trim_start_len(s.skip(1));
    }
}

/// A run is no longer than the text.
pub proof fn lemma_first_run_len(s: Seq<char>)
    ensures
        first_run(s).len() <= s.len(),
    decreases s.len(),
{
    if s.len() > 0 && is_word_char(s[0]) {
        lemma_first_run_len(s.skip(1));
    }
}

/// `s` without the hesitations among its words, and without the comma and the white
/// space behind each. A word is a whole run of word characters; where `inside` holds,
/// `s` begins inside of one.
pub open spec fn without_fillers(s: Seq<char>, inside: bool) -> Seq<char>
    decreases s.len(),
{
    if s.len() == 0 {
        s
    } else if !inside && is_hesitation(first_run(s)) {
        proof {
            lemma_first_run_len(s);
            let rest = s.skip(first_run(s).len() as int);
            lemma_trim_start_len(rest);
            lemma_trim_start_len(rest.skip(1));
        }
        without_fillers(behind(s.skip(first_run(s).len() as int)), false)
    } else {
        seq![s[0]] + without_fillers(s.skip(1), is_word_char(s[0]))
    }
}

/// What the three patterns above make of `text` with their replacements.
pub open spec fn known(
    pattern: Seq<char>,
    text: Seq<char>,
    replacement: Seq<char>,
) -> Option<Seq<char>> {
    if pattern == "(?i)\\b(um+|uh+|erm+|hmm+)\\b,?\\s*"@ && replacement == ""@ {
        Some(without_fillers(text, false))
    } else if pattern == "\\s+([,.!?;:])"@ && replacement == "$1"@ {
        Some(tightened(text))
    } else if pattern == "\\bi\\b"@ && replacement == "I"@ {
        Some(raised(text))
    } else {
        None
    }
}

/// `text` with every match of `pattern` replaced; unchanged where `pattern` is
/// no regular expression.
pub open spec fn substituted(
    pattern: Seq<char>,
    text: Seq<char>,
    replacement: Seq<char>,
) -> Seq<char> {
    match known(pattern, text, replacement) {
        Some(r) => r,
        None => match regex_replaced(pattern, text, replacement) {
            Some(r) => r,
            None => text,
        },
    }
}

/// Whether `c` has a meaning of its own in a regular expression.
pub open spec fn is_meta(c: char) -> bool {
    c == '\\' || c == '.' || c == '+' || c == '*' || c == '?' || c == '(' || c == ')' || c == '|'
        || c == '[' || c == ']' || c == '{' || c == '}' || c == '^' || c == '$' || c == '#' || c
        == '&' || c == '-' || c == '~'
}

/// `text` with a backslash in front of every character that has a meaning of
/// its own.
pub open spec fn escaped(text: Seq<char>) -> Seq<char>
    decreases text.len(),
{
    if text.len() == 0 {
        Seq::empty()
    } else if is_meta(text.last()) {
        escaped(text.drop_last()).push('\\').push(text.last())
    } else {
        escaped(text.drop_last()).push(text.last())
    }
}

/// `t` with every dollar sign doubled: as a replacement it stands for `t` itself.
pub open spec fn doubled(t: Seq<char>) -> Seq<char>
    decreases t.len(),
{
    if t.len() == 0 {
        Seq::empty()
    } else if t.last() == '$' {
        doubled(t.drop_last()).push('$').push('$')
    } else {
        doubled(t.drop_last()).push(t.last())
    }
}

/// Whether `(?i)` lets the character `c` of a pattern match the character `d`: where
/// they are ASCII, in either case, and else where the pattern of `c` alone takes `d`
/// away.
pub open spec fn same_letter(c: char, d: char) -> bool {
    if (c as u32) < 128 && (d as u32) < 128 {
        text::lower_char(c) == text::lower_char(d)
    } else {
        regex_replaced("(?i)"@ + escaped(seq![c]), seq![d], ""@) == Some(Seq::<char>::empty())
    }
}

/// Whether `s` reads `phrase` at `i`, in any letter case.
pub open spec fn reads_at(s: Seq<char>, phrase: Seq<char>, i: int) -> bool {
    &&& 0 <= i
    &&& i + phrase.len() <= s.len()
    &&& forall|k: int| 0 <= k < phrase.len() ==> same_letter(#[trigger] phrase[k], s[i + k])
}

/// Whether a word begins or ends at `i`.
pub open spec fn is_boundary(s: Seq<char>, i: int) -> bool {
    word_at(s, i - 1) != word_at(s, i)
}

/// Whether `s` reads `phrase` at `i` as a whole: a word begins or ends at either end of
/// it.
pub open spec fn stands_whole(s: Seq<char>, phrase: Seq<char>, i: int) -> bool {
    reads_at(s, phrase, i) && is_boundary(s, i) && is_boundary(s, (i + phrase.len()) as int)
}

/// What stands behind `i` in `s`, with `written` for every `phrase` that stands as a
/// whole, from the left.
pub open spec fn rewritten(s: Seq<char>, phrase: Seq<char>, written: Seq<char>, i: int) -> Seq<char>
    decreases s.len() - i,
{
    if i < 0 || i >= s.len() || phrase.len() == 0 {
        Seq::empty()
    } else if stands_whole(s, phrase, i) {
        written + rewritten(s, phrase, written, (i + phrase.len()) as int)
    } else {
        seq![s[i]] + rewritten(s, phrase, written, i + 1)
    }
}

/// Whether `pattern` and `replacement` are those that write `written` for the whole
/// phrase `phrase`, in any letter case.
pub open spec fn is_correction(
    pattern: Seq<char>,
    replacement: Seq<char>,
    phrase: Seq<char>,
    written: Seq<char>,
) -> bool {
    phrase.len() > 0 && pattern == "(?i)\\b"@ + escaped(phrase) + "\\b"@ && replacement == doubled(
        written,
    )
}

/// A correction is none of the three patterns.
pub proof fn lemma_corrections_are_others(
    pattern: Seq<char>,
    text: Seq<char>,
    replacement: Seq<char>,
    phrase: Seq<char>,
    written: Seq<char>,
)
    requires
        is_correction(pattern, replacement, phrase, written),
    ensures
        known(pattern, text, replacement) is None,
{
    reveal_strlit("(?i)\\b(um+|uh+|erm+|hmm+)\\b,?\\s*");
    reveal_strlit("\\s+([,.!?;:])");
    reveal_strlit("\\bi\\b");
    reveal_strlit("(?i)\\b");
    reveal_strlit("\\b");
    assert(pattern[0] == '(');
    assert(pattern.last() == 'b');
    assert("(?i)\\b(um+|uh+|erm+|hmm+)\\b,?\\s*"@.last() == '*');
    assert("\\s+([,.!?;:])"@[0] == '\\');
    assert("\\bi\\b"@[0] == '\\');
}

/// `regex::Regex::new` and, where it accepts `pattern`, `Regex::replace_all` on
/// `text` with `replacement`. The result is a function of the three texts. For three
/// patterns it is said what it is, by the syntax that the crate documents: `\s` is
/// white space, `\b` lies between a character of `\w` and another one or an end of
/// the text, `(?i)` matches letters in either case, and the matches are found from the
/// left, do not overlap, and take as much as they can. For the pattern of a correction,
/// where it is accepted, it is said too: an escaped text is matched character by
/// character, and a doubled dollar sign in the replacement is one.
#[verifier::external_body]
fn regex_replace_all(pattern: &str, text: &str, replacement: &str) -> (r: Option<String>)
    ensures
        r is Some == match known(pattern@, text@, replacement@) {
            Some(_) => true,
            None => regex_replaced(pattern@, text@, replacement@) is Some,
        },
        r matches Some(s) ==> match known(pattern@, text@, replacement@) {
            Some(m) => s@ == m,
            None => regex_replaced(pattern@, text@, replacement@) == Some(s@),
        },
        forall|phrase: Seq<char>, written: Seq<char>| #[trigger]
            is_correction(pattern@, replacement@, phrase, written) && r is Some ==> r->0@
                == rewritten(text@, phrase, written, 0),
{
    match regex::Regex::new(pattern) {
        Ok(re) => Some(re.replace_all(text, replacement).into_owned()),
        Err(_) => None,
    }
}

/// `regex::escape`: puts a backslash in front of every character of `text` that
/// has a meaning of its own in a regular expression, and keeps the rest.
#[verifier::external_body]
pub(crate) fn regex_escape(text: &str) -> (r: String)
    ensures
        r@ == escaped(text@),
{
    regex::escape(text)
}

/// `text` with every match of `pattern` replaced; unchanged where `pattern` is
/// no regular expression.
pub fn substitute(pattern: &str, text: &str, replacement: &str) -> (r: String)
    ensures
        r@ == substituted(pattern@, text@, replacement@),
        forall|phrase: Seq<char>, written: Seq<char>| #[trigger]
            is_correction(pattern@, replacement@, phrase, written) && regex_replaced(
                pattern@,
                text@,
                replacement@,
            ) is Some ==> r@ == rewritten(text@, phrase, written, 0),
{
    proof {
        assert forall|phrase: Seq<char>, written: Seq<char>| #[trigger]
            is_correction(pattern@, replacement@, phrase, written) implies known(
            pattern@,
            text@,
            replacement@,
        ) is None by {
            lemma_corrections_are_others(pattern@, text@, replacement@, phrase, written);
        }
    }

    match regex_replace_all(pattern, text, replacement) {
        Some(s) => s,
        None => text.to_string(),
    }
}

/// The three patterns are three.
pub proof fn lemma_three_patterns()
    ensures
        FILLER@ != SPACE_PUNCT@,
        FILLER@ != STANDALONE_I@,
        SPACE_PUNCT@ != STANDALONE_I@,
{
    reveal_strlit("(?i)\\b(um+|uh+|erm+|hmm+)\\b,?\\s*");
    reveal_strlit("\\s+([,.!?;:])");
    reveal_strlit("\\bi\\b");
    assert(FILLER@[0] == '(');
    assert(SPACE_PUNCT@[1] == 's');
    assert(STANDALONE_I@[1] == 'b');
    assert(SPACE_PUNCT@[0] == '\\' && STANDALONE_I@[0] == '\\');
}

} // verus!
