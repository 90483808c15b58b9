//! The vocabulary: hot words, one on each line of a file that may open with a
//! block of comments, and corrections, `heard => written`, one on each line of
//! another. Corrections change the copy on the clipboard only.

use crate::clipboard;
use crate::json::Json;
use crate::pattern;
use crate::text;
use vstd::prelude::*;

verus! {

/// The name of the file of corrections.
pub const CORRECTIONS_FILE: &'static str = "corrections.txt";

/// The name of the file of hot words.
pub const VOCAB_FILE: &'static str = "vocab.txt";

// ---- reading ----------------------------------------------------------------

/// Whether a trimmed line says nothing: it is empty or a comment.
pub open spec fn is_mute(t: Seq<char>) -> bool {
    t.len() == 0 || t[0] == '#'
}

/// The hot words in lines, trimmed.
pub open spec fn spoken_lines(lines: Seq<Seq<char>>) -> Seq<Seq<char>>
    decreases lines.len(),
{
    if lines.len() == 0 {
        Seq::empty()
    } else {
        let before = spoken_lines(lines.drop_last());
        let t = text::trim(lines.last());
        if is_mute(t) {
            before
        } else {
            before.push(t)
        }
    }
}

/// The hot words in a file.
pub open spec fn hotwords_in(raw: Seq<char>) -> Seq<Seq<char>> {
    spoken_lines(text::lines(raw))
}

/// What a line of the file of corrections says: what was heard and what is to be
/// written, where both are there.
pub open spec fn correction_in(line: Seq<char>) -> Option<(Seq<char>, Seq<char>)> {
    let t = text::trim(line);
    if is_mute(t) {
        None
    } else {
        match text::find(t, "=>"@) {
            Some(k) => {
                let heard = text::trim(t.take(k));
                let written = text::trim(t.skip(k + 2));
                if heard.len() == 0 || written.len() == 0 {
                    None
                } else {
                    Some((heard, written))
                }
            },
            None => None,
        }
    }
}

/// The corrections in lines.
pub open spec fn correction_lines(lines: Seq<Seq<char>>) -> Seq<(Seq<char>, Seq<char>)>
    decreases lines.len(),
{
    if lines.len() == 0 {
        Seq::empty()
    } else {
        let before = correction_lines(lines.drop_last());
        match correction_in(lines.last()) {
            Some(p) => before.push(p),
            None => before,
        }
    }
}

/// The corrections in a file.
pub open spec fn corrections_in(raw: Seq<char>) -> Seq<(Seq<char>, Seq<char>)> {
    correction_lines(text::lines(raw))
}

/// What each pair of a list reads.
pub open spec fn pair_texts(v: Seq<(String, String)>) -> Seq<(Seq<char>, Seq<char>)> {
    v.map_values(|p: (String, String)| (p.0@, p.1@))
}

/// The hot words in the file whose contents are `raw`: its lines that are not
/// blank and no comments, trimmed, in order.
pub fn read_hotwords(raw: &str) -> (r: Vec<String>)
    ensures
        text::texts(r@) == hotwords_in(raw@),
{
    let c = text::chars_of(raw);
    let lines = text::lines_of(c.as_slice());
    let ghost all = text::lines(raw@);
    let mut out: Vec<String> = Vec::new();
    assert(text::texts(out@) == spoken_lines(all.take(0)));
    for i in 0..lines.len()
        invariant
            all == text::pieces(lines@),
            text::texts(out@) == spoken_lines(all.take(i as int)),
    {
        assert(all.take(i + 1).drop_last() == all.take(i as int));
        assert(all.take(i + 1).last() == lines@[i as int]@);
        let t = text::trimmed(lines[i].as_slice());
        if t.len() > 0 && t[0] != '#' {
            let ghost was = out@;
            let w = text::string_of(t);
            let ghost g = w@;
            out.push(w);
            assert(text::texts(out@) == text::texts(was).push(g));
        }
    }
    assert(all.take(all.len() as int) == all);
    out
}

/// What a line of the file of corrections says.
fn read_correction(line: &[char]) -> (r: Option<(String, String)>)
    ensures
        match r {
            Some(p) => correction_in(line@) == Some((p.0@, p.1@)),
            None => correction_in(line@) is None,
        },
{
    let t = text::trimmed(line);
    if t.len() == 0 || t[0] == '#' {
        return None;
    }
    let arrow = text::chars_of("=>");
    proof {
        reveal_strlit("=>");
        text::lemma_find_from(t@, "=>"@, 0);
    }
    match text::position(t, arrow.as_slice()) {
        Some(k) => {
            let n: usize = t.len();
            assert(k + 2 <= n);
            let heard = text::trimmed(text::first(t, k));
            let written = text::trimmed(text::rest(t, k + 2));
            if heard.len() == 0 || written.len() == 0 {
                None
            } else {
                Some((text::string_of(heard), text::string_of(written)))
            }
        },
        None => None,
    }
}

/// The corrections in the file whose contents are `raw`, in order. Lines without
/// an arrow, or with nothing on one side of it, are skipped.
pub fn read_corrections(raw: &str) -> (r: Vec<(String, String)>)
    ensures
        pair_texts(r@) == corrections_in(raw@),
{
    let c = text::chars_of(raw);
    let lines = text::lines_of(c.as_slice());
    let ghost all = text::lines(raw@);
    let mut out: Vec<(String, String)> = Vec::new();
    assert(pair_texts(out@) == correction_lines(all.take(0)));
    for i in 0..lines.len()
        invariant
            all == text::pieces(lines@),
            pair_texts(out@) == correction_lines(all.take(i as int)),
    {
        assert(all.take(i + 1).drop_last() == all.take(i as int));
        assert(all.take(i + 1).last() == lines@[i as int]@);
        if let Some(p) = read_correction(lines[i].as_slice()) {
            let ghost was = out@;
            let ghost g = (p.0@, p.1@);
            out.push(p);
            assert(pair_texts(out@) == pair_texts(was).push(g));
        }
    }
    assert(all.take(all.len() as int) == all);
    out
}

// ---- writing ----------------------------------------------------------------

/// How many lines at the front say nothing.
pub open spec fn head_len(lines: Seq<Seq<char>>) -> nat
    decreases lines.len(),
{
    if lines.len() > 0 && is_mute(text::trim(lines[0])) {
        1 + head_len(lines.skip(1))
    } else {
        0
    }
}

/// The lines, each with a line feed behind it.
pub open spec fn sheet(lines: Seq<Seq<char>>) -> Seq<char>
    decreases lines.len(),
{
    if lines.len() == 0 {
        Seq::empty()
    } else {
        sheet(lines.drop_last()) + lines.last() + seq!['\n']
    }
}

/// The new contents of the file of hot words: the block of comments and blank
/// lines that `old` opens with, then the words.
pub open spec fn hotword_sheet(old: Seq<char>, words: Seq<Seq<char>>) -> Seq<char> {
    let lines = text::lines(old);
    sheet(lines.take(head_len(lines) as int) + words)
}

/// The line of a correction.
pub open spec fn correction_line(p: (Seq<char>, Seq<char>)) -> Seq<char> {
    p.0 + " => "@ + p.1
}

/// The new contents of the file of corrections.
pub open spec fn correction_sheet(pairs: Seq<(Seq<char>, Seq<char>)>) -> Seq<char> {
    sheet(pairs.map_values(|p: (Seq<char>, Seq<char>)| correction_line(p)))
}

/// The new contents of the file of hot words, given the old ones: the block of
/// comments and blank lines that they open with is kept, and the words follow.
pub fn write_hotwords(old: &str, words: &Vec<String>) -> (r: String)
    ensures
        r@ == hotword_sheet(old@, text::texts(words@)),
{
    let c = text::chars_of(old);
    let lines = text::lines_of(c.as_slice());
    let ghost all = text::lines(old@);
    let ghost head = head_len(all) as int;
    let mut out: Vec<char> = Vec::new();
    let mut n: usize = 0;
    assert(all.skip(0) == all);
    assert(all.take(0) == Seq::<Seq<char>>::empty());
    while n < lines.len()
        invariant_except_break
            n + head_len(all.skip(n as int)) == head_len(all),
        invariant
            n <= lines@.len(),
            all == text::pieces(lines@),
            out@ == sheet(all.take(n as int)),
        ensures
            n == head_len(all),
        decreases lines@.len() - n,
    {
        assert(all.skip(n as int)[0] == lines@[n as int]@);
        assert(all.skip(n as int).skip(1) == all.skip(n + 1));
        let t = text::trimmed(lines[n].as_slice());
        if t.len() > 0 && t[0] != '#' {
            break;
        }
        assert(all.take(n + 1).drop_last() == all.take(n as int));
        text::extend(&mut out, lines[n].as_slice());
        out.push('\n');
        assert(out@ == sheet(all.take(n as int)) + all[n as int] + seq!['\n']);
        n = n + 1;
    }
    let ghost front = all.take(n as int);
    let ghost w = text::texts(words@);
    assert(front + w.take(0) == front);
    for i in 0..words.len()
        invariant
            w == text::texts(words@),
            out@ == sheet(front + w.take(i as int)),
    {
        assert((front + w.take(i + 1)).drop_last() == front + w.take(i as int));
        assert((front + w.take(i + 1)).last() == words@[i as int]@);
        text::extend_str(&mut out, words[i].as_str());
        out.push('\n');
        assert(out@ == sheet(front + w.take(i as int)) + words@[i as int]@ + seq!['\n']);
    }
    assert(w.take(w.len() as int) == w);
    text::string_of(out.as_slice())
}

/// The new contents of the file of corrections.
pub fn write_corrections(pairs: &Vec<(String, String)>) -> (r: String)
    ensures
        r@ == correction_sheet(pair_texts(pairs@)),
{
    let ghost lines = pair_texts(pairs@).map_values(
        |p: (Seq<char>, Seq<char>)| correction_line(p),
    );
    let mut out: Vec<char> = Vec::new();
    for i in 0..pairs.len()
        invariant
            lines == pair_texts(pairs@).map_values(
                |p: (Seq<char>, Seq<char>)| correction_line(p),
            ),
            out@ == sheet(lines.take(i as int)),
    {
        assert(lines.take(i + 1).drop_last() == lines.take(i as int));
        assert(lines.take(i + 1).last() == correction_line(
            (pairs@[i as int].0@, pairs@[i as int].1@),
        ));
        text::extend_str(&mut out, pairs[i].0.as_str());
        text::extend_str(&mut out, " => ");
        text::extend_str(&mut out, pairs[i].1.as_str());
        out.push('\n');
        assert(out@ == sheet(lines.take(i as int)) + lines[i as int] + seq!['\n']);
    }
    assert(lines.take(lines.len() as int) == lines);
    text::string_of(out.as_slice())
}

// ---- the editor -------------------------------------------------------------

/// `s` with a space for every arrow.
pub open spec fn without_arrows(s: Seq<char>) -> Seq<char>
    decreases s.len(),
{
    if s.len() == 0 {
        s
    } else if s.len() >= 2 && s[0] == '=' && s[1] == '>' {
        seq![' '] + without_arrows(s.skip(2))
    } else {
        seq![s[0]] + without_arrows(s.skip(1))
    }
}

/// A term as it may stand in the files: without arrows, its words with one space
/// between each two; nothing where no word is left.
pub open spec fn term_of(v: Json) -> Option<Seq<char>> {
    match v.text() {
        Some(s) => {
            let t = clipboard::collapsed(without_arrows(s));
            if t.len() == 0 {
                None
            } else {
                Some(t)
            }
        },
        None => None,
    }
}

/// The hot words that the editor sends.
pub open spec fn terms_of(items: Seq<Json>) -> Seq<Seq<char>>
    decreases items.len(),
{
    if items.len() == 0 {
        Seq::empty()
    } else {
        let before = terms_of(items.drop_last());
        match term_of(items.last()) {
            Some(t) => before.push(t),
            None => before,
        }
    }
}

/// The correction that an item sends: the first two terms of a list.
pub open spec fn pair_of(v: Json) -> Option<(Seq<char>, Seq<char>)> {
    if v.items().len() >= 2 {
        match (term_of(v.items()[0]), term_of(v.items()[1])) {
            (Some(h), Some(w)) => Some((h, w)),
            _ => None,
        }
    } else {
        None
    }
}

/// The corrections that the editor sends.
pub open spec fn pairs_of(items: Seq<Json>) -> Seq<(Seq<char>, Seq<char>)>
    decreases items.len(),
{
    if items.len() == 0 {
        Seq::empty()
    } else {
        let before = pairs_of(items.drop_last());
        match pair_of(items.last()) {
            Some(p) => before.push(p),
            None => before,
        }
    }
}

/// `s` with a space for every arrow.
fn scrub(s: &[char]) -> (r: Vec<char>)
    ensures
        r@ == without_arrows(s@),
{
    let mut out: Vec<char> = Vec::new();
    let mut i: usize = 0;
    assert(s@.skip(0) == s@);
    while i < s.len()
        invariant
            i <= s@.len(),
            out@ + without_arrows(s@.skip(i as int)) == without_arrows(s@),
        decreases s@.len() - i,
    {
        let ghost here = s@.skip(i as int);
        let mut step: usize = 1;
        let mut c: char = s[i];
        if s[i] == '=' && s.len() - i >= 2 && s[i + 1] == '>' {
            step = 2;
            c = ' ';
        }
        proof {
            assert(here.skip(step as int) == s@.skip(i + step));
            assert(without_arrows(here) == seq![c] + without_arrows(here.skip(step as int)));
            assert(out@.push(c) + without_arrows(here.skip(step as int)) == out@ + without_arrows(
                here,
            ));
        }
        out.push(c);
        i = i + step;
    }
    assert(s@.skip(i as int) == Seq::<char>::empty());
    out
}

/// A term as it may stand in the files, where `v` holds one.
pub fn clean_term(v: &Json) -> (r: Option<String>)
    ensures
        text::opt_text(r) == term_of(*v),
{
    match v.as_str() {
        Some(s) => {
            let c = text::chars_of(s);
            let plain = scrub(c.as_slice());
            let t = clipboard::collapse(text::string_of(plain.as_slice()).as_str());
            if text::chars_of(t.as_str()).len() == 0 {
                None
            } else {
                Some(t)
            }
        },
        None => None,
    }
}

/// What the editor's two lists come down to: the hot words and the corrections.
pub fn received(hotwords: &Json, corrections: &Json) -> (r: (Vec<String>, Vec<(String, String)>))
    ensures
        text::texts(r.0@) == terms_of(hotwords.items()),
        pair_texts(r.1@) == pairs_of(corrections.items()),
{
    let mut words: Vec<String> = Vec::new();
    let mut pairs: Vec<(String, String)> = Vec::new();
    assert(text::texts(words@) == terms_of(Seq::empty()));
    assert(pair_texts(pairs@) == pairs_of(Seq::empty()));
    if let Some(items) = hotwords.as_array() {
        let ghost all = hotwords.items();
        assert(all.take(0) == Seq::<Json>::empty());
        for i in 0..items.len()
            invariant
                all == items@,
                text::texts(words@) == terms_of(all.take(i as int)),
        {
            assert(all.take(i + 1).drop_last() == all.take(i as int));
            if let Some(w) = clean_term(&items[i]) {
                let ghost was = words@;
                let ghost g = w@;
                words.push(w);
                assert(text::texts(words@) == text::texts(was).push(g));
            }
        }
        assert(all.take(all.len() as int) == all);
    }
    if let Some(items) = corrections.as_array() {
        let ghost all = corrections.items();
        assert(all.take(0) == Seq::<Json>::empty());
        for i in 0..items.len()
            invariant
                all == items@,
                pair_texts(pairs@) == pairs_of(all.take(i as int)),
        {
            assert(all.take(i + 1).drop_last() == all.take(i as int));
            if let Some(sides) = items[i].as_array() {
                if sides.len() >= 2 {
                    if let Some(h) = clean_term(&sides[0]) {
                        if let Some(w) = clean_term(&sides[1]) {
                            let ghost was = pairs@;
                            let ghost g = (h@, w@);
                            pairs.push((h, w));
                            assert(pair_texts(pairs@) == pair_texts(was).push(g));
                        }
                    }
                }
            }
        }
        assert(all.take(all.len() as int) == all);
    }
    (words, pairs)
}

/// Keep what the editor sends: the new contents of the file of hot words, given
/// the old ones, and those of the file of corrections.
pub fn set(old: &str, hotwords: &Json, corrections: &Json) -> (r: (String, String))
    ensures
        r.0@ == hotword_sheet(old@, terms_of(hotwords.items())),
        r.1@ == correction_sheet(pairs_of(corrections.items())),
{
    let (words, pairs) = received(hotwords, corrections);
    (write_hotwords(old, &words), write_corrections(&pairs))
}

/// What the editor shows.
#[derive(Debug, PartialEq, Eq)]
pub struct Listing {
    pub hotwords: Vec<String>,
    pub corrections: Vec<(String, String)>,
}

/// What the editor shows, from the contents of the two files; a missing file
/// counts as an empty one.
pub fn list(vocab: Option<&str>, corrections: Option<&str>) -> (r: Listing)
    ensures
        text::texts(r.hotwords@) == hotwords_in(
            match vocab {
                Some(v) => v@,
                None => Seq::empty(),
            },
        ),
        pair_texts(r.corrections@) == corrections_in(
            match corrections {
                Some(c) => c@,
                None => Seq::empty(),
            },
        ),
{
    proof {
        reveal_strlit("");
        assert(""@ == Seq::<char>::empty());
    }
    Listing {
        hotwords: read_hotwords(
            match vocab {
                Some(v) => v,
                None => "",
            },
        ),
        corrections: read_corrections(
            match corrections {
                Some(c) => c,
                None => "",
            },
        ),
    }
}

// ---- correcting -------------------------------------------------------------

/// The pattern of a correction: what was heard, as a whole phrase, in any letter
/// case.
pub open spec fn heard_pattern(heard: Seq<char>) -> Seq<char> {
    "(?i)\\b"@ + pattern::escaped(heard) + "\\b"@
}

/// `t` with every dollar sign doubled: as a replacement it stands for `t` itself.
pub open spec fn literal(t: Seq<char>) -> Seq<char> {
    pattern::doubled(t)
}

/// `t` with every dollar sign doubled.
fn literal_of(t: &str) -> (r: String)
    ensures
        r@ == literal(t@),
{
    let c = text::chars_of(t);
    let mut out: Vec<char> = Vec::new();
    for i in 0..c.len()
        invariant
            c@ == t@,
            out@ == literal(t@.take(i as int)),
    {
        assert(t@.take(i + 1).drop_last() == t@.take(i as int));
        if c[i] == '$' {
            out.push('$');
        }
        out.push(c[i]);
    }
    assert(t@.take(t@.len() as int) == t@);
    text::string_of(out.as_slice())
}

/// `s` with one correction made: the text that is to be written stands for each whole
/// phrase that was heard, as it stands. A phrase that is too long for a pattern changes
/// nothing.
pub open spec fn corrected_once(s: Seq<char>, heard: Seq<char>, written: Seq<char>) -> Seq<char> {
    if heard.len() == 0 {
        pattern::substituted(heard_pattern(heard), s, literal(written))
    } else if can_be_corrected(s, heard, written) {
        pattern::rewritten(s, heard, written, 0)
    } else {
        s
    }
}

/// Whether what was heard makes a pattern.
pub open spec fn can_be_corrected(s: Seq<char>, heard: Seq<char>, written: Seq<char>) -> bool {
    pattern::regex_replaced(heard_pattern(heard), s, literal(written)) is Some
}

/// `s` with the corrections made one behind the other: each phrase that was heard
/// gives way to the text that is to be written, as it stands.
pub open spec fn corrected(s: Seq<char>, pairs: Seq<(Seq<char>, Seq<char>)>) -> Seq<char>
    decreases pairs.len(),
{
    if pairs.len() == 0 {
        s
    } else {
        corrected_once(corrected(s, pairs.drop_last()), pairs.last().0, pairs.last().1)
    }
}

/// `s` with the corrections made, or `s` itself where they leave nothing but
/// white space.
pub open spec fn corrected_take(s: Seq<char>, pairs: Seq<(Seq<char>, Seq<char>)>) -> Seq<char> {
    if s.len() == 0 || text::trim(corrected(s, pairs)).len() == 0 {
        s
    } else {
        corrected(s, pairs)
    }
}

/// `corrected` text `out` of the take `s`, or `s` itself where nothing but white
/// space is left.
pub fn keep_take(s: &str, out: String) -> (r: String)
    ensures
        r@ == if text::trim(out@).len() == 0 {
            s@
        } else {
            out@
        },
{
    let c = text::chars_of(out.as_str());
    if text::trimmed(c.as_slice()).len() == 0 {
        s.to_string()
    } else {
        out
    }
}

/// Make the corrections in `s`, in order: whole phrases in any letter case.
/// Never leaves nothing of a text that holds something.
pub fn apply_corrections(s: &str, pairs: &[(String, String)]) -> (r: String)
    ensures
        r@ == corrected_take(s@, pair_texts(pairs@)),
{
    if pairs.len() == 0 || text::chars_of(s).len() == 0 {
        return s.to_string();
    }
    let ghost all = pair_texts(pairs@);
    let mut out = s.to_string();
    assert(all.take(0) == Seq::<(Seq<char>, Seq<char>)>::empty());
    for i in 0..pairs.len()
        invariant
            all == pair_texts(pairs@),
            out@ == corrected(s@, all.take(i as int)),
    {
        assert(all.take(i + 1).drop_last() == all.take(i as int));
        assert(all.take(i + 1).last() == (pairs@[i as int].0@, pairs@[i as int].1@));
        let mut p = text::chars_of("(?i)\\b");
        let heard = pattern::regex_escape(pairs[i].0.as_str());
        text::extend_str(&mut p, heard.as_str());
        text::extend_str(&mut p, "\\b");
        let p = text::string_of(p.as_slice());
        let written = literal_of(pairs[i].1.as_str());
        proof {
            let (h, w) = (pairs@[i as int].0@, pairs@[i as int].1@);
            if h.len() > 0 {
                assert(pattern::is_correction(p@, written@, h, w));
                pattern::lemma_corrections_are_others(p@, out@, written@, h, w);
            }
        }
        out = pattern::substitute(p.as_str(), out.as_str(), written.as_str());
    }
    assert(all.take(all.len() as int) == all);
    keep_take(s, out)
}

// ---- laws -------------------------------------------------------------------

/// Whether `s` holds no arrow.
pub open spec fn has_no_arrow(s: Seq<char>) -> bool {
    forall|i: int| 0 <= i < s.len() - 1 ==> !(#[trigger] s[i] == '=' && s[i + 1] == '>')
}

/// Whether `t` may stand in the files as a term: words with one space between
/// each two, and no arrow.
pub open spec fn is_term(t: Seq<char>) -> bool {
    t.len() > 0 && clipboard::collapsed(t) == t && has_no_arrow(t)
}

/// Nothing is left of an arrow.
proof fn lemma_without_arrows(s: Seq<char>)
    ensures
        has_no_arrow(without_arrows(s)),
    decreases s.len(),
{
    if s.len() > 0 {
        let r = without_arrows(s);
        if s.len() >= 2 && s[0] == '=' && s[1] == '>' {
            let q = without_arrows(s.skip(2));
            lemma_without_arrows(s.skip(2));
            assert forall|i: int| 0 <= i < r.len() - 1 implies !(#[trigger] r[i] == '=' && r[i + 1]
                == '>') by {
                if i > 0 {
                    assert(r[i] == q[i - 1]);
                    assert(r[i + 1] == q[i]);
                }
            }
        } else {
            let q = without_arrows(s.skip(1));
            lemma_without_arrows(s.skip(1));
            assert(s.len() >= 2 ==> s.skip(1)[0] == s[1]);
            assert forall|i: int| 0 <= i < r.len() - 1 implies !(#[trigger] r[i] == '=' && r[i + 1]
                == '>') by {
                if i > 0 {
                    assert(r[i] == q[i - 1]);
                    assert(r[i + 1] == q[i]);
                } else {
                    assert(r[1] == q[0]);
                    assert(s.len() >= 2);
                }
            }
        }
    }
}

/// No piece between white space holds an arrow that the whole does not; the last
/// piece is what the whole ends with.
proof fn lemma_pieces_without_arrows(s: Seq<char>)
    requires
        has_no_arrow(s),
    ensures
        forall|i: int|
            0 <= i < text::split_white(s).len() ==> has_no_arrow(
                #[trigger] text::split_white(s)[i],
            ),
        text::split_white(s).len() > 0,
        text::split_white(s).last().len() <= s.len(),
        s.skip(s.len() - text::split_white(s).last().len()) == text::split_white(s).last(),
    decreases s.len(),
{
    text::lemma_split_white_some(s);
    if s.len() == 0 {
        assert(s.skip(0) == s);
    } else {
        let p = s.drop_last();
        assert forall|i: int| 0 <= i < p.len() - 1 implies !(#[trigger] p[i] == '=' && p[i + 1]
            == '>') by {
            assert(p[i] == s[i] && p[i + 1] == s[i + 1]);
        }
        lemma_pieces_without_arrows(p);
        let before = text::split_white(p);
        let last = before[before.len() - 1];
        let now = text::split_white(s);
        if text::is_white(s.last()) {
            assert(s.skip(s.len() as int) == Seq::<char>::empty());
            assert forall|i: int| 0 <= i < now.len() implies has_no_arrow(#[trigger] now[i]) by {
                if i < before.len() {
                    assert(has_no_arrow(before[i]));
                }
            }
        } else {
            let w = last.push(s.last());
            let at = p.len() - last.len();
            assert(p.skip(at) == last);
            assert(s.skip(at) == w) by {
                assert forall|i: int| 0 <= i < w.len() implies s.skip(at)[i] == w[i] by {
                    if i < last.len() {
                        assert(p.skip(at)[i] == last[i]);
                    }
                }
            }
            assert forall|i: int| 0 <= i < w.len() - 1 implies !(#[trigger] w[i] == '=' && w[i + 1]
                == '>') by {
                assert(w[i] == s[at + i]);
                assert(w[i + 1] == s[at + i + 1]);
            }
            assert forall|i: int| 0 <= i < now.len() implies has_no_arrow(#[trigger] now[i]) by {
                if i < before.len() - 1 {
                    assert(now[i] == before[i]);
                    assert(has_no_arrow(before[i]));
                } else {
                    assert(now[i] == w);
                }
            }
        }
    }
}

/// Joining by spaces makes no arrow.
proof fn lemma_join_without_arrows(ws: Seq<Seq<char>>)
    requires
        forall|i: int| 0 <= i < ws.len() ==> has_no_arrow(#[trigger] ws[i]),
    ensures
        has_no_arrow(text::join(ws, seq![' '])),
    decreases ws.len(),
{
    if ws.len() == 1 {
        assert(has_no_arrow(ws[0]));
    } else if ws.len() > 1 {
        let v = ws.drop_last();
        assert forall|i: int| 0 <= i < v.len() implies has_no_arrow(#[trigger] v[i]) by {
            assert(has_no_arrow(ws[i]));
        }
        lemma_join_without_arrows(v);
        let a = text::join(v, seq![' ']);
        let w = ws[ws.len() - 1];
        assert(has_no_arrow(w));
        let t = text::join(ws, seq![' ']);
        assert(t == a + seq![' '] + w);
        assert forall|i: int| 0 <= i < t.len() - 1 implies !(#[trigger] t[i] == '=' && t[i + 1]
            == '>') by {
            if i + 1 < a.len() {
                assert(t[i] == a[i] && t[i + 1] == a[i + 1]);
            } else if i + 1 == a.len() {
                assert(t[i + 1] == ' ');
            } else if i == a.len() {
                assert(t[i] == ' ');
            } else {
                assert(t[i] == w[i - a.len() - 1]);
                assert(t[i + 1] == w[i + 1 - a.len() - 1]);
            }
        }
    }
}

/// Whatever the editor sends, what is kept of it may stand in the files.
pub proof fn law_kept_terms_are_terms(v: Json)
    ensures
        term_of(v) matches Some(t) ==> is_term(t),
{
    if let Some(s) = v.text() {
        let plain = without_arrows(s);
        lemma_without_arrows(s);
        clipboard::law_collapsing_is_done_once(plain);
        lemma_pieces_without_arrows(plain);
        text::lemma_non_empty_keeps(text::split_white(plain), |w: Seq<char>| has_no_arrow(w));
        lemma_join_without_arrows(text::words(plain));
        reveal_strlit(" ");
        assert(" "@ == seq![' ']);
    }
}

/// A sheet of lines reads back as those lines.
proof fn lemma_sheet_lines(ls: Seq<Seq<char>>)
    requires
        forall|i: int| 0 <= i < ls.len() ==> !(#[trigger] ls[i]).contains('\n'),
    ensures
        text::split(sheet(ls), '\n') == ls.push(Seq::empty()),
        text::lines(sheet(ls)) == ls.map_values(|l: Seq<char>| text::strip_cr(l)),
    decreases ls.len(),
{
    if ls.len() == 0 {
        assert(text::split(sheet(ls), '\n') == ls.push(Seq::empty()));
    } else {
        let front = ls.drop_last();
        assert forall|i: int| 0 <= i < front.len() implies !(#[trigger] front[i]).contains(
            '\n',
        ) by {
            assert(!ls[i].contains('\n'));
        }
        lemma_sheet_lines(front);
        let l = ls[ls.len() - 1];
        assert(!l.contains('\n'));
        text::lemma_split_append(sheet(front), l, '\n');
        let x = sheet(front) + l;
        assert(text::split(sheet(front), '\n').drop_last() == front);
        assert(Seq::<char>::empty() + l == l);
        assert(text::split(x, '\n') == front.push(l));
        assert(front.push(l) == ls);
        assert(sheet(ls) == x.push('\n'));
        assert(sheet(ls).drop_last() == x);
    }
    assert(text::split(sheet(ls), '\n').drop_last() == ls);
}

/// The lines at the front that are counted say nothing.
proof fn lemma_head(lines: Seq<Seq<char>>)
    ensures
        head_len(lines) <= lines.len(),
        forall|i: int| 0 <= i < head_len(lines) ==> is_mute(text::trim(#[trigger] lines[i])),
    decreases lines.len(),
{
    if lines.len() > 0 && is_mute(text::trim(lines[0])) {
        lemma_head(lines.skip(1));
        assert forall|i: int| 0 <= i < head_len(lines) implies is_mute(
            text::trim(#[trigger] lines[i]),
        ) by {
            if i > 0 {
                assert(lines.skip(1)[i - 1] == lines[i]);
            }
        }
    }
}

/// Lines that say nothing give no words; lines that are words give themselves.
proof fn lemma_spoken(mute: Seq<Seq<char>>, ws: Seq<Seq<char>>)
    requires
        forall|i: int| 0 <= i < mute.len() ==> is_mute(text::trim(#[trigger] mute[i])),
        forall|i: int|
            0 <= i < ws.len() ==> text::trim(#[trigger] ws[i]) == ws[i] && !is_mute(ws[i]),
    ensures
        spoken_lines(mute + ws) == ws,
    decreases mute.len() + ws.len(),
{
    let all = mute + ws;
    if ws.len() > 0 {
        let v = ws.drop_last();
        assert forall|i: int| 0 <= i < v.len() implies text::trim(#[trigger] v[i]) == v[i]
            && !is_mute(v[i]) by {
            assert(v[i] == ws[i]);
        }
        lemma_spoken(mute, v);
        assert(all.drop_last() == mute + v);
        assert(all.last() == ws[ws.len() - 1]);
        assert(ws == v.push(ws.last()));
    } else if mute.len() > 0 {
        let m = mute.drop_last();
        assert forall|i: int| 0 <= i < m.len() implies is_mute(text::trim(#[trigger] m[i])) by {
            assert(m[i] == mute[i]);
        }
        lemma_spoken(m, ws);
        assert(all.drop_last() == m + ws);
        assert(all.last() == mute[mute.len() - 1]);
        assert(ws == Seq::<Seq<char>>::empty());
    } else {
        assert(all == Seq::<Seq<char>>::empty());
        assert(ws == Seq::<Seq<char>>::empty());
    }
}

/// A collapsed text holds no line feed.
proof fn lemma_collapsed_is_one_line(t: Seq<char>)
    requires
        clipboard::collapsed(t) == t,
    ensures
        !t.contains('\n'),
        text::trim(t) == t,
        text::strip_cr(t) == t,
{
    clipboard::law_collapsing_is_done_once(t);
    if t.contains('\n') {
        let i = choose|i: int| 0 <= i < t.len() && t[i] == '\n';
        assert(text::is_white(t[i]));
    }
}

/// Hot words that were written are read back, whatever the file held before;
/// one that begins with a number sign would read as a comment (`#x`).
pub proof fn law_hotwords_read_back(old: Seq<char>, ws: Seq<Seq<char>>)
    requires
        forall|i: int| 0 <= i < ws.len() ==> is_term(#[trigger] ws[i]) && ws[i][0] != '#',
    ensures
        hotwords_in(hotword_sheet(old, ws)) == ws,
{
    let lines = text::lines(old);
    lemma_head(lines);
    let front = lines.take(head_len(lines) as int);
    let all = front + ws;
    text::lemma_lines_free(old);
    assert forall|i: int| 0 <= i < all.len() implies !(#[trigger] all[i]).contains('\n') by {
        if i < front.len() {
            assert(!lines[i].contains('\n'));
        } else {
            assert(is_term(ws[i - front.len()]));
            lemma_collapsed_is_one_line(ws[i - front.len()]);
        }
    }
    lemma_sheet_lines(all);
    let read = all.map_values(|l: Seq<char>| text::strip_cr(l));
    let mute = front.map_values(|l: Seq<char>| text::strip_cr(l));
    assert(read == mute + ws) by {
        assert forall|i: int| 0 <= i < read.len() implies read[i] == (mute + ws)[i] by {
            if i >= front.len() {
                assert(is_term(ws[i - front.len()]));
                lemma_collapsed_is_one_line(ws[i - front.len()]);
            }
        }
    }
    assert forall|i: int| 0 <= i < mute.len() implies is_mute(text::trim(#[trigger] mute[i])) by {
        assert(is_mute(text::trim(lines[i])));
        if text::strip_cr(lines[i]) != lines[i] {
            text::lemma_trim_drop_last(lines[i]);
        }
    }
    assert forall|i: int| 0 <= i < ws.len() implies text::trim(#[trigger] ws[i]) == ws[i]
        && !is_mute(ws[i]) by {
        assert(is_term(ws[i]));
        lemma_collapsed_is_one_line(ws[i]);
    }
    lemma_spoken(mute, ws);
}

/// The block of comments and blank lines that the file opens with stays, line by
/// line, in front of the words.
pub proof fn law_comments_are_kept(old: Seq<char>, ws: Seq<Seq<char>>)
    ensures
        ({
            let lines = text::lines(old);
            let head = sheet(lines.take(head_len(lines) as int));
            hotword_sheet(old, ws).len() >= head.len() && hotword_sheet(old, ws).take(
                head.len() as int,
            ) == head
        }),
    decreases ws.len(),
{
    let lines = text::lines(old);
    let front = lines.take(head_len(lines) as int);
    let head = sheet(front);
    if ws.len() == 0 {
        assert(front + ws == front);
        assert(head.take(head.len() as int) == head);
    } else {
        law_comments_are_kept(old, ws.drop_last());
        assert((front + ws).drop_last() == front + ws.drop_last());
        let before = hotword_sheet(old, ws.drop_last());
        let now = hotword_sheet(old, ws);
        assert(now == before + (front + ws).last() + seq!['\n']);
        assert(now.take(head.len() as int) == before.take(head.len() as int));
    }
}

/// One correction that was written is read back.
proof fn lemma_correction_reads_back(h: Seq<char>, w: Seq<char>)
    requires
        is_term(h),
        is_term(w),
        h[0] != '#',
    ensures
        correction_in(correction_line((h, w))) == Some((h, w)),
        text::strip_cr(correction_line((h, w))) == correction_line((h, w)),
        !correction_line((h, w)).contains('\n'),
{
    reveal_strlit(" => ");
    reveal_strlit("=>");
    let line = correction_line((h, w));
    let n = h.len() as int;
    clipboard::law_collapsing_is_done_once(h);
    clipboard::law_collapsing_is_done_once(w);
    lemma_collapsed_is_one_line(h);
    lemma_collapsed_is_one_line(w);
    assert(line.len() == n + 4 + w.len());
    assert(line[0] == h[0]);
    assert(line.last() == w.last());
    text::lemma_trim_tight(line);
    assert(text::trim(line) == line);
    assert(!line.contains('\n')) by {
        if line.contains('\n') {
            let i = choose|i: int| 0 <= i < line.len() && line[i] == '\n';
            if i < n {
                assert(h[i] == '\n');
            } else if i >= n + 4 {
                assert(w[i - n - 4] == '\n');
            }
        }
    }
    let arrow = "=>"@;
    assert(line.subrange(n + 1, n + 3) == arrow);
    assert(text::occurs_at(line, arrow, n + 1));
    assert forall|j: int| 0 <= j < n + 1 implies !text::occurs_at(line, arrow, j) by {
        if text::occurs_at(line, arrow, j) {
            assert(line.subrange(j, j + 2)[0] == line[j]);
            assert(line.subrange(j, j + 2)[1] == line[j + 1]);
            assert(line[j] == '=' && line[j + 1] == '>');
            if j + 1 < n {
                assert(h[j] == '=' && h[j + 1] == '>');
            }
        }
    }
    text::lemma_find_from(line, arrow, 0);
    assert(text::find(line, arrow) == Some(n + 1));
    let left = line.take(n + 1);
    assert(left.drop_last() == h);
    text::lemma_trim_drop_last(left);
    let right = line.skip(n + 3);
    assert(right.skip(1) == w);
    text::lemma_trim_skip_first(right);
}

/// Corrections that were written are read back; one whose heard side begins
/// with a number sign would read as a comment (`#x`).
pub proof fn law_corrections_read_back(pairs: Seq<(Seq<char>, Seq<char>)>)
    requires
        forall|i: int|
            0 <= i < pairs.len() ==> is_term((#[trigger] pairs[i]).0) && is_term(pairs[i].1)
                && pairs[i].0[0] != '#',
    ensures
        corrections_in(correction_sheet(pairs)) == pairs,
{
    let lines = pairs.map_values(|p: (Seq<char>, Seq<char>)| correction_line(p));
    assert forall|i: int| 0 <= i < lines.len() implies !(#[trigger] lines[i]).contains('\n') by {
        lemma_correction_reads_back(pairs[i].0, pairs[i].1);
    }
    lemma_sheet_lines(lines);
    let read = lines.map_values(|l: Seq<char>| text::strip_cr(l));
    assert(read == lines) by {
        assert forall|i: int| 0 <= i < lines.len() implies read[i] == lines[i] by {
            lemma_correction_reads_back(pairs[i].0, pairs[i].1);
        }
    }
    lemma_correction_lines(pairs);
}

/// The lines of corrections give those corrections.
proof fn lemma_correction_lines(pairs: Seq<(Seq<char>, Seq<char>)>)
    requires
        forall|i: int|
            0 <= i < pairs.len() ==> is_term((#[trigger] pairs[i]).0) && is_term(pairs[i].1)
                && pairs[i].0[0] != '#',
    ensures
        correction_lines(pairs.map_values(|p: (Seq<char>, Seq<char>)| correction_line(p))) == pairs,
    decreases pairs.len(),
{
    let lines = pairs.map_values(|p: (Seq<char>, Seq<char>)| correction_line(p));
    if pairs.len() > 0 {
        let front = pairs.drop_last();
        assert forall|i: int| 0 <= i < front.len() implies is_term((#[trigger] front[i]).0)
            && is_term(front[i].1) && front[i].0[0] != '#' by {
            assert(front[i] == pairs[i]);
        }
        lemma_correction_lines(front);
        assert(lines.drop_last() == front.map_values(
            |p: (Seq<char>, Seq<char>)| correction_line(p),
        ));
        let p = pairs[pairs.len() - 1];
        lemma_correction_reads_back(p.0, p.1);
        assert(front.push(p) == pairs);
    }
}

/// Corrections never leave nothing of a take.
pub proof fn law_corrections_never_empty_a_take(s: Seq<char>, pairs: Seq<(Seq<char>, Seq<char>)>)
    requires
        s.len() > 0,
    ensures
        corrected_take(s, pairs).len() > 0,
{
}

/// A text without a dollar sign is its own replacement.
pub proof fn law_plain_texts_are_their_own_replacement(t: Seq<char>)
    requires
        !t.contains('$'),
    ensures
        literal(t) == t,
    decreases t.len(),
{
    if t.len() > 0 {
        let front = t.drop_last();
        assert forall|i: int| 0 <= i < front.len() implies front[i] != '$' by {
            assert(t.contains(t[i]));
        }
        assert(t.contains(t.last()));
        law_plain_texts_are_their_own_replacement(front);
        assert(literal(t) == t);
    }
}

/// Without corrections nothing is changed.
pub proof fn law_no_corrections_change_nothing(s: Seq<char>)
    ensures
        corrected_take(s, Seq::empty()) == s,
{
}

/// A phrase that never stands as a whole changes nothing: wherever the text reads it, in
/// any letter case, from a word character to a word character, there is another one
/// right in front of it or right behind it.
pub proof fn law_parts_of_words_stay(s: Seq<char>, heard: Seq<char>, written: Seq<char>)
    requires
        heard.len() > 0,
        forall|i: int| #[trigger]
            pattern::reads_at(s, heard, i) ==> pattern::is_word_char(s[i]) && pattern::is_word_char(
                s[i + heard.len() - 1],
            ) && ((i > 0 && pattern::is_word_char(s[i - 1])) || (i + heard.len() < s.len()
                && pattern::is_word_char(s[(i + heard.len()) as int]))),
    ensures
        corrected_take(s, seq![(heard, written)]) == s,
{
    lemma_one_correction(s, heard, written);
    assert forall|i: int| !#[trigger] pattern::stands_whole(s, heard, i) by {
        if pattern::stands_whole(s, heard, i) {
            let j = i + heard.len();
            assert(pattern::word_at(s, i) && pattern::word_at(s, j - 1));
            assert(!pattern::word_at(s, i - 1) && !pattern::word_at(s, j));
        }
    }
    lemma_nothing_is_rewritten(s, heard, written, 0);
    assert(s.skip(0) == s);
}

/// One correction is the whole of the corrections.
proof fn lemma_one_correction(s: Seq<char>, heard: Seq<char>, written: Seq<char>)
    ensures
        corrected(s, seq![(heard, written)]) == corrected_once(s, heard, written),
{
    let one = seq![(heard, written)];
    assert(one.drop_last() == Seq::<(Seq<char>, Seq<char>)>::empty());
    assert(corrected(s, one.drop_last()) == s);
}

/// Where the phrase nowhere stands as a whole, nothing is rewritten.
proof fn lemma_nothing_is_rewritten(s: Seq<char>, heard: Seq<char>, written: Seq<char>, i: int)
    requires
        heard.len() > 0,
        0 <= i <= s.len(),
        forall|k: int| i <= k ==> !#[trigger] pattern::stands_whole(s, heard, k),
    ensures
        pattern::rewritten(s, heard, written, i) == s.skip(i),
    decreases s.len() - i,
{
    if i < s.len() {
        lemma_nothing_is_rewritten(s, heard, written, i + 1);
        assert(!pattern::stands_whole(s, heard, i));
        assert(seq![s[i]] + s.skip(i + 1) == s.skip(i));
    } else {
        assert(s.skip(i) == Seq::<char>::empty());
    }
}

/// A phrase that stands as a whole gives way to what is to be written, as it stands, in
/// whatever letter case it was heard, and what follows is corrected like a text of its
/// own. Everything is ASCII, the phrase begins and ends with a word character, and what
/// stands round it does not.
pub proof fn law_whole_phrases_are_corrected(
    a: Seq<char>,
    x: Seq<char>,
    b: Seq<char>,
    heard: Seq<char>,
    written: Seq<char>,
)
    requires
        text::is_ascii(a + x + b),
        text::is_ascii(heard),
        0 < heard.len() == x.len(),
        forall|k: int| 0 <= k < x.len() ==> text::lower_char(#[trigger] x[k]) == text::lower_char(heard[k]),
        text::is_alnum(x[0]) && text::is_alnum(x.last()),
        a.len() > 0 ==> !text::is_alnum(a.last()) && a.last() != '_',
        b.len() > 0 ==> !text::is_alnum(b[0]) && b[0] != '_',
        forall|i: int| 0 <= i < a.len() ==> !#[trigger] pattern::reads_at(a + x + b, heard, i),
        pattern::regex_replaced(
            "(?i)\\b"@ + pattern::escaped(heard) + "\\b"@,
            a + x + b,
            pattern::doubled(written),
        ) is Some,
        pattern::regex_replaced(
            "(?i)\\b"@ + pattern::escaped(heard) + "\\b"@,
            b,
            pattern::doubled(written),
        ) is Some,
    ensures
        corrected(a + x + b, seq![(heard, written)]) == a + written + corrected(
            b,
            seq![(heard, written)],
        ),
        text::trim(written).len() > 0 ==> corrected_take(a + x + b, seq![(heard, written)]) == a
            + written + corrected(b, seq![(heard, written)]),
{
    let s = a + x + b;
    let n = a.len() as int;
    let j = n + heard.len();
    lemma_one_correction(s, heard, written);
    lemma_one_correction(b, heard, written);
    assert forall|k: int| 0 <= k < heard.len() implies pattern::same_letter(
        #[trigger] heard[k],
        s[n + k],
    ) by {
        assert(s[n + k] == x[k]);
        assert((s[n + k] as u32) < 128);
        assert((heard[k] as u32) < 128);
    }
    assert(pattern::reads_at(s, heard, n));
    assert(s[n] == x[0] && s[j - 1] == x.last());
    assert(pattern::word_at(s, n) && pattern::word_at(s, j - 1));
    assert(!pattern::word_at(s, n - 1)) by {
        if n > 0 {
            assert(s[n - 1] == a.last());
            assert((s[n - 1] as u32) < 128);
        }
    }
    assert(!pattern::word_at(s, j)) by {
        if b.len() > 0 {
            assert(s[j] == b[0]);
            assert((s[j] as u32) < 128);
        }
    }
    assert(pattern::stands_whole(s, heard, n));
    lemma_front_is_kept(s, heard, written, 0, n);
    assert(s.skip(j) == b);
    lemma_rest_is_rewritten(s, b, heard, written, j, 0);
    assert(s.subrange(0, n) == a);
    assert(a + (written + pattern::rewritten(b, heard, written, 0)) == a + written
        + pattern::rewritten(b, heard, written, 0));
    if text::trim(written).len() > 0 {
        lemma_not_blank(a, written, corrected(b, seq![(heard, written)]));
    }
}

/// What stands in front of the first whole phrase is kept.
proof fn lemma_front_is_kept(s: Seq<char>, heard: Seq<char>, written: Seq<char>, i: int, n: int)
    requires
        heard.len() > 0,
        0 <= i <= n < s.len(),
        forall|k: int| i <= k < n ==> !#[trigger] pattern::reads_at(s, heard, k),
        pattern::stands_whole(s, heard, n),
    ensures
        pattern::rewritten(s, heard, written, i) == s.subrange(i, n) + (written
            + pattern::rewritten(s, heard, written, (n + heard.len()) as int)),
    decreases n - i,
{
    let rest = written + pattern::rewritten(s, heard, written, (n + heard.len()) as int);
    if i < n {
        assert(!pattern::reads_at(s, heard, i));
        lemma_front_is_kept(s, heard, written, i + 1, n);
        assert(seq![s[i]] + (s.subrange(i + 1, n) + rest) == s.subrange(i, n) + rest);
    } else {
        assert(s.subrange(i, n) + rest == rest);
    }
}

/// What follows a word is rewritten like a text of its own, where it does not begin
/// inside of a word.
proof fn lemma_rest_is_rewritten(
    s: Seq<char>,
    b: Seq<char>,
    heard: Seq<char>,
    written: Seq<char>,
    j: int,
    i: int,
)
    requires
        text::is_ascii(s),
        text::is_ascii(heard),
        heard.len() > 0,
        text::is_alnum(heard[0]),
        0 <= j,
        s.len() == j + b.len(),
        s.skip(j) == b,
        0 <= i <= b.len(),
        b.len() > 0 ==> !pattern::is_word_char(b[0]),
    ensures
        pattern::rewritten(s, heard, written, j + i) == pattern::rewritten(b, heard, written, i),
    decreases b.len() - i,
{
    assert forall|k: int| 0 <= k < b.len() implies #[trigger] b[k] == s[j + k] by {
        assert(s.skip(j)[k] == s[j + k]);
    }
    if i < b.len() {
        assert(pattern::reads_at(s, heard, j + i) == pattern::reads_at(b, heard, i)) by {
            if pattern::reads_at(s, heard, j + i) {
                assert forall|k: int| 0 <= k < heard.len() implies pattern::same_letter(
                    #[trigger] heard[k],
                    b[i + k],
                ) by {
                    assert(b[i + k] == s[j + i + k]);
                }
            }
            if pattern::reads_at(b, heard, i) {
                assert forall|k: int| 0 <= k < heard.len() implies pattern::same_letter(
                    #[trigger] heard[k],
                    s[j + i + k],
                ) by {
                    assert(b[i + k] == s[j + i + k]);
                }
            }
        }
        if pattern::reads_at(b, heard, i) {
            let e = (i + heard.len()) as int;
            if i == 0 {
                assert(pattern::same_letter(heard[0], b[i + 0]));
                assert((s[j] as u32) < 128 && (heard[0] as u32) < 128);
                assert(b[0] == s[j]);
                assert(false);
            }
            assert(pattern::word_at(s, j + i - 1) == pattern::word_at(b, i - 1));
            assert(pattern::word_at(s, j + i) == pattern::word_at(b, i));
            assert(pattern::word_at(s, j + e - 1) == pattern::word_at(b, e - 1));
            assert(pattern::word_at(s, j + e) == pattern::word_at(b, e));
            assert(pattern::stands_whole(s, heard, j + i) == pattern::stands_whole(b, heard, i));
            if pattern::stands_whole(b, heard, i) {
                lemma_rest_is_rewritten(s, b, heard, written, j, e);
            }
        }
        lemma_rest_is_rewritten(s, b, heard, written, j, i + 1);
        assert(s[j + i] == b[i]);
    }
}

/// A text that holds one that is not blank is not blank.
proof fn lemma_not_blank(a: Seq<char>, x: Seq<char>, b: Seq<char>)
    requires
        text::trim(x).len() > 0,
    ensures
        text::trim(a + x + b).len() > 0,
{
    let k = lemma_some_solid(x);
    lemma_solid_stays(a + x + b, a.len() + k);
}

/// A text that is not blank holds what is no white space.
proof fn lemma_some_solid(x: Seq<char>) -> (k: int)
    requires
        text::trim(x).len() > 0,
    ensures
        0 <= k < x.len(),
        !text::is_white(x[k]),
    decreases x.len(),
{
    if text::is_white(x[0]) {
        text::lemma_trim_skip_first(x);
        lemma_some_solid(x.skip(1)) + 1
    } else {
        0
    }
}

/// A text that holds what is no white space is not blank.
proof fn lemma_solid_stays(x: Seq<char>, k: int)
    requires
        0 <= k < x.len(),
        !text::is_white(x[k]),
    ensures
        text::trim(x).len() > 0,
    decreases x.len(),
{
    if text::is_white(x[0]) {
        text::lemma_trim_skip_first(x);
        lemma_solid_stays(x.skip(1), k - 1);
    } else if text::is_white(x.last()) {
        text::lemma_trim_drop_last(x);
        lemma_solid_stays(x.drop_last(), k);
    } else {
        text::lemma_trim_tight(x);
    }
}

/// Corrections are made one behind the other, in their order.
pub proof fn law_corrections_are_made_in_order(
    s: Seq<char>,
    pairs: Seq<(Seq<char>, Seq<char>)>,
    heard: Seq<char>,
    written: Seq<char>,
)
    ensures
        corrected(s, pairs.push((heard, written))) == corrected(
            corrected(s, pairs),
            seq![(heard, written)],
        ),
        text::trim(corrected(s, pairs)).len() > 0 && s.len() > 0 ==> corrected_take(s, pairs)
            == corrected(s, pairs),
        text::trim(corrected(s, pairs)).len() == 0 ==> corrected_take(s, pairs) == s,
{
    lemma_one_correction(corrected(s, pairs), heard, written);
    assert(pairs.push((heard, written)).drop_last() == pairs);
}

/// A line of corrections is what is heard, an arrow, and what is to be written, without
/// the white space round them; blank lines, comments and lines without an arrow or
/// without one of the two are none.
pub proof fn law_lines_of_corrections(h: Seq<char>, w: Seq<char>, line: Seq<char>)
    requires
        h.len() > 0 && !text::is_white(h[0]) && !text::is_white(h.last()) && h[0] != '#',
        w.len() > 0 && !text::is_white(w[0]) && !text::is_white(w.last()),
        has_no_arrow(h),
    ensures
        correction_in(h + seq![' ', '=', '>', ' '] + w) == Some((h, w)),
        text::trim(line).len() == 0 || text::trim(line)[0] == '#' ==> correction_in(line) is None,
        has_no_arrow(text::trim(line)) ==> correction_in(line) is None,
{
    reveal_strlit("=>");
    let arrow = "=>"@;
    assert(arrow == seq!['=', '>']);
    let t = h + seq![' ', '=', '>', ' '] + w;
    let n = h.len() as int;
    assert(t[0] == h[0] && t.last() == w.last());
    text::lemma_trim_tight(t);
    text::law_the_first_is_found(t, arrow);
    assert(t.subrange(n + 1, n + 3) == arrow);
    assert forall|i: int, j: int| 0 <= i < n + 1 && j == i + 2 implies #[trigger] t.subrange(i, j)
        != arrow by {
        if t.subrange(i, j) == arrow {
            assert(t.subrange(i, j)[0] == t[i]);
            assert(t.subrange(i, j)[1] == t[i + 1]);
            if i < n - 1 {
                assert(h[i] == t[i] && h[i + 1] == t[i + 1]);
            }
        }
    }
    assert(text::find(t, arrow) == Some(n + 1));
    assert(t.take(n + 1) == Seq::<char>::empty() + h + seq![' ']);
    assert(t.skip(n + 3) == seq![' '] + w + Seq::<char>::empty());
    text::law_trimming(Seq::empty(), h, seq![' ']);
    text::law_trimming(seq![' '], w, Seq::empty());
    let u = text::trim(line);
    if has_no_arrow(u) {
        text::law_the_first_is_found(u, arrow);
        if let Some(k) = text::find(u, arrow) {
            assert(u.subrange(k, k + 2)[0] == u[k]);
            assert(u.subrange(k, k + 2)[1] == u[k + 1]);
            assert(u[k] == '=' && u[k + 1] == '>');
        }
    }
}

/// The corrections of a file are those of its lines, in order.
pub proof fn law_corrections_of_lines(l: Seq<char>, rest: Seq<char>)
    requires
        !l.contains('\n'),
        l.len() > 0,
        l.last() != '\r',
    ensures
        corrections_in(l.push('\n') + rest) == if let Some(p) = correction_in(l) {
            seq![p] + corrections_in(rest)
        } else {
            corrections_in(rest)
        },
        corrections_in(Seq::empty()) == Seq::<(Seq<char>, Seq<char>)>::empty(),
{
    text::law_lines(l, rest);
    lemma_first_correction(l, text::lines(rest));
}

/// The corrections of lines with one more in front.
proof fn lemma_first_correction(l: Seq<char>, lines: Seq<Seq<char>>)
    ensures
        correction_lines(seq![l] + lines) == if let Some(p) = correction_in(l) {
            seq![p] + correction_lines(lines)
        } else {
            correction_lines(lines)
        },
    decreases lines.len(),
{
    let all = seq![l] + lines;
    let none = Seq::<(Seq<char>, Seq<char>)>::empty();
    if lines.len() == 0 {
        assert(all.drop_last() == Seq::<Seq<char>>::empty());
        assert(all.last() == l);
        assert(correction_lines(all.drop_last()) == none);
        if let Some(p) = correction_in(l) {
            assert(none.push(p) == seq![p] + none);
        }
    } else {
        lemma_first_correction(l, lines.drop_last());
        assert(all.drop_last() == seq![l] + lines.drop_last());
        assert(all.last() == lines.last());
        if let Some(p) = correction_in(l) {
            if let Some(q) = correction_in(lines.last()) {
                let before = correction_lines(lines.drop_last());
                assert((seq![p] + before).push(q) == seq![p] + before.push(q));
            }
        }
    }
}

/// The words of a file are its lines, trimmed, in order, without blank ones and comments.
pub proof fn law_words_of_lines(l: Seq<char>, rest: Seq<char>)
    requires
        !l.contains('\n'),
        l.len() > 0,
        l.last() != '\r',
    ensures
        hotwords_in(l.push('\n') + rest) == if text::trim(l).len() == 0 || text::trim(l)[0] == '#' {
            hotwords_in(rest)
        } else {
            seq![text::trim(l)] + hotwords_in(rest)
        },
        hotwords_in(Seq::empty()) == Seq::<Seq<char>>::empty(),
{
    text::law_lines(l, rest);
    lemma_first_word(l, text::lines(rest));
}

/// The words of lines with one more in front.
proof fn lemma_first_word(l: Seq<char>, lines: Seq<Seq<char>>)
    ensures
        spoken_lines(seq![l] + lines) == if is_mute(text::trim(l)) {
            spoken_lines(lines)
        } else {
            seq![text::trim(l)] + spoken_lines(lines)
        },
    decreases lines.len(),
{
    let all = seq![l] + lines;
    let none = Seq::<Seq<char>>::empty();
    let t = text::trim(l);
    if lines.len() == 0 {
        assert(all.drop_last() == none);
        assert(all.last() == l);
        assert(spoken_lines(all.drop_last()) == none);
        assert(none.push(t) == seq![t] + none);
    } else {
        lemma_first_word(l, lines.drop_last());
        assert(all.drop_last() == seq![l] + lines.drop_last());
        assert(all.last() == lines.last());
        let before = spoken_lines(lines.drop_last());
        let u = text::trim(lines.last());
        assert((seq![t] + before).push(u) == seq![t] + before.push(u));
    }
}

/// A file is its lines, each with a line feed behind it; a correction is written with an
/// arrow between spaces.
pub proof fn law_sheets(lines: Seq<Seq<char>>, l: Seq<char>, h: Seq<char>, w: Seq<char>)
    ensures
        sheet(Seq::empty()) == Seq::<char>::empty(),
        sheet(lines.push(l)) == sheet(lines) + l + seq!['\n'],
        correction_line((h, w)) == h + seq![' ', '=', '>', ' '] + w,
{
    reveal_strlit(" => ");
    assert(" => "@ == seq![' ', '=', '>', ' ']);
    assert(lines.push(l).drop_last() == lines);
}

/// What is kept of a term: its words, with one space between each two, and none for an
/// arrow. What has no arrow keeps all of it, and what is no text is no term.
pub proof fn law_terms(v: Json, a: Seq<char>, b: Seq<char>)
    requires
        has_no_arrow(a),
        has_no_arrow(b),
        a.len() > 0 ==> a.last() != '=',
    ensures
        without_arrows(a) == a,
        without_arrows(a + seq!['=', '>'] + b) == a.push(' ') + b,
        v matches Json::Text(s) ==> term_of(v) == if clipboard::collapsed(without_arrows(s@)).len()
            == 0 {
            None
        } else {
            Some(clipboard::collapsed(without_arrows(s@)))
        },
        !(v is Text) ==> term_of(v) is None,
{
    lemma_no_arrow_stays(a);
    lemma_no_arrow_stays(b);
    lemma_arrow_goes(a, b);
}

/// What has no arrow stays as it is.
proof fn lemma_no_arrow_stays(s: Seq<char>)
    requires
        has_no_arrow(s),
    ensures
        without_arrows(s) == s,
    decreases s.len(),
{
    if s.len() > 0 {
        let t = s.skip(1);
        assert forall|i: int| 0 <= i < t.len() - 1 implies !(#[trigger] t[i] == '=' && t[i + 1]
            == '>') by {
            assert(t[i] == s[i + 1] && t[i + 1] == s[i + 2]);
        }
        lemma_no_arrow_stays(t);
        assert(s.len() >= 2 ==> !(s[0] == '=' && s[1] == '>'));
        assert(seq![s[0]] + t == s);
    }
}

/// An arrow gives way to a space.
proof fn lemma_arrow_goes(a: Seq<char>, b: Seq<char>)
    requires
        has_no_arrow(a),
        has_no_arrow(b),
        a.len() > 0 ==> a.last() != '=',
    ensures
        without_arrows(a + seq!['=', '>'] + b) == a.push(' ') + b,
    decreases a.len(),
{
    let s = a + seq!['=', '>'] + b;
    if a.len() == 0 {
        assert(s[0] == '=' && s[1] == '>');
        assert(s.skip(2) == b);
        lemma_no_arrow_stays(b);
        assert(seq![' '] + b == a.push(' ') + b);
    } else {
        let c = a.skip(1);
        assert forall|i: int| 0 <= i < c.len() - 1 implies !(#[trigger] c[i] == '=' && c[i + 1]
            == '>') by {
            assert(c[i] == a[i + 1] && c[i + 1] == a[i + 2]);
        }
        assert(c.len() > 0 ==> c.last() == a.last());
        lemma_arrow_goes(c, b);
        assert(s.skip(1) == c + seq!['=', '>'] + b);
        assert(s[0] == a[0]);
        assert(a.len() >= 2 ==> s[1] == a[1] && !(a[0] == '=' && a[1] == '>'));
        assert(seq![a[0]] + (c.push(' ') + b) == a.push(' ') + b);
    }
}

/// The terms and the corrections that are received are taken in order; an item that is
/// none makes no difference, and a correction is a list that begins with two terms.
pub proof fn law_what_is_received(items: Seq<Json>, v: Json)
    ensures
        terms_of(Seq::empty()) == Seq::<Seq<char>>::empty(),
        terms_of(items.push(v)) == match term_of(v) {
            Some(t) => terms_of(items).push(t),
            None => terms_of(items),
        },
        pairs_of(Seq::empty()) == Seq::<(Seq<char>, Seq<char>)>::empty(),
        v.items().len() < 2 ==> pairs_of(items.push(v)) == pairs_of(items),
        v.items().len() >= 2 ==> pairs_of(items.push(v)) == match (
            term_of(v.items()[0]),
            term_of(v.items()[1]),
        ) {
            (Some(h), Some(w)) => pairs_of(items).push((h, w)),
            _ => pairs_of(items),
        },
{
    assert(items.push(v).drop_last() == items);
}

} // verus!
