//! What goes to the clipboard. Only the copy is cleaned up: the transcript is
//! logged as it was heard.

pub mod tidy;

use crate::pattern;
use crate::text;
use vstd::prelude::*;

verus! {

/// The words of `s` with one space between each two.
pub open spec fn collapsed(s: Seq<char>) -> Seq<char> {
    text::join(text::words(s), " "@)
}

/// Whether `s` ends like a sentence.
pub open spec fn ends_sentence(s: Seq<char>) -> bool {
    s.len() > 0 && (s.last() == '.' || s.last() == '!' || s.last() == '?')
}

/// `t` as a sentence: its first letter in upper case, and a full stop behind it
/// where it does not end like one.
pub open spec fn sentence(t: Seq<char>) -> Seq<char> {
    if t.len() == 0 {
        t
    } else {
        let u = text::uppercase(t[0]) + t.skip(1);
        if ends_sentence(u) {
            u
        } else {
            u.push('.')
        }
    }
}

/// `t` without its hesitations in the mode `fillers`, else `t` itself.
pub open spec fn spoken(t: Seq<char>, mode: Seq<char>) -> Seq<char> {
    if mode == "fillers"@ {
        collapsed(pattern::without_fillers(t, false))
    } else {
        t
    }
}

/// `t` without its hesitations in the mode `fillers`, without white space in front of
/// punctuation, and with `I` for an `i` that stands alone.
pub open spec fn spelled(t: Seq<char>, mode: Seq<char>) -> Seq<char> {
    pattern::raised(pattern::tightened(spoken(t, mode)))
}

/// The cleaned text: white space collapsed and, unless the mode is `none`, made
/// a sentence without space before punctuation and with `I` for a lone `i`; in
/// the mode `fillers` the hesitations go first.
pub open spec fn cleaned(s: Seq<char>, mode: Seq<char>) -> Seq<char> {
    let t = collapsed(s);
    if t.len() == 0 || mode == "none"@ {
        t
    } else {
        sentence(spelled(t, mode))
    }
}

/// What goes to the clipboard: the cleaned text, or the text itself where
/// cleaning leaves nothing.
pub open spec fn clip_of(verbatim: Seq<char>, mode: Seq<char>) -> Seq<char> {
    if cleaned(verbatim, mode).len() == 0 {
        verbatim
    } else {
        cleaned(verbatim, mode)
    }
}

/// The words of `s` with one space between each two.
pub fn collapse(s: &str) -> (r: String)
    ensures
        r@ == collapsed(s@),
{
    let c = text::chars_of(s);
    let words = text::words_of(c.as_slice());
    let space = text::chars_of(" ");
    let out = text::joined(&words, space.as_slice());
    text::string_of(out.as_slice())
}

/// `t` as a sentence: its first letter in upper case, and a full stop behind it
/// where it does not end like one.
pub fn finish_sentence(t: &str) -> (r: String)
    ensures
        r@ == sentence(t@),
{
    let c = text::chars_of(t);
    if c.len() == 0 {
        return t.to_string();
    }
    let upper = text::to_uppercase(c[0]);
    let mut out = text::chars_of(upper.as_str());
    text::extend(&mut out, text::rest(c.as_slice(), 1));
    if out.len() > 0 {
        let last = out[out.len() - 1];
        if last == '.' || last == '!' || last == '?' {
            return text::string_of(out.as_slice());
        }
    }
    out.push('.');
    text::string_of(out.as_slice())
}

/// Clean up a take for the clipboard by `mode`.
pub fn cleanup_text(s: &str, mode: &str) -> (r: String)
    ensures
        r@ == cleaned(s@, mode@),
{
    let t = collapse(s);
    if text::chars_of(t.as_str()).len() == 0 || text::str_eq(mode, "none") {
        return t;
    }
    proof {
        pattern::lemma_three_patterns();
    }
    let spoken = if text::str_eq(mode, "fillers") {
        collapse(pattern::substitute(pattern::FILLER, t.as_str(), "").as_str())
    } else {
        t
    };
    let tight = pattern::substitute(pattern::SPACE_PUNCT, spoken.as_str(), "$1");
    let spelled = pattern::substitute(pattern::STANDALONE_I, tight.as_str(), "I");
    finish_sentence(spelled.as_str())
}

/// What goes to the clipboard: the cleaned text, or the take itself where
/// cleaning leaves nothing, so that a take is never lost.
pub fn clipboard_text(verbatim: &str, mode: &str) -> (r: String)
    ensures
        r@ == clip_of(verbatim@, mode@),
{
    let clean = cleanup_text(verbatim, mode);
    if text::chars_of(clean.as_str()).len() == 0 {
        verbatim.to_string()
    } else {
        clean
    }
}

/// What the clipboard's holder does for a copy.
#[derive(Clone, Copy, PartialEq, Eq, Structural, Debug)]
pub enum CopyStep {
    /// Open a handle.
    Open,
    /// Write the text through the handle.
    Write,
    /// The text is on the clipboard.
    Done,
    /// The copy failed; a handle that failed is given up, so that the next copy
    /// begins with a fresh one.
    Failed,
}

/// The clipboard's handle, kept open between copies.
#[derive(Clone, Copy, PartialEq, Eq, Structural, Debug)]
pub struct Holder {
    /// Whether a handle is open.
    pub open: bool,
}

impl Holder {
    /// What a copy begins with.
    pub fn begin(&self) -> (r: CopyStep)
        ensures
            r == if self.open {
                CopyStep::Write
            } else {
                CopyStep::Open
            },
    {
        if self.open {
            CopyStep::Write
        } else {
            CopyStep::Open
        }
    }

    /// A handle was to be opened: whether it was.
    pub fn opened(&mut self, ok: bool) -> (r: CopyStep)
        ensures
            final(self).open == ok,
            r == if ok {
                CopyStep::Write
            } else {
                CopyStep::Failed
            },
    {
        self.open = ok;
        if ok {
            CopyStep::Write
        } else {
            CopyStep::Failed
        }
    }

    /// The text was to be written: whether it was.
    pub fn written(&mut self, ok: bool) -> (r: CopyStep)
        ensures
            final(self).open == (old(self).open && ok),
            r == if ok {
                CopyStep::Done
            } else {
                CopyStep::Failed
            },
    {
        if ok {
            CopyStep::Done
        } else {
            self.open = false;
            CopyStep::Failed
        }
    }
}

// ---- laws -------------------------------------------------------------------

/// A take that holds anything puts something on the clipboard.
pub proof fn law_a_take_is_never_lost(verbatim: Seq<char>, mode: Seq<char>)
    requires
        verbatim.len() > 0,
    ensures
        clip_of(verbatim, mode).len() > 0,
{
}

/// A mode that is not known cleans like any other but `none` and `fillers`.
pub proof fn law_unknown_mode_is_light(s: Seq<char>, mode: Seq<char>)
    requires
        mode != "none"@,
        mode != "fillers"@,
    ensures
        cleaned(s, mode) == cleaned(s, "light"@),
{
    reveal_strlit("none");
    reveal_strlit("fillers");
    reveal_strlit("light");
    assert("light"@[0] == 'l');
    assert("none"@[0] == 'n');
    assert("fillers"@[0] == 'f');
}

/// What is made a sentence ends like one.
pub proof fn law_sentences_end(t: Seq<char>)
    requires
        t.len() > 0,
    ensures
        ends_sentence(sentence(t)),
{
}

/// A text of white space alone stays empty in every mode.
pub proof fn law_nothing_stays_nothing(s: Seq<char>, mode: Seq<char>)
    requires
        text::words(s).len() == 0,
    ensures
        cleaned(s, mode).len() == 0,
{
}

/// A text of words joined by spaces: where its words are, and what its ends are.
proof fn lemma_joined(ws: Seq<Seq<char>>)
    requires
        forall|i: int| 0 <= i < ws.len() ==> text::is_word(#[trigger] ws[i]),
    ensures
        ({
            let t = text::join(ws, seq![' ']);
            &&& t.len() > 0 <==> ws.len() > 0
            &&& t.len() > 0 ==> !text::is_white(t[0]) && !text::is_white(t.last())
            &&& forall|i: int| 0 <= i < t.len() && text::is_white(#[trigger] t[i]) ==> t[i] == ' '
            &&& forall|i: int|
                0 < i < t.len() && text::is_white(#[trigger] t[i]) ==> !text::is_white(t[i - 1])
        }),
    decreases ws.len(),
{
    if ws.len() == 1 {
        assert(text::is_word(ws[0]));
        assert(!text::is_white(ws[0][0]));
        assert(!text::is_white(ws[0][ws[0].len() - 1]));
    } else if ws.len() > 1 {
        let v = ws.drop_last();
        assert forall|i: int| 0 <= i < v.len() implies text::is_word(#[trigger] v[i]) by {
            assert(text::is_word(ws[i]));
        }
        lemma_joined(v);
        let a = text::join(v, seq![' ']);
        let w = ws.last();
        let t = text::join(ws, seq![' ']);
        assert(text::is_word(ws[ws.len() - 1]));
        assert(t == a + seq![' '] + w);
        assert(t[0] == a[0]);
        assert(t.last() == w[w.len() - 1]);
        assert forall|i: int| 0 <= i < t.len() && text::is_white(#[trigger] t[i]) implies t[i]
            == ' ' by {
            if i < a.len() {
                assert(t[i] == a[i]);
            } else if i > a.len() {
                assert(t[i] == w[i - a.len() - 1]);
            }
        }
        assert forall|i: int| 0 < i < t.len() && text::is_white(#[trigger] t[i]) implies !text::is_white(
            t[i - 1],
        ) by {
            if i < a.len() {
                assert(t[i] == a[i]);
                assert(t[i - 1] == a[i - 1]);
            } else if i == a.len() {
                assert(t[i - 1] == a[a.len() - 1]);
            } else {
                assert(t[i] == w[i - a.len() - 1]);
            }
        }
    }
}

/// A collapsed text begins and ends with no white space, holds none but spaces and
/// never two of them in a row, and collapsing it again changes nothing.
pub proof fn law_collapsing_is_done_once(s: Seq<char>)
    ensures
        ({
            let t = collapsed(s);
            &&& collapsed(t) == t
            &&& text::trim(t) == t
            &&& t.len() > 0 ==> !text::is_white(t[0]) && !text::is_white(t.last())
            &&& forall|i: int| 0 <= i < t.len() && text::is_white(#[trigger] t[i]) ==> t[i] == ' '
            &&& forall|i: int|
                0 < i < t.len() && text::is_white(#[trigger] t[i]) ==> !text::is_white(t[i - 1])
        }),
{
    reveal_strlit(" ");
    assert(" "@ == seq![' ']);
    text::lemma_words_are_words(s);
    text::lemma_words_join(text::words(s));
    lemma_joined(text::words(s));
    text::lemma_trim_tight(collapsed(s));
}

/// In every mode but `none`, a cleaned text that holds anything ends like a
/// sentence.
pub proof fn law_cleaned_texts_end(s: Seq<char>, mode: Seq<char>)
    requires
        mode != "none"@,
        cleaned(s, mode).len() > 0,
    ensures
        ends_sentence(cleaned(s, mode)),
{
}

/// Made a sentence twice, a text is made one once.
pub proof fn law_sentences_are_made_once(t: Seq<char>)
    requires
        t.len() > 0,
        (t[0] as u32) < 128,
    ensures
        sentence(sentence(t)) == sentence(t),
{
    let u = text::uppercase(t[0]) + t.skip(1);
    let r = sentence(t);
    assert(u[0] == text::upper_char(t[0]));
    assert(r[0] == u[0]);
    assert(text::upper_char(r[0]) == r[0]);
    assert((r[0] as u32) < 128);
    assert(text::uppercase(r[0]) + r.skip(1) == r);
}

} // verus!
