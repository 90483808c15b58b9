//! What a clean text is, and that cleaning it again changes nothing.

use crate::clipboard;
use crate::pattern;
use crate::text;
use vstd::prelude::*;

verus! {

/// Whether `t` neither begins nor ends with white space, and holds no other than
/// single spaces.
pub open spec fn is_tidy(t: Seq<char>) -> bool {
    &&& t.len() > 0 ==> !text::is_white(t[0]) && !text::is_white(t.last())
    &&& forall|i: int| 0 <= i < t.len() && text::is_white(#[trigger] t[i]) ==> t[i] == ' '
    &&& forall|i: int|
        0 < i < t.len() && text::is_white(#[trigger] t[i]) ==> !text::is_white(t[i - 1])
}

/// Whether no mark of `s` has white space in front of it.
pub open spec fn is_tight(s: Seq<char>) -> bool {
    forall|i: int| 0 < i < s.len() && pattern::is_mark(#[trigger] s[i]) ==> !text::is_white(s[i - 1])
}

/// Whether no `i` of `s` stands alone.
pub open spec fn is_raised(s: Seq<char>) -> bool {
    forall|i: int| 0 <= i < s.len() ==> !#[trigger] pattern::stands_alone(s, i)
}

/// Whether a word of `s` is a hesitation; where `inside` holds, `s` begins inside of a
/// word.
pub open spec fn has_filler(s: Seq<char>, inside: bool) -> bool
    decreases s.len(),
{
    s.len() > 0 && ((!inside && pattern::is_hesitation(pattern::first_run(s))) || has_filler(
        s.skip(1),
        pattern::is_word_char(s[0]),
    ))
}

/// Whether `c` is one of the letters that hesitations are made of.
pub open spec fn is_drawl(c: char) -> bool {
    let l = text::lower_char(c);
    l == 'u' || l == 'm' || l == 'h' || l == 'e' || l == 'r'
}

/// Whether a text that begins with `c` can be made a sentence once and for all. It can
/// with an ASCII character; with another one where its upper case stays as it is, is
/// made of word characters exactly where `c` is one, and holds no white space, no `i`
/// and something that no hesitation holds.
pub open spec fn settles(c: char) -> bool {
    (c as u32) < 128 || {
        let u = text::uppercase(c);
        &&& u.len() > 0
        &&& text::uppercase(u[0]) == seq![u[0]]
        &&& forall|i: int|
            0 <= i < u.len() ==> !text::is_white(#[trigger] u[i]) && u[i] != 'i'
                && pattern::is_word_char(u[i]) == pattern::is_word_char(c)
        &&& exists|i: int| 0 <= i < u.len() && !is_drawl(#[trigger] u[i])
    }
}

// ---- hesitations ------------------------------------------------------------

/// A hesitation is made of its letters.
proof fn lemma_hesitations_are_drawled(w: Seq<char>)
    requires
        pattern::is_hesitation(w),
    ensures
        w.len() > 0,
        forall|i: int| 0 <= i < w.len() ==> is_drawl(#[trigger] w[i]),
{
    let u = seq!['u'];
    let er = seq!['e', 'r'];
    let hm = seq!['h', 'm'];
    assert forall|i: int| 0 <= i < w.len() implies is_drawl(#[trigger] w[i]) by {
        let l = text::lower_char(w[i]);
        if pattern::is_drawn(w, u, 'm') || pattern::is_drawn(w, u, 'h') {
            assert(i == 0 ==> u[i] == 'u');
        } else if pattern::is_drawn(w, er, 'm') {
            assert(i < 2 ==> er[i] == 'e' || er[i] == 'r');
        } else {
            assert(i < 2 ==> hm[i] == 'h' || hm[i] == 'm');
        }
    }
}

/// Inside of a word nothing goes before it ends.
proof fn lemma_run_is_kept(s: Seq<char>)
    ensures
        pattern::first_run(pattern::without_fillers(s, true)) == pattern::first_run(s),
    decreases s.len(),
{
    if s.len() > 0 {
        let y = pattern::without_fillers(s.skip(1), pattern::is_word_char(s[0]));
        let x = pattern::without_fillers(s, true);
        assert(x == seq![s[0]] + y);
        assert(x.skip(1) == y);
        if pattern::is_word_char(s[0]) {
            lemma_run_is_kept(s.skip(1));
        }
    }
}

/// No hesitation is left.
proof fn lemma_fillers_go(s: Seq<char>, inside: bool)
    ensures
        !has_filler(pattern::without_fillers(s, inside), inside),
    decreases s.len(),
{
    if s.len() > 0 {
        let run = pattern::first_run(s);
        if !inside && pattern::is_hesitation(run) {
            pattern::lemma_first_run_len(s);
            lemma_hesitations_are_drawled(run);
            let rest = s.skip(run.len() as int);
            pattern::lemma_trim_start_len(rest);
            pattern::lemma_trim_start_len(rest.skip(1));
            lemma_fillers_go(pattern::behind(rest), false);
        } else {
            let w = pattern::is_word_char(s[0]);
            let y = pattern::without_fillers(s.skip(1), w);
            let x = pattern::without_fillers(s, inside);
            assert(x == seq![s[0]] + y);
            assert(x.skip(1) == y);
            lemma_fillers_go(s.skip(1), w);
            if w {
                lemma_run_is_kept(s.skip(1));
                assert(pattern::first_run(x) == run);
            } else if !inside && pattern::is_hesitation(pattern::first_run(x)) {
                lemma_hesitations_are_drawled(pattern::first_run(x));
            }
        }
    }
}

/// Where there is no hesitation, nothing goes.
proof fn lemma_no_filler_stays(s: Seq<char>, inside: bool)
    requires
        !has_filler(s, inside),
    ensures
        pattern::without_fillers(s, inside) == s,
    decreases s.len(),
{
    if s.len() > 0 {
        lemma_no_filler_stays(s.skip(1), pattern::is_word_char(s[0]));
        assert(seq![s[0]] + s.skip(1) == s);
    }
}

/// A run ends in front of what is no word character.
proof fn lemma_run_ends(a: Seq<char>, c: char, b: Seq<char>)
    requires
        !pattern::is_word_char(c),
    ensures
        pattern::first_run(a.push(c) + b) == pattern::first_run(a),
    decreases a.len(),
{
    let s = a.push(c) + b;
    if a.len() > 0 {
        assert(s.skip(1) == a.skip(1).push(c) + b);
        lemma_run_ends(a.skip(1), c, b);
    }
}

/// The words round what is no word character are those on either side.
proof fn lemma_filler_between(a: Seq<char>, c: char, b: Seq<char>, inside: bool)
    requires
        !pattern::is_word_char(c),
    ensures
        has_filler(a.push(c) + b, inside) == (has_filler(a, inside) || has_filler(b, false)),
    decreases a.len(),
{
    let s = a.push(c) + b;
    lemma_run_ends(a, c, b);
    if a.len() > 0 {
        assert(s.skip(1) == a.skip(1).push(c) + b);
        lemma_filler_between(a.skip(1), c, b, pattern::is_word_char(a[0]));
    } else {
        assert(s.skip(1) == b);
        if pattern::is_hesitation(pattern::first_run(s)) {
            lemma_hesitations_are_drawled(pattern::first_run(s));
        }
    }
}

/// Whether two texts differ in the case of ASCII letters alone.
spec fn same_letters(a: Seq<char>, b: Seq<char>) -> bool {
    &&& a.len() == b.len()
    &&& forall|i: int|
        0 <= i < a.len() ==> text::lower_char(#[trigger] a[i]) == text::lower_char(b[i])
            && pattern::is_word_char(a[i]) == pattern::is_word_char(b[i])
}

/// Letter case does not make a run longer.
proof fn lemma_same_runs(a: Seq<char>, b: Seq<char>)
    requires
        same_letters(a, b),
    ensures
        same_letters(pattern::first_run(a), pattern::first_run(b)),
    decreases a.len(),
{
    if a.len() > 0 {
        assert(pattern::is_word_char(a[0]) == pattern::is_word_char(b[0]));
        assert forall|i: int| 0 <= i < a.len() - 1 implies text::lower_char(
            #[trigger] a.skip(1)[i],
        ) == text::lower_char(b.skip(1)[i]) && pattern::is_word_char(a.skip(1)[i])
            == pattern::is_word_char(b.skip(1)[i]) by {
            assert(a.skip(1)[i] == a[i + 1] && b.skip(1)[i] == b[i + 1]);
        }
        lemma_same_runs(a.skip(1), b.skip(1));
        if pattern::is_word_char(a[0]) {
            let x = pattern::first_run(a);
            let y = pattern::first_run(b);
            assert forall|i: int| 0 <= i < x.len() implies text::lower_char(#[trigger] x[i])
                == text::lower_char(y[i]) && pattern::is_word_char(x[i]) == pattern::is_word_char(
                y[i],
            ) by {
                if i > 0 {
                    assert(x[i] == pattern::first_run(a.skip(1))[i - 1]);
                    assert(y[i] == pattern::first_run(b.skip(1))[i - 1]);
                }
            }
        }
    }
}

/// Letter case does not make a hesitation.
proof fn lemma_same_drawl(a: Seq<char>, b: Seq<char>, head: Seq<char>, c: char)
    requires
        same_letters(a, b),
        pattern::is_drawn(a, head, c),
    ensures
        pattern::is_drawn(b, head, c),
{
    assert forall|i: int| 0 <= i < b.len() implies text::lower_char(#[trigger] b[i]) == if i
        < head.len() {
        head[i]
    } else {
        c
    } by {
        assert(text::lower_char(a[i]) == text::lower_char(b[i]));
    }
}

/// Letter case does not make a hesitation.
proof fn lemma_same_hesitation(a: Seq<char>, b: Seq<char>)
    requires
        same_letters(a, b),
        pattern::is_hesitation(a),
    ensures
        pattern::is_hesitation(b),
{
    if pattern::is_drawn(a, seq!['u'], 'm') {
        lemma_same_drawl(a, b, seq!['u'], 'm');
    } else if pattern::is_drawn(a, seq!['u'], 'h') {
        lemma_same_drawl(a, b, seq!['u'], 'h');
    } else if pattern::is_drawn(a, seq!['e', 'r'], 'm') {
        lemma_same_drawl(a, b, seq!['e', 'r'], 'm');
    } else {
        lemma_same_drawl(a, b, seq!['h', 'm'], 'm');
    }
}

/// Letter case does not make a hesitation anywhere.
proof fn lemma_same_fillers(a: Seq<char>, b: Seq<char>, inside: bool)
    requires
        same_letters(a, b),
        has_filler(a, inside),
    ensures
        has_filler(b, inside),
    decreases a.len(),
{
    lemma_same_runs(a, b);
    if !inside && pattern::is_hesitation(pattern::first_run(a)) {
        lemma_same_hesitation(pattern::first_run(a), pattern::first_run(b));
    } else {
        assert(pattern::is_word_char(a[0]) == pattern::is_word_char(b[0]));
        assert forall|i: int| 0 <= i < a.len() - 1 implies text::lower_char(
            #[trigger] a.skip(1)[i],
        ) == text::lower_char(b.skip(1)[i]) && pattern::is_word_char(a.skip(1)[i])
            == pattern::is_word_char(b.skip(1)[i]) by {
            assert(a.skip(1)[i] == a[i + 1] && b.skip(1)[i] == b[i + 1]);
        }
        lemma_same_fillers(a.skip(1), b.skip(1), pattern::is_word_char(a[0]));
    }
}

// ---- white space ------------------------------------------------------------

/// White space is made of no word characters.
proof fn lemma_white_is_no_word(c: char)
    requires
        text::is_white(c),
    ensures
        !pattern::is_word_char(c),
{
}

/// Where the last piece between white space begins: behind the last white space, or
/// at the front.
proof fn lemma_last_white(s: Seq<char>) -> (q: int)
    ensures
        -1 <= q < s.len(),
        q >= 0 ==> text::is_white(s[q]),
        text::is_solid(s.skip(q + 1)),
    decreases s.len(),
{
    if s.len() == 0 {
        -1
    } else if text::is_white(s.last()) {
        assert(s.skip(s.len() as int).len() == 0);
        s.len() - 1
    } else {
        let q = lemma_last_white(s.drop_last());
        assert forall|i: int| 0 <= i < s.skip(q + 1).len() implies !text::is_white(
            #[trigger] s.skip(q + 1)[i],
        ) by {
            if i < s.drop_last().skip(q + 1).len() {
                assert(!text::is_white(s.drop_last().skip(q + 1)[i]));
            }
        }
        q
    }
}

/// The pieces of a text whose last white space is at `q`.
proof fn lemma_pieces(s: Seq<char>, q: int)
    requires
        -1 <= q < s.len(),
        q >= 0 ==> text::is_white(s[q]),
        text::is_solid(s.skip(q + 1)),
    ensures
        q < 0 ==> text::split_white(s) == seq![s],
        q >= 0 ==> text::split_white(s) == text::split_white(s.take(q)).push(s.skip(q + 1)),
        q >= 0 ==> s == s.take(q).push(s[q]) + s.skip(q + 1),
{
    let e = Seq::<char>::empty();
    let b = s.skip(q + 1);
    if q < 0 {
        assert(b == s);
        text::lemma_split_white_append(e, s);
        assert(text::split_white(e) == seq![e]);
        assert(text::split_white(e).drop_last() == Seq::<Seq<char>>::empty());
        assert(e + s == s);
        assert(text::split_white(s) == seq![s]);
    } else {
        let a = s.take(q);
        let aw = a.push(s[q]);
        assert(s == aw + b);
        text::lemma_split_white_append(aw, b);
        assert(aw.drop_last() == a);
        assert(text::split_white(aw) == text::split_white(a).push(e));
        assert(text::split_white(aw).drop_last() == text::split_white(a));
        assert(e + b == b);
    }
}

/// A hesitation in a piece between white space is one of the text.
proof fn lemma_piece_fillers(s: Seq<char>)
    ensures
        forall|i: int|
            0 <= i < text::split_white(s).len() && has_filler(
                #[trigger] text::split_white(s)[i],
                false,
            ) ==> has_filler(s, false),
    decreases s.len(),
{
    let q = lemma_last_white(s);
    lemma_pieces(s, q);
    if q >= 0 {
        let a = s.take(q);
        let b = s.skip(q + 1);
        lemma_white_is_no_word(s[q]);
        lemma_piece_fillers(a);
        lemma_filler_between(a, s[q], b, false);
        assert forall|i: int|
            0 <= i < text::split_white(s).len() && has_filler(
                #[trigger] text::split_white(s)[i],
                false,
            ) implies has_filler(s, false) by {
            if i < text::split_white(a).len() {
                assert(text::split_white(s)[i] == text::split_white(a)[i]);
            }
        }
    }
}

/// A hesitation in joined words is one in a word.
proof fn lemma_joined_fillers(ws: Seq<Seq<char>>)
    requires
        has_filler(text::join(ws, seq![' ']), false),
    ensures
        exists|i: int| 0 <= i < ws.len() && has_filler(#[trigger] ws[i], false),
    decreases ws.len(),
{
    if ws.len() == 1 {
        assert(has_filler(ws[0], false));
    } else if ws.len() > 1 {
        let front = ws.drop_last();
        let a = text::join(front, seq![' ']);
        assert(text::join(ws, seq![' ']) == a.push(' ') + ws.last());
        lemma_filler_between(a, ' ', ws.last(), false);
        if has_filler(ws.last(), false) {
            assert(has_filler(ws[ws.len() - 1], false));
        } else {
            lemma_joined_fillers(front);
            let i = choose|i: int| 0 <= i < front.len() && has_filler(#[trigger] front[i], false);
            assert(has_filler(ws[i], false));
        }
    }
}

/// Collapsing makes no hesitation.
proof fn lemma_collapsing_makes_no_filler(s: Seq<char>)
    requires
        !has_filler(s, false),
    ensures
        !has_filler(clipboard::collapsed(s), false),
{
    reveal_strlit(" ");
    assert(" "@ == seq![' ']);
    let ws = text::words(s);
    if has_filler(text::join(ws, seq![' ']), false) {
        lemma_joined_fillers(ws);
        lemma_piece_fillers(s);
        let f = |w: Seq<char>| !has_filler(w, false);
        assert forall|i: int| 0 <= i < text::split_white(s).len() implies f(
            #[trigger] text::split_white(s)[i],
        ) by {}
        text::lemma_non_empty_keeps(text::split_white(s), f);
        let i = choose|i: int| 0 <= i < ws.len() && has_filler(#[trigger] ws[i], false);
        assert(f(ws[i]));
    }
}

/// A tidy text is its words with a space between each two.
pub proof fn lemma_tidy_stays(t: Seq<char>)
    requires
        is_tidy(t),
    ensures
        clipboard::collapsed(t) == t,
    decreases t.len(),
{
    reveal_strlit(" ");
    assert(" "@ == seq![' ']);
    if t.len() == 0 {
        assert(t == Seq::<char>::empty());
        assert(text::join(Seq::<Seq<char>>::empty(), seq![' ']) == t);
        text::lemma_words_join(Seq::empty());
    } else {
        let q = lemma_last_white(t);
        let b = t.skip(q + 1);
        if q < 0 {
            assert(b == t);
            text::lemma_words_push(Seq::empty(), t);
            assert(text::join(seq![t], seq![' ']) == t);
        } else {
            let a = t.take(q);
            assert(q > 0 && q < t.len() - 1);
            assert(a.last() == t[q - 1]);
            assert forall|i: int| 0 <= i < a.len() && text::is_white(#[trigger] a[i]) implies a[i]
                == ' ' by {
                assert(a[i] == t[i]);
            }
            assert forall|i: int| 0 < i < a.len() && text::is_white(#[trigger] a[i]) implies
                !text::is_white(a[i - 1]) by {
                assert(a[i] == t[i]);
            }
            assert(a[0] == t[0]);
            lemma_tidy_stays(a);
            assert(t == a + seq![' '] + b);
            text::lemma_words_push(a, b);
            let ws = text::words(a);
            assert(ws.push(b).drop_last() == ws);
            assert(ws.len() > 0);
        }
    }
}

// ---- marks ------------------------------------------------------------------

/// What begins with a mark once it is tightened led to one.
proof fn lemma_tight_front(s: Seq<char>)
    ensures
        ({
            let y = pattern::tightened(s);
            &&& y.len() > 0 && pattern::is_mark(y[0]) <==> pattern::leads_to_mark(s)
            &&& y.len() > 0 ==> s.len() > 0
            &&& y.len() > 0 && y[0] != s[0] ==> text::is_white(s[0]) && pattern::is_mark(y[0])
            &&& y.len() == 0 ==> s.len() == 0
        }),
    decreases s.len(),
{
    if s.len() > 0 && text::is_white(s[0]) && pattern::leads_to_mark(s) {
        assert(!pattern::is_mark(s[0]));
        assert(pattern::leads_to_mark(s.skip(1)));
        lemma_tight_front(s.skip(1));
    }
}

/// A tightened text is tight.
proof fn lemma_tightened_is_tight(s: Seq<char>)
    ensures
        is_tight(pattern::tightened(s)),
    decreases s.len(),
{
    if s.len() > 0 {
        let t = s.skip(1);
        let y = pattern::tightened(t);
        lemma_tightened_is_tight(t);
        lemma_tight_front(t);
        if !(text::is_white(s[0]) && pattern::leads_to_mark(s)) {
            let x = seq![s[0]] + y;
            assert forall|i: int| 0 < i < x.len() && pattern::is_mark(#[trigger] x[i]) implies
                !text::is_white(x[i - 1]) by {
                assert(x[i] == y[i - 1]);
                if i > 1 {
                    assert(x[i - 1] == y[i - 2]);
                }
            }
        }
    }
}

/// In a tight text no white space leads to a mark.
proof fn lemma_tight_leads_nowhere(s: Seq<char>)
    requires
        is_tight(s),
        s.len() > 0,
        text::is_white(s[0]),
    ensures
        !pattern::leads_to_mark(s),
    decreases s.len(),
{
    let t = s.skip(1);
    if t.len() > 0 {
        assert(t[0] == s[1]);
        if text::is_white(t[0]) {
            assert(is_tight(t)) by {
                assert forall|i: int| 0 < i < t.len() && pattern::is_mark(#[trigger] t[i]) implies
                    !text::is_white(t[i - 1]) by {
                    assert(t[i] == s[i + 1]);
                }
            }
            lemma_tight_leads_nowhere(t);
        }
    }
    assert(!pattern::leads_to_mark(t));
    assert(!pattern::is_mark(s[0]));
}

/// A tight text stays as it is.
proof fn lemma_tight_stays(s: Seq<char>)
    requires
        is_tight(s),
    ensures
        pattern::tightened(s) == s,
    decreases s.len(),
{
    if s.len() > 0 {
        let t = s.skip(1);
        assert forall|i: int| 0 < i < t.len() && pattern::is_mark(#[trigger] t[i]) implies
            !text::is_white(t[i - 1]) by {
            assert(t[i] == s[i + 1]);
        }
        lemma_tight_stays(t);
        if text::is_white(s[0]) {
            lemma_tight_leads_nowhere(s);
        }
        assert(seq![s[0]] + t == s);
    }
}

/// Whether `s` does not end with white space, and holds no other than single spaces.
spec fn is_tidy_behind(s: Seq<char>) -> bool {
    &&& s.len() > 0 ==> !text::is_white(s.last())
    &&& forall|i: int| 0 <= i < s.len() && text::is_white(#[trigger] s[i]) ==> s[i] == ' '
    &&& forall|i: int|
        0 < i < s.len() && text::is_white(#[trigger] s[i]) ==> !text::is_white(s[i - 1])
}

/// Tightening keeps a text tidy.
proof fn lemma_tightened_is_tidy(s: Seq<char>)
    requires
        is_tidy_behind(s),
    ensures
        is_tidy_behind(pattern::tightened(s)),
        s.len() > 0 && !text::is_white(s[0]) ==> !text::is_white(pattern::tightened(s)[0]),
    decreases s.len(),
{
    if s.len() > 0 {
        let t = s.skip(1);
        assert forall|i: int| 0 <= i < t.len() && text::is_white(#[trigger] t[i]) implies t[i]
            == ' ' by {
            assert(t[i] == s[i + 1]);
        }
        assert forall|i: int| 0 < i < t.len() && text::is_white(#[trigger] t[i]) implies
            !text::is_white(t[i - 1]) by {
            assert(t[i] == s[i + 1]);
        }
        assert(t.len() > 0 ==> t.last() == s.last());
        lemma_tightened_is_tidy(t);
        lemma_tight_front(t);
        let y = pattern::tightened(t);
        if !(text::is_white(s[0]) && pattern::leads_to_mark(s)) {
            let x = seq![s[0]] + y;
            assert(y.len() > 0 ==> x.last() == y.last());
            assert(y.len() == 0 ==> s.last() == s[0]);
            assert forall|i: int| 0 <= i < x.len() && text::is_white(#[trigger] x[i]) implies x[i]
                == ' ' by {
                if i > 0 {
                    assert(x[i] == y[i - 1]);
                }
            }
            assert forall|i: int| 0 < i < x.len() && text::is_white(#[trigger] x[i]) implies
                !text::is_white(x[i - 1]) by {
                assert(x[i] == y[i - 1]);
                if i > 1 {
                    assert(x[i - 1] == y[i - 2]);
                } else {
                    assert(y[0] == t[0]);
                    assert(t[0] == s[1]);
                }
            }
        }
    }
}

/// Tightening changes no run.
proof fn lemma_tight_runs(s: Seq<char>)
    ensures
        pattern::first_run(pattern::tightened(s)) == pattern::first_run(s),
    decreases s.len(),
{
    if s.len() > 0 {
        lemma_tight_front(s);
        if pattern::is_word_char(s[0]) {
            let y = pattern::tightened(s.skip(1));
            assert((seq![s[0]] + y).skip(1) == y);
            lemma_tight_runs(s.skip(1));
        }
    }
}

/// Tightening makes no hesitation.
proof fn lemma_tight_fillers(s: Seq<char>, inside: bool)
    ensures
        has_filler(pattern::tightened(s), inside) == has_filler(s, inside),
    decreases s.len(),
{
    if s.len() > 0 {
        let t = s.skip(1);
        let w = pattern::is_word_char(s[0]);
        lemma_tight_runs(s);
        lemma_tight_fillers(t, w);
        lemma_tight_fillers(t, inside);
        let y = pattern::tightened(t);
        if text::is_white(s[0]) && pattern::leads_to_mark(s) {
            assert(!pattern::is_mark(s[0]));
            assert(pattern::leads_to_mark(t));
            assert(!pattern::is_word_char(t[0]));
            if pattern::is_hesitation(pattern::first_run(s)) {
                lemma_hesitations_are_drawled(pattern::first_run(s));
            }
            if pattern::is_hesitation(pattern::first_run(t)) {
                lemma_hesitations_are_drawled(pattern::first_run(t));
            }
        } else {
            assert((seq![s[0]] + y).skip(1) == y);
        }
    }
}

// ---- the letter i -----------------------------------------------------------

/// Raising keeps everything but an `i` that stands alone, and leaves none.
proof fn lemma_raised(s: Seq<char>)
    ensures
        ({
            let y = pattern::raised(s);
            &&& is_raised(y)
            &&& same_letters(y, s)
            &&& is_tidy(s) ==> is_tidy(y)
            &&& is_tight(s) ==> is_tight(y)
        }),
{
    let y = pattern::raised(s);
    assert forall|i: int| 0 <= i < s.len() implies text::lower_char(#[trigger] y[i])
        == text::lower_char(s[i]) && pattern::is_word_char(y[i]) == pattern::is_word_char(s[i])
        && text::is_white(y[i]) == text::is_white(s[i]) && pattern::is_mark(y[i])
        == pattern::is_mark(s[i]) && (text::is_white(s[i]) ==> y[i] == s[i]) by {
        if pattern::stands_alone(s, i) {
            assert(y[i] == 'I' && s[i] == 'i');
        } else {
            assert(y[i] == s[i]);
        }
    }
    assert forall|i: int| 0 <= i < y.len() implies !#[trigger] pattern::stands_alone(y, i) by {
        if pattern::stands_alone(y, i) {
            assert(s[i] == 'i');
            assert(pattern::word_at(s, i - 1) ==> pattern::is_word_char(y[i - 1]));
            assert(pattern::word_at(s, i + 1) ==> pattern::is_word_char(y[i + 1]));
        }
    }
    if is_tidy(s) && s.len() > 0 {
        assert(text::is_white(y[0]) == text::is_white(s[0]));
        assert(text::is_white(y[y.len() - 1]) == text::is_white(s[s.len() - 1]));
        assert forall|i: int| 0 < i < y.len() && text::is_white(#[trigger] y[i]) implies
            !text::is_white(y[i - 1]) by {
            assert(text::is_white(s[i]));
        }
    }
    if is_tight(s) {
        assert forall|i: int| 0 < i < y.len() && pattern::is_mark(#[trigger] y[i]) implies
            !text::is_white(y[i - 1]) by {
            assert(pattern::is_mark(s[i]));
        }
    }
}

/// Where no `i` stands alone, nothing is raised.
proof fn lemma_raised_stays(s: Seq<char>)
    requires
        is_raised(s),
    ensures
        pattern::raised(s) == s,
{
    assert forall|i: int| 0 <= i < s.len() implies pattern::raised(s)[i] == s[i] by {
        assert(!pattern::stands_alone(s, i));
    }
}

// ---- sentences --------------------------------------------------------------

/// A word that holds what no hesitation holds is none, and what follows its front
/// follows inside of it.
proof fn lemma_front_is_no_filler(u: Seq<char>, b: Seq<char>, inside: bool)
    requires
        u.len() > 0,
        forall|i: int| 0 <= i < u.len() ==> pattern::is_word_char(#[trigger] u[i]),
        inside || exists|i: int| 0 <= i < u.len() && !is_drawl(#[trigger] u[i]),
        !has_filler(b, true),
    ensures
        !has_filler(u + b, inside),
    decreases u.len(),
{
    let s = u + b;
    let v = u.skip(1);
    assert(s.skip(1) == v + b);
    if !inside {
        lemma_run_of_front(u, b);
        if pattern::is_hesitation(pattern::first_run(s)) {
            lemma_hesitations_are_drawled(pattern::first_run(s));
            let i = choose|i: int| 0 <= i < u.len() && !is_drawl(#[trigger] u[i]);
            assert(pattern::first_run(s)[i] == u[i]);
        }
    }
    if v.len() > 0 {
        assert forall|i: int| 0 <= i < v.len() implies pattern::is_word_char(#[trigger] v[i]) by {
            assert(v[i] == u[i + 1]);
        }
        lemma_front_is_no_filler(v, b, true);
    } else {
        assert(v + b == b);
    }
    assert(pattern::is_word_char(s[0])) by {
        assert(s[0] == u[0]);
    }
}

/// The run of a text begins with the word characters at its front.
proof fn lemma_run_of_front(u: Seq<char>, b: Seq<char>)
    requires
        forall|i: int| 0 <= i < u.len() ==> pattern::is_word_char(#[trigger] u[i]),
    ensures
        pattern::first_run(u + b) == u + pattern::first_run(b),
    decreases u.len(),
{
    if u.len() > 0 {
        let v = u.skip(1);
        assert forall|i: int| 0 <= i < v.len() implies pattern::is_word_char(#[trigger] v[i]) by {
            assert(v[i] == u[i + 1]);
        }
        assert((u + b).skip(1) == v + b);
        lemma_run_of_front(v, b);
        assert((u + b)[0] == u[0] && pattern::is_word_char(u[0]));
        assert(seq![u[0]] + (v + pattern::first_run(b)) == u + pattern::first_run(b));
    } else {
        assert(u + b == b);
        assert(u + pattern::first_run(b) == pattern::first_run(b));
    }
}

/// What is no word character at the front makes no hesitation.
proof fn lemma_blank_front_is_no_filler(u: Seq<char>, b: Seq<char>)
    requires
        forall|i: int| 0 <= i < u.len() ==> !pattern::is_word_char(#[trigger] u[i]),
        !has_filler(b, false),
    ensures
        !has_filler(u + b, false),
    decreases u.len(),
{
    if u.len() > 0 {
        let v = u.skip(1);
        assert forall|i: int| 0 <= i < v.len() implies !pattern::is_word_char(#[trigger] v[i]) by {
            assert(v[i] == u[i + 1]);
        }
        lemma_blank_front_is_no_filler(v, b);
        let e = Seq::<char>::empty();
        assert(!pattern::is_word_char(u[0]));
        lemma_filler_between(e, u[0], v + b, false);
        assert(e.push(u[0]) + (v + b) == u + b);
    } else {
        assert(u + b == b);
    }
}

/// The upper case of a first letter makes no hesitation.
proof fn lemma_upper_front_is_no_filler(t: Seq<char>)
    requires
        t.len() > 0,
        settles(t[0]),
        !has_filler(t, false),
    ensures
        !has_filler(text::uppercase(t[0]) + t.skip(1), false),
{
    let c = t[0];
    let u = text::uppercase(c);
    let x = u + t.skip(1);
    if (c as u32) < 128 {
        assert(u == seq![text::upper_char(c)]);
        assert forall|i: int| 0 <= i < x.len() implies text::lower_char(#[trigger] x[i])
            == text::lower_char(t[i]) && pattern::is_word_char(x[i]) == pattern::is_word_char(
            t[i],
        ) by {
            if i == 0 {
                assert(x[0] == text::upper_char(c));
            } else {
                assert(x[i] == t[i]);
            }
        }
        assert(same_letters(x, t));
        if has_filler(x, false) {
            lemma_same_fillers(x, t, false);
        }
    } else if pattern::is_word_char(c) {
        lemma_front_is_no_filler(u, t.skip(1), false);
    } else {
        lemma_blank_front_is_no_filler(u, t.skip(1));
    }
}

/// A clean text with its first letter in upper case is clean.
proof fn lemma_upper_front_is_clean(t: Seq<char>)
    requires
        t.len() > 0,
        settles(t[0]),
        is_tidy(t),
        is_tight(t),
        is_raised(t),
    ensures
        ({
            let x = text::uppercase(t[0]) + t.skip(1);
            &&& x.len() > 0
            &&& text::uppercase(x[0]) == seq![x[0]]
            &&& is_tidy(x)
            &&& is_tight(x)
            &&& is_raised(x)
        }),
{
    let c = t[0];
    let u = text::uppercase(c);
    let x = u + t.skip(1);
    let d = u.len() - 1;
    if (c as u32) < 128 {
        assert(u == seq![text::upper_char(c)]);
    }
    assert(u.len() > 0);
    assert forall|i: int| 0 <= i < u.len() implies !text::is_white(#[trigger] u[i]) && u[i] != 'i'
        && pattern::is_word_char(u[i]) == pattern::is_word_char(c) by {}
    assert(x[0] == u[0]);
    assert forall|i: int| u.len() <= i < x.len() implies #[trigger] x[i] == t[i - d] by {}
    assert forall|i: int| 0 <= i < u.len() implies #[trigger] x[i] == u[i] by {}
    assert(text::uppercase(x[0]) == seq![x[0]]);
    assert(t.len() > 1 ==> x.last() == t.last());
    assert(t.len() == 1 ==> x.last() == u.last());
    assert(!text::is_white(x.last()));
    assert forall|i: int| 0 <= i < x.len() && text::is_white(#[trigger] x[i]) implies x[i] == ' ' by {
        assert(i >= u.len());
        assert(x[i] == t[i - d]);
    }
    assert forall|i: int| 0 < i < x.len() && text::is_white(#[trigger] x[i]) implies
        !text::is_white(x[i - 1]) by {
        assert(i >= u.len());
        assert(x[i] == t[i - d]);
        if i - 1 >= u.len() {
            assert(x[i - 1] == t[i - 1 - d]);
        } else {
            assert(x[i - 1] == u[i - 1]);
        }
    }
    assert forall|i: int| 0 < i < x.len() && pattern::is_mark(#[trigger] x[i]) implies
        !text::is_white(x[i - 1]) by {
        if i - 1 >= u.len() {
            assert(x[i] == t[i - d]);
            assert(x[i - 1] == t[i - 1 - d]);
        } else {
            assert(x[i - 1] == u[i - 1]);
        }
    }
    assert forall|i: int| 0 <= i < x.len() implies !#[trigger] pattern::stands_alone(x, i) by {
        if i < u.len() {
            assert(x[i] == u[i]);
        } else {
            assert(x[i] == t[i - d]);
            assert(!pattern::stands_alone(t, i - d));
            if pattern::word_at(t, i - d - 1) {
                if i - 1 >= u.len() {
                    assert(x[i - 1] == t[i - 1 - d]);
                } else {
                    assert(x[i - 1] == u[i - 1]);
                }
                assert(pattern::word_at(x, i - 1));
            }
            if pattern::word_at(t, i - d + 1) {
                assert(x[i + 1] == t[i + 1 - d]);
                assert(pattern::word_at(x, i + 1));
            }
        }
    }
}

/// A clean text with a full stop behind it is clean.
proof fn lemma_stopped_is_clean(x: Seq<char>)
    requires
        x.len() > 0,
        is_tidy(x),
        is_tight(x),
        is_raised(x),
    ensures
        is_tidy(x.push('.')),
        is_tight(x.push('.')),
        is_raised(x.push('.')),
        has_filler(x.push('.'), false) == has_filler(x, false),
{
    let y = x.push('.');
    assert(!pattern::is_word_char('.'));
    let e = Seq::<char>::empty();
    lemma_filler_between(x, '.', e, false);
    assert(y + e == y);
    assert(!text::is_white(y.last()));
    assert forall|i: int| 0 <= i < y.len() && text::is_white(#[trigger] y[i]) implies y[i] == ' ' by {
        assert(y[i] == x[i]);
    }
    assert forall|i: int| 0 < i < y.len() && text::is_white(#[trigger] y[i]) implies !text::is_white(
        y[i - 1],
    ) by {
        assert(y[i] == x[i]);
    }
    assert forall|i: int| 0 < i < y.len() && pattern::is_mark(#[trigger] y[i]) implies
        !text::is_white(y[i - 1]) by {
        if i < x.len() {
            assert(y[i] == x[i]);
        } else {
            assert(y[i - 1] == x.last());
        }
    }
    assert forall|i: int| 0 <= i < y.len() implies !#[trigger] pattern::stands_alone(y, i) by {
        if i < x.len() {
            assert(!pattern::stands_alone(x, i));
            assert(pattern::word_at(x, i - 1) ==> pattern::word_at(y, i - 1));
            assert(pattern::word_at(x, i + 1) ==> pattern::word_at(y, i + 1));
        }
    }
}

// ---- laws -------------------------------------------------------------------

/// Cleaning twice is cleaning once, in every mode. What is left neither begins nor
/// ends with white space and has no doubled one. Unless the mode is `none`, it ends
/// like a sentence, has no white space in front of a mark and no `i` that stands
/// alone; in the mode `fillers` it has no hesitation either. The text begins with a
/// character that settles once the rest is done, as every ASCII one does.
pub proof fn law_cleaning_is_done_once(s: Seq<char>, mode: Seq<char>)
    requires
        ({
            let t = clipboard::spelled(clipboard::collapsed(s), mode);
            mode != "none"@ && t.len() > 0 ==> settles(t[0])
        }),
    ensures
        ({
            let r = clipboard::cleaned(s, mode);
            &&& clipboard::cleaned(r, mode) == r
            &&& is_tidy(r)
            &&& mode != "none"@ && r.len() > 0 ==> clipboard::ends_sentence(r) && is_tight(r)
                && is_raised(r)
            &&& mode == "fillers"@ ==> !has_filler(r, false)
        }),
{
    reveal_strlit("none");
    reveal_strlit("fillers");
    assert("none"@[0] == 'n' && "fillers"@[0] == 'f');
    clipboard::law_collapsing_is_done_once(s);
    let t0 = clipboard::collapsed(s);
    if t0.len() > 0 && mode != "none"@ {
        let t1 = clipboard::spoken(t0, mode);
        if mode == "fillers"@ {
            let w = pattern::without_fillers(t0, false);
            lemma_fillers_go(t0, false);
            lemma_collapsing_makes_no_filler(w);
            clipboard::law_collapsing_is_done_once(w);
        }
        assert(is_tidy(t1));
        let t2 = pattern::tightened(t1);
        lemma_tightened_is_tidy(t1);
        lemma_tightened_is_tight(t1);
        lemma_tight_front(t1);
        lemma_tight_fillers(t1, false);
        assert(is_tidy(t2));
        let t3 = pattern::raised(t2);
        lemma_raised(t2);
        if mode == "fillers"@ && has_filler(t3, false) {
            lemma_same_fillers(t3, t2, false);
        }
        if t3.len() > 0 {
            lemma_upper_front_is_clean(t3);
            let x = text::uppercase(t3[0]) + t3.skip(1);
            if mode == "fillers"@ {
                lemma_upper_front_is_no_filler(t3);
            }
            lemma_stopped_is_clean(x);
            let r = clipboard::sentence(t3);
            assert(r == clipboard::cleaned(s, mode));
            assert(r[0] == x[0]);
            lemma_tidy_stays(r);
            lemma_tight_stays(r);
            lemma_raised_stays(r);
            if mode == "fillers"@ {
                lemma_no_filler_stays(r, false);
            }
            assert(clipboard::spelled(r, mode) == r);
            assert(text::uppercase(r[0]) + r.skip(1) == r);
        } else {
            lemma_tidy_stays(t3);
        }
    } else {
        lemma_tidy_stays(t0);
    }
}

// ---- words apart and together -----------------------------------------------

/// The pieces on both sides of white space are all the pieces.
proof fn lemma_pieces_between(a: Seq<char>, w: char, b: Seq<char>)
    requires
        text::is_white(w),
    ensures
        text::split_white(a.push(w) + b) == text::split_white(a) + text::split_white(b),
    decreases b.len(),
{
    let s = a.push(w) + b;
    let x = text::split_white(a);
    let y = text::split_white(b);
    text::lemma_split_white_some(b);
    if b.len() == 0 {
        assert(s == a.push(w));
        assert(s.drop_last() == a);
        assert(b == Seq::<char>::empty());
        assert(x.push(Seq::<char>::empty()) == x + seq![b]);
    } else {
        let v = b.drop_last();
        lemma_pieces_between(a, w, v);
        text::lemma_split_white_some(v);
        assert(s.drop_last() == a.push(w) + v);
        assert(s.last() == b.last());
        let z = text::split_white(v);
        assert((x + z).last() == z.last());
        if text::is_white(b.last()) {
            assert((x + z).push(Seq::<char>::empty()) == x + z.push(Seq::<char>::empty()));
        } else {
            assert((x + z).drop_last().push(z.last().push(b.last())) == x + z.drop_last().push(
                z.last().push(b.last()),
            ));
        }
    }
}

/// The words on both sides of white space are all the words.
pub proof fn lemma_words_between(a: Seq<char>, w: char, b: Seq<char>)
    requires
        text::is_white(w),
    ensures
        text::words(a.push(w) + b) == text::words(a) + text::words(b),
{
    lemma_pieces_between(a, w, b);
    Seq::filter_distributes_over_add(
        text::split_white(a),
        text::split_white(b),
        |p: Seq<char>| p.len() > 0,
    );
}

/// Words that are joined in two parts.
proof fn lemma_join_parts(x: Seq<Seq<char>>, y: Seq<Seq<char>>)
    requires
        x.len() > 0,
        y.len() > 0,
    ensures
        text::join(x + y, seq![' ']) == text::join(x, seq![' ']).push(' ') + text::join(
            y,
            seq![' '],
        ),
    decreases y.len(),
{
    let sep = seq![' '];
    assert((x + y).last() == y.last());
    assert((x + y).drop_last() == x + y.drop_last());
    if y.len() == 1 {
        assert(y.drop_last() == Seq::<Seq<char>>::empty());
        assert(x + y.drop_last() == x);
        assert(text::join(x, sep) + sep + y[0] == text::join(x, sep).push(' ') + y[0]);
    } else {
        lemma_join_parts(x, y.drop_last());
        assert(text::join(x, sep).push(' ') + text::join(y.drop_last(), sep) + sep + y.last()
            == text::join(x, sep).push(' ') + (text::join(y.drop_last(), sep) + sep + y.last()));
    }
}

/// A text and one behind white space, collapsed.
pub proof fn lemma_collapsed_between(a: Seq<char>, w: char, b: Seq<char>)
    requires
        text::is_white(w),
    ensures
        ({
            let x = clipboard::collapsed(a);
            let y = clipboard::collapsed(b);
            clipboard::collapsed(a.push(w) + b) == if x.len() == 0 {
                y
            } else if y.len() == 0 {
                x
            } else {
                x.push(' ') + y
            }
        }),
        clipboard::collapsed(a).len() == 0 <==> text::words(a).len() == 0,
        clipboard::collapsed(b).len() == 0 <==> text::words(b).len() == 0,
{
    reveal_strlit(" ");
    assert(" "@ == seq![' ']);
    lemma_words_between(a, w, b);
    let x = text::words(a);
    let y = text::words(b);
    text::lemma_words_are_words(a);
    text::lemma_words_are_words(b);
    lemma_joined_len(x);
    lemma_joined_len(y);
    if x.len() == 0 {
        assert(x + y == y);
    } else if y.len() == 0 {
        assert(x + y == x);
    } else {
        lemma_join_parts(x, y);
    }
}

/// Joined words are nothing only where there are none.
proof fn lemma_joined_len(ws: Seq<Seq<char>>)
    requires
        forall|i: int| 0 <= i < ws.len() ==> text::is_word(#[trigger] ws[i]),
    ensures
        text::join(ws, seq![' ']).len() == 0 <==> ws.len() == 0,
{
    if ws.len() > 0 {
        assert(text::is_word(ws[ws.len() - 1]));
    }
}

/// A word, collapsed, is itself.
proof fn lemma_collapsed_word(x: Seq<char>)
    requires
        text::is_word(x),
    ensures
        clipboard::collapsed(x) == x,
{
    text::lemma_words_push(Seq::empty(), x);
    assert(text::join(seq![x], " "@) == x);
}

// ---- hesitations between words ----------------------------------------------

/// Trimming in front of a space and a text that is not blank in front: it stops before
/// the space, or takes it away.
proof fn lemma_trim_cut(a: Seq<char>, b: Seq<char>) -> (r: Option<Seq<char>>)
    requires
        b.len() == 0 || !text::is_white(b[0]),
    ensures
        match r {
            Some(x) => x.len() <= a.len() && text::trim_start(a.push(' ') + b) == x.push(' ') + b
                && text::trim_start(a.push(' ')) == x.push(' '),
            None => text::trim_start(a.push(' ') + b) == b && text::trim_start(a.push(' '))
                == Seq::<char>::empty(),
        },
    decreases a.len(),
{
    let s = a.push(' ') + b;
    let t = a.push(' ');
    if a.len() == 0 {
        assert(s.skip(1) == b);
        assert(t.skip(1) == Seq::<char>::empty());
        assert(text::trim_start(b) == b);
        assert(text::trim_start(t.skip(1)) == Seq::<char>::empty());
        None
    } else if text::is_white(a[0]) {
        assert(s.skip(1) == a.skip(1).push(' ') + b);
        assert(t.skip(1) == a.skip(1).push(' '));
        lemma_trim_cut(a.skip(1), b)
    } else {
        Some(a)
    }
}

/// A text and one behind a space lose their hesitations each on its own.
proof fn lemma_fillers_between(a: Seq<char>, b: Seq<char>, inside: bool)
    requires
        b.len() == 0 || !text::is_white(b[0]),
    ensures
        pattern::without_fillers(a.push(' ') + b, inside) == pattern::without_fillers(
            a.push(' '),
            inside,
        ) + pattern::without_fillers(b, false),
    decreases a.len(),
{
    let s = a.push(' ') + b;
    let t = a.push(' ');
    let e = Seq::<char>::empty();
    let y = pattern::without_fillers(b, false);
    assert(t + e == t);
    lemma_run_ends(a, ' ', b);
    lemma_run_ends(a, ' ', e);
    let run = pattern::first_run(a);
    if !inside && pattern::is_hesitation(run) {
        lemma_hesitations_are_drawled(run);
        pattern::lemma_first_run_len(a);
        let n = run.len() as int;
        let a1 = a.skip(n);
        assert(s.skip(n) == a1.push(' ') + b);
        assert(t.skip(n) == a1.push(' '));
        let a2 = if a1.len() > 0 && a1[0] == ',' {
            a1.skip(1)
        } else {
            a1
        };
        if a1.len() > 0 && a1[0] == ',' {
            assert(s.skip(n).skip(1) == a2.push(' ') + b);
            assert(t.skip(n).skip(1) == a2.push(' '));
        }
        assert(s.skip(n)[0] == ',' <==> a1.len() > 0 && a1[0] == ',');
        assert(t.skip(n)[0] == ',' <==> a1.len() > 0 && a1[0] == ',');
        assert(pattern::behind(s.skip(n)) == text::trim_start(a2.push(' ') + b));
        assert(pattern::behind(t.skip(n)) == text::trim_start(a2.push(' ')));
        assert(pattern::without_fillers(s, inside) == pattern::without_fillers(
            pattern::behind(s.skip(n)),
            false,
        ));
        assert(pattern::without_fillers(t, inside) == pattern::without_fillers(
            pattern::behind(t.skip(n)),
            false,
        ));
        match lemma_trim_cut(a2, b) {
            Some(x) => {
                lemma_fillers_between(x, b, false);
            },
            None => {
                assert(pattern::without_fillers(e, false) == e);
                assert(e + y == y);
            },
        }
    } else if a.len() == 0 {
        assert(s.skip(1) == b);
        assert(t.skip(1) == e);
        assert(pattern::without_fillers(e, false) == e);
        assert(seq![' '] + e == seq![' ']);
        assert(pattern::without_fillers(t, inside) == seq![' ']);
    } else {
        let w = pattern::is_word_char(a[0]);
        assert(s.skip(1) == a.skip(1).push(' ') + b);
        assert(t.skip(1) == a.skip(1).push(' '));
        lemma_fillers_between(a.skip(1), b, w);
        let x = pattern::without_fillers(a.skip(1).push(' '), w);
        assert(seq![a[0]] + (x + y) == (seq![a[0]] + x) + y);
    }
}

/// A space at the end is all that it changes.
proof fn lemma_fillers_in_front_of_a_space(a: Seq<char>, inside: bool)
    ensures
        ({
            let x = pattern::without_fillers(a, inside);
            let y = pattern::without_fillers(a.push(' '), inside);
            y == x || y == x.push(' ')
        }),
    decreases a.len(),
{
    let t = a.push(' ');
    let e = Seq::<char>::empty();
    assert(t + e == t);
    lemma_run_ends(a, ' ', e);
    let run = pattern::first_run(a);
    if !inside && pattern::is_hesitation(run) {
        lemma_hesitations_are_drawled(run);
        pattern::lemma_first_run_len(a);
        let n = run.len() as int;
        let a1 = a.skip(n);
        assert(t.skip(n) == a1.push(' '));
        let a2 = if a1.len() > 0 && a1[0] == ',' {
            a1.skip(1)
        } else {
            a1
        };
        if a1.len() > 0 && a1[0] == ',' {
            assert(t.skip(n).skip(1) == a2.push(' '));
        }
        lemma_trim_in_front_of_a_space(a2);
        let z = text::trim_start(a2);
        pattern::lemma_trim_start_len(a2);
        assert(pattern::behind(a1) == z);
        assert(t.skip(n)[0] == ',' <==> a1.len() > 0 && a1[0] == ',');
        assert(pattern::behind(t.skip(n)) == text::trim_start(a2.push(' ')));
        assert(pattern::without_fillers(a, inside) == pattern::without_fillers(z, false));
        assert(pattern::without_fillers(t, inside) == pattern::without_fillers(
            pattern::behind(t.skip(n)),
            false,
        ));
        if z.len() > 0 {
            lemma_fillers_in_front_of_a_space(z, false);
        } else {
            assert(z == e);
        }
    } else if a.len() == 0 {
        assert(t.skip(1) == e);
        assert(pattern::without_fillers(e, false) == e);
        assert(seq![' '] + e == e.push(' '));
        assert(pattern::without_fillers(t, inside) == seq![' '] + e);
        assert(pattern::without_fillers(a, inside) == a);
        assert(a == e);
    } else {
        let w = pattern::is_word_char(a[0]);
        assert(t.skip(1) == a.skip(1).push(' '));
        lemma_fillers_in_front_of_a_space(a.skip(1), w);
        let x = pattern::without_fillers(a.skip(1), w);
        assert(seq![a[0]] + x.push(' ') == (seq![a[0]] + x).push(' '));
    }
}

/// Trimming a text with a space behind it: the space stays where anything else does.
proof fn lemma_trim_in_front_of_a_space(a: Seq<char>)
    ensures
        text::trim_start(a).len() == 0 ==> text::trim_start(a.push(' ')) == Seq::<char>::empty(),
        text::trim_start(a).len() > 0 ==> text::trim_start(a.push(' ')) == text::trim_start(a).push(
            ' ',
        ),
    decreases a.len(),
{
    let t = a.push(' ');
    if a.len() == 0 {
        assert(t.skip(1) == Seq::<char>::empty());
        assert(text::trim_start(t.skip(1)) == Seq::<char>::empty());
    } else if text::is_white(a[0]) {
        assert(t.skip(1) == a.skip(1).push(' '));
        lemma_trim_in_front_of_a_space(a.skip(1));
    }
}

/// A hesitation loses itself, with its comma and the space behind it.
proof fn lemma_hesitations_lose_themselves(h: Seq<char>)
    requires
        pattern::is_hesitation(h),
    ensures
        pattern::without_fillers(h, false) == Seq::<char>::empty(),
        pattern::without_fillers(h.push(' '), false) == Seq::<char>::empty(),
        pattern::without_fillers(h.push(','), false) == Seq::<char>::empty(),
        pattern::without_fillers(h.push(',').push(' '), false) == Seq::<char>::empty(),
        text::is_word(h),
{
    lemma_hesitations_are_drawled(h);
    let e = Seq::<char>::empty();
    assert forall|i: int| 0 <= i < h.len() implies pattern::is_word_char(#[trigger] h[i])
        && !text::is_white(h[i]) by {
        assert(is_drawl(h[i]));
    }
    lemma_run_of_front(h, e);
    assert(h + e == h);
    assert(pattern::first_run(e) == e);
    let n = h.len() as int;
    assert(pattern::first_run(h) == h);
    assert(pattern::without_fillers(e, false) == e);
    assert(h.skip(n) == e);
    assert(text::trim_start(e) == e);
    assert(pattern::behind(e) == e);
    let hs = h.push(' ');
    assert(hs + e == hs);
    lemma_run_ends(h, ' ', e);
    assert(hs.skip(n) == seq![' ']);
    assert(seq![' '].skip(1) == e);
    assert(text::trim_start(seq![' ']) == e);
    assert(pattern::behind(seq![' ']) == e);
    let hc = h.push(',');
    assert(hc + e == hc);
    lemma_run_ends(h, ',', e);
    assert(hc.skip(n) == seq![',']);
    assert(seq![','].skip(1) == e);
    assert(pattern::behind(seq![',']) == e);
    let hcs = hc.push(' ');
    assert(h.push(',') + seq![' '] == hcs);
    lemma_run_ends(h, ',', seq![' ']);
    assert(hcs.skip(n) == seq![',', ' ']);
    assert(seq![',', ' '].skip(1) == seq![' ']);
    assert(pattern::behind(seq![',', ' ']) == e);
}

/// A hesitation at a place is found.
proof fn lemma_filler_is_found(s: Seq<char>, i: int, j: int, inside: bool)
    requires
        0 <= i < j <= s.len(),
        pattern::is_hesitation(s.subrange(i, j)),
        i == 0 ==> !inside,
        i > 0 ==> !pattern::is_word_char(s[i - 1]),
        j < s.len() ==> !pattern::is_word_char(s[j]),
    ensures
        has_filler(s, inside),
    decreases i,
{
    let h = s.subrange(i, j);
    lemma_hesitations_are_drawled(h);
    if i == 0 {
        let b = s.skip(j);
        assert forall|k: int| 0 <= k < h.len() implies pattern::is_word_char(#[trigger] h[k]) by {
            assert(is_drawl(h[k]));
        }
        lemma_run_of_front(h, b);
        assert(h + b == s);
        assert(b.len() > 0 ==> b[0] == s[j]);
        assert(pattern::first_run(b) == Seq::<char>::empty());
        assert(h + Seq::<char>::empty() == h);
    } else {
        let t = s.skip(1);
        assert(t.subrange(i - 1, j - 1) == h);
        assert(i > 1 ==> t[i - 2] == s[i - 1]);
        assert(j < s.len() ==> t[j - 1] == s[j]);
        lemma_filler_is_found(t, i - 1, j - 1, pattern::is_word_char(s[0]));
    }
}

/// Whether `w` spells a hesitation: `um`, `uh`, `erm` or `hmm`, in any letter case, with
/// its last letter once or more.
pub open spec fn spells_hesitation(w: Seq<char>) -> bool {
    let l = |i: int| text::lower_char(w[i]);
    ||| w.len() >= 2 && l(0) == 'u' && forall|i: int|
        1 <= i < w.len() ==> text::lower_char(#[trigger] w[i]) == 'm'
    ||| w.len() >= 2 && l(0) == 'u' && forall|i: int|
        1 <= i < w.len() ==> text::lower_char(#[trigger] w[i]) == 'h'
    ||| w.len() >= 3 && l(0) == 'e' && l(1) == 'r' && forall|i: int|
        2 <= i < w.len() ==> text::lower_char(#[trigger] w[i]) == 'm'
    ||| w.len() >= 3 && l(0) == 'h' && forall|i: int|
        1 <= i < w.len() ==> text::lower_char(#[trigger] w[i]) == 'm'
}

/// What spells a hesitation is one, and nothing else is.
proof fn lemma_spelling(w: Seq<char>)
    ensures
        spells_hesitation(w) <==> pattern::is_hesitation(w),
{
    let u = seq!['u'];
    let er = seq!['e', 'r'];
    let hm = seq!['h', 'm'];
    if pattern::is_drawn(w, u, 'm') || pattern::is_drawn(w, u, 'h') {
        assert(text::lower_char(w[0]) == u[0]);
    }
    if pattern::is_drawn(w, er, 'm') {
        assert(text::lower_char(w[0]) == er[0]);
        assert(text::lower_char(w[1]) == er[1]);
    }
    if pattern::is_drawn(w, hm, 'm') {
        assert(text::lower_char(w[0]) == hm[0]);
        assert forall|i: int| 1 <= i < w.len() implies text::lower_char(#[trigger] w[i]) == 'm' by {
            assert(i == 1 ==> hm[1] == 'm');
        }
    }
    if spells_hesitation(w) {
        assert(w.len() > 0);
        assert forall|i: int| 0 <= i < w.len() implies text::lower_char(#[trigger] w[i])
            == text::lower_char(w[i]) by {}
        assert(pattern::is_drawn(w, u, 'm') || pattern::is_drawn(w, u, 'h') || pattern::is_drawn(
            w,
            er,
            'm',
        ) || pattern::is_drawn(w, hm, 'm'));
    }
}

// ---- what is cleaned, and how much ------------------------------------------

/// Every mode cleans the collapsed text, and collapsing takes white space alone: a text
/// without any stays as it is, and of two texts with white space between them both
/// stay, with one space between them where both hold something.
pub proof fn law_collapsing_keeps_the_words(a: Seq<char>, w: char, b: Seq<char>, mode: Seq<char>)
    requires
        text::is_white(w),
    ensures
        ({
            let x = clipboard::cleaned(a, "none"@);
            let y = clipboard::cleaned(b, "none"@);
            &&& (forall|i: int| 0 <= i < a.len() ==> !text::is_white(#[trigger] a[i])) ==> x == a
            &&& clipboard::cleaned(a.push(w) + b, "none"@) == if x.len() == 0 {
                y
            } else if y.len() == 0 {
                x
            } else {
                x.push(' ') + y
            }
            &&& clipboard::cleaned(a, mode) == clipboard::cleaned(x, mode)
        }),
{
    lemma_collapsed_between(a, w, b);
    clipboard::law_collapsing_is_done_once(a);
    if forall|i: int| 0 <= i < a.len() ==> !text::is_white(#[trigger] a[i]) {
        if a.len() > 0 {
            lemma_collapsed_word(a);
        } else {
            assert(is_tidy(a));
            lemma_tidy_stays(a);
        }
    }
}

/// In the other modes but `fillers`, a text that is collapsed and has no white space in
/// front of a mark changes in little: its first letter is raised, so is every `i` that
/// stands alone, and it gets a full stop where it does not end like a sentence.
pub proof fn law_light_cleaning_changes_little(t: Seq<char>, mode: Seq<char>)
    requires
        mode != "none"@,
        mode != "fillers"@,
        t.len() > 0,
        is_tidy(t),
        forall|i: int|
            0 < i < t.len() && (#[trigger] t[i] == ',' || t[i] == '.' || t[i] == '!' || t[i] == '?'
                || t[i] == ';' || t[i] == ':') ==> !text::is_white(t[i - 1]),
        t.len() > 1 || (t[0] as u32) < 128,
    ensures
        ({
            let r = clipboard::cleaned(t, mode);
            let u = text::uppercase(t[0]);
            let ends = t.last() == '.' || t.last() == '!' || t.last() == '?';
            &&& r.len() == u.len() + t.len() - 1 + if ends {
                0int
            } else {
                1
            }
            &&& r.take(u.len() as int) == u
            &&& forall|i: int|
                0 < i < t.len() ==> #[trigger] r[u.len() + i - 1] == if t[i] == 'i'
                    && !pattern::is_word_char(t[i - 1]) && (i + 1 < t.len()
                    ==> !pattern::is_word_char(t[i + 1])) {
                    'I'
                } else {
                    t[i]
                }
            &&& !ends ==> r.last() == '.'
        }),
{
    lemma_tidy_stays(t);
    assert(is_tight(t));
    lemma_tight_stays(t);
    let y = pattern::raised(t);
    let u = text::uppercase(t[0]);
    let r = clipboard::cleaned(t, mode);
    let x = text::uppercase(y[0]) + y.skip(1);
    assert(text::uppercase(y[0]) == u) by {
        if pattern::stands_alone(t, 0) {
            assert(y[0] == 'I' && t[0] == 'i');
            assert(text::uppercase('I') =~= text::uppercase('i'));
        }
    }
    assert forall|i: int| 0 < i < t.len() implies #[trigger] x[u.len() + i - 1] == if t[i] == 'i'
        && !pattern::is_word_char(t[i - 1]) && (i + 1 < t.len() ==> !pattern::is_word_char(
        t[i + 1],
    )) {
        'I'
    } else {
        t[i]
    } by {
        assert(x[u.len() + i - 1] == y[i]);
        assert(pattern::word_at(t, i - 1) == pattern::is_word_char(t[i - 1]));
    }
    if t.len() > 1 {
        assert(x.last() == y.last());
        assert(x.last() == x[u.len() + (t.len() - 1) - 1]);
    } else {
        assert(y.skip(1).len() == 0);
        assert(u == seq![text::upper_char(t[0])]);
        assert(x =~= u);
    }
    assert(r == if clipboard::ends_sentence(x) {
        x
    } else {
        x.push('.')
    });
    assert(r.take(u.len() as int) == u);
}

/// White space in front of a mark makes no difference, in the other modes but `none` and
/// `fillers`.
pub proof fn law_space_in_front_of_marks_goes(a: Seq<char>, b: Seq<char>, mode: Seq<char>)
    requires
        mode != "none"@,
        mode != "fillers"@,
        a.len() > 0,
        b.len() > 0,
        is_tidy(a),
        is_tidy(b),
        b[0] == ',' || b[0] == '.' || b[0] == '!' || b[0] == '?' || b[0] == ';' || b[0] == ':',
    ensures
        clipboard::cleaned(a.push(' ') + b, mode) == clipboard::cleaned(a + b, mode),
{
    let s = a.push(' ') + b;
    let t = a + b;
    assert(is_tidy(s)) by {
        assert forall|i: int| 0 <= i < s.len() && text::is_white(#[trigger] s[i]) implies s[i]
            == ' ' by {
            if i < a.len() {
                assert(s[i] == a[i]);
            } else if i > a.len() {
                assert(s[i] == b[i - a.len() - 1]);
            }
        }
        assert forall|i: int| 0 < i < s.len() && text::is_white(#[trigger] s[i]) implies
            !text::is_white(s[i - 1]) by {
            if i < a.len() {
                assert(s[i] == a[i] && s[i - 1] == a[i - 1]);
            } else if i == a.len() {
                assert(s[i - 1] == a.last());
            } else if i == a.len() + 1 {
                assert(s[i] == b[0]);
            } else {
                assert(s[i] == b[i - a.len() - 1] && s[i - 1] == b[i - a.len() - 2]);
            }
        }
        assert(s[0] == a[0] && s.last() == b.last());
    }
    assert(is_tidy(t)) by {
        assert forall|i: int| 0 <= i < t.len() && text::is_white(#[trigger] t[i]) implies t[i]
            == ' ' by {
            if i < a.len() {
                assert(t[i] == a[i]);
            } else {
                assert(t[i] == b[i - a.len()]);
            }
        }
        assert forall|i: int| 0 < i < t.len() && text::is_white(#[trigger] t[i]) implies
            !text::is_white(t[i - 1]) by {
            if i < a.len() {
                assert(t[i] == a[i] && t[i - 1] == a[i - 1]);
            } else if i == a.len() {
                assert(t[i] == b[0]);
            } else {
                assert(t[i] == b[i - a.len()] && t[i - 1] == b[i - a.len() - 1]);
            }
        }
        assert(t[0] == a[0] && t.last() == b.last());
    }
    lemma_tidy_stays(s);
    lemma_tidy_stays(t);
    lemma_space_is_dropped(a, b);
}

/// A space in front of a mark is dropped.
proof fn lemma_space_is_dropped(a: Seq<char>, b: Seq<char>)
    requires
        b.len() > 0,
        pattern::is_mark(b[0]),
    ensures
        pattern::tightened(a.push(' ') + b) == pattern::tightened(a + b),
        pattern::leads_to_mark(a.push(' ') + b) == pattern::leads_to_mark(a + b),
    decreases a.len(),
{
    let s = a.push(' ') + b;
    let t = a + b;
    if a.len() == 0 {
        assert(s.skip(1) == b);
        assert(t == b);
        assert(pattern::leads_to_mark(b));
        assert(pattern::leads_to_mark(s));
    } else {
        assert(s.skip(1) == a.skip(1).push(' ') + b);
        assert(t.skip(1) == a.skip(1) + b);
        lemma_space_is_dropped(a.skip(1), b);
        assert(s[0] == t[0]);
    }
}

/// In the mode `fillers`, a hesitation makes no difference: with or without a comma
/// behind it, in whatever letter case, in front, between words or at the end, the text
/// is cleaned as if it had not been said. Where there is none, the mode cleans like any
/// other but `none`.
pub proof fn law_hesitations_make_no_difference(
    a: Seq<char>,
    h: Seq<char>,
    comma: bool,
    b: Seq<char>,
)
    requires
        spells_hesitation(h),
    ensures
        ({
            let said = if comma {
                h.push(',')
            } else {
                h
            };
            clipboard::cleaned(a.push(' ') + (said.push(' ') + b), "fillers"@)
                == clipboard::cleaned(a.push(' ') + b, "fillers"@)
        }),
{
    reveal_strlit("none");
    reveal_strlit("fillers");
    assert("none"@[0] == 'n' && "fillers"@[0] == 'f');
    lemma_spelling(h);
    lemma_hesitations_lose_themselves(h);
    let said = if comma {
        h.push(',')
    } else {
        h
    };
    assert forall|i: int| 0 <= i < said.len() implies !text::is_white(#[trigger] said[i]) by {
        if i < h.len() {
            assert(said[i] == h[i]);
        }
    }
    assert(text::is_word(said));
    lemma_collapsed_word(said);
    lemma_collapsed_between(said, ' ', b);
    lemma_collapsed_between(a, ' ', said.push(' ') + b);
    lemma_collapsed_between(a, ' ', b);
    clipboard::law_collapsing_is_done_once(a);
    clipboard::law_collapsing_is_done_once(b);
    let x = clipboard::collapsed(a);
    let y = clipboard::collapsed(b);
    let e = Seq::<char>::empty();
    let xs = x.push(' ');
    let fx = pattern::without_fillers(x, false);
    let fxs = pattern::without_fillers(xs, false);
    let fy = pattern::without_fillers(y, false);
    let long = clipboard::collapsed(a.push(' ') + (said.push(' ') + b));
    let short = clipboard::collapsed(a.push(' ') + b);
    lemma_fillers_between(said, y, false);
    assert(e + fy == fy);
    if x.len() > 0 {
        if y.len() > 0 {
            lemma_fillers_between(x, said.push(' ') + y, false);
            lemma_fillers_between(x, y, false);
        } else {
            lemma_fillers_between(x, said, false);
            assert(fxs + e == fxs);
            lemma_fillers_in_front_of_a_space(x, false);
            lemma_collapsed_between(fx, ' ', e);
            assert(fx.push(' ') + e == fx.push(' '));
            assert(is_tidy(e));
            lemma_tidy_stays(e);
        }
    } else if y.len() == 0 {
        assert(is_tidy(e));
        lemma_tidy_stays(e);
        assert(long == said);
        assert(short.len() == 0);
        let gone = clipboard::spelled(long, "fillers"@);
        assert(pattern::tightened(e) == e);
        assert(pattern::raised(e) == e);
        assert(gone == e);
    }
}

/// Where no word is a hesitation, the mode `fillers` cleans like any other but `none`.
pub proof fn law_without_hesitations_fillers_is_light(s: Seq<char>)
    requires
        !has_filler(clipboard::collapsed(s), false),
    ensures
        clipboard::cleaned(s, "fillers"@) == clipboard::cleaned(s, "light"@),
{
    reveal_strlit("none");
    reveal_strlit("fillers");
    reveal_strlit("light");
    assert("none"@[0] == 'n' && "fillers"@[0] == 'f' && "light"@[0] == 'l');
    lemma_no_filler_stays(clipboard::collapsed(s), false);
    clipboard::law_collapsing_is_done_once(s);
}

// ---- what goes to the clipboard ---------------------------------------------

/// The cleaned text goes to the clipboard whenever there is one, and the take itself
/// only where cleaning leaves nothing.
pub proof fn law_the_cleaned_text_goes_to_the_clipboard(verbatim: Seq<char>, mode: Seq<char>)
    ensures
        clipboard::cleaned(verbatim, mode).len() > 0 ==> clipboard::clip_of(verbatim, mode)
            == clipboard::cleaned(verbatim, mode),
        clipboard::cleaned(verbatim, mode).len() == 0 ==> clipboard::clip_of(verbatim, mode)
            == verbatim,
{
}

/// What goes to the clipboard is clean, unless cleaning leaves nothing: it neither begins
/// nor ends with white space and has no doubled one; unless the mode is `none` it ends
/// with a full stop, an exclamation or a question mark, and has no white space in front
/// of a mark and no `i` between what is no letter, digit or underscore; and in the mode
/// `fillers` no whole word of it is a hesitation.
pub proof fn law_the_clipboard_is_clean(verbatim: Seq<char>, mode: Seq<char>)
    requires
        ({
            let t = clipboard::spelled(clipboard::collapsed(verbatim), mode);
            mode != "none"@ && t.len() > 0 ==> settles(t[0])
        }),
        clipboard::cleaned(verbatim, mode).len() > 0,
    ensures
        ({
            let r = clipboard::clip_of(verbatim, mode);
            &&& r.len() > 0
            &&& !text::is_white(r[0]) && !text::is_white(r.last())
            &&& forall|i: int|
                0 < i < r.len() && text::is_white(#[trigger] r[i]) ==> r[i] == ' '
                    && !text::is_white(r[i - 1])
            &&& mode != "none"@ ==> {
                &&& r.last() == '.' || r.last() == '!' || r.last() == '?'
                &&& forall|i: int|
                    0 < i < r.len() && (#[trigger] r[i] == ',' || r[i] == '.' || r[i] == '!' || r[i]
                        == '?' || r[i] == ';' || r[i] == ':') ==> !text::is_white(r[i - 1])
                &&& forall|i: int|
                    0 <= i < r.len() && #[trigger] r[i] == 'i' ==> (i > 0 && pattern::is_word_char(
                        r[i - 1],
                    )) || (i + 1 < r.len() && pattern::is_word_char(r[i + 1]))
            }
            &&& mode == "fillers"@ ==> forall|i: int, j: int|
                0 <= i < j <= r.len() && (i > 0 ==> !pattern::is_word_char(r[i - 1])) && (j
                    < r.len() ==> !pattern::is_word_char(r[j])) ==> !spells_hesitation(
                    #[trigger] r.subrange(i, j),
                )
        }),
{
    law_cleaning_is_done_once(verbatim, mode);
    let r = clipboard::clip_of(verbatim, mode);
    assert(r == clipboard::cleaned(verbatim, mode));
    if mode != "none"@ {
        assert forall|i: int| 0 <= i < r.len() && #[trigger] r[i] == 'i' implies (i > 0
            && pattern::is_word_char(r[i - 1])) || (i + 1 < r.len() && pattern::is_word_char(
            r[i + 1],
        )) by {
            assert(!pattern::stands_alone(r, i));
        }
    }
    if mode == "fillers"@ {
        assert forall|i: int, j: int|
            0 <= i < j <= r.len() && (i > 0 ==> !pattern::is_word_char(r[i - 1])) && (j < r.len()
                ==> !pattern::is_word_char(r[j])) implies !spells_hesitation(
            #[trigger] r.subrange(i, j),
        ) by {
            if spells_hesitation(r.subrange(i, j)) {
                lemma_spelling(r.subrange(i, j));
                lemma_filler_is_found(r, i, j, false);
            }
        }
    }
}

} // verus!
