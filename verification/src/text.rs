//! Text as a sequence of characters: white space, trimming, splitting,
//! joining, searching, and decimal numbers.

use vstd::prelude::*;
use vstd::slice::slice_subrange;

verus! {

// ---- characters and strings -------------------------------------------------

/// `String::push` appends one character to the end of the string.
pub assume_specification[ String::push ](s: &mut String, c: char)
    ensures
        final(s)@ == old(s)@.push(c),
;

/// What each string of a list reads.
pub open spec fn texts(v: Seq<String>) -> Seq<Seq<char>> {
    v.map_values(|s: String| s@)
}

/// What each piece of a list reads.
pub open spec fn pieces(v: Seq<Vec<char>>) -> Seq<Seq<char>> {
    v.map_values(|s: Vec<char>| s@)
}

/// What an optional string reads.
pub open spec fn opt_text(s: Option<String>) -> Option<Seq<char>> {
    match s {
        Some(t) => Some(t@),
        None => None,
    }
}

/// What an optional borrowed string reads.
pub open spec fn opt_str(s: Option<&str>) -> Option<Seq<char>> {
    match s {
        Some(t) => Some(t@),
        None => None,
    }
}

/// The characters of `s`, in order.
pub fn chars_of(s: &str) -> (v: Vec<char>)
    ensures
        v@ == s@,
{
    let mut v: Vec<char> = Vec::new();
    for c in it: s.chars()
        invariant
            v@ == s@.take(it.index() as int),
            it.seq() == s@,
    {
        v.push(c);
    }
    assert(s@.take(s@.len() as int) == s@);
    v
}

/// The string whose characters are `v`.
pub fn string_of(v: &[char]) -> (s: String)
    ensures
        s@ == v@,
{
    let mut s = String::new();
    for i in 0..v.len()
        invariant
            s@ == v@.take(i as int),
    {
        s.push(v[i]);
    }
    assert(v@.take(v@.len() as int) == v@);
    s
}

/// Whether two character sequences are the same.
pub fn chars_eq(a: &[char], b: &[char]) -> (r: bool)
    ensures
        r == (a@ == b@),
{
    if a.len() != b.len() {
        return false;
    }
    for i in 0..a.len()
        invariant
            a.len() == b.len(),
            a@.take(i as int) == b@.take(i as int),
    {
        if a[i] != b[i] {
            return false;
        }
        assert(a@.take(i + 1) == a@.take(i as int).push(a@[i as int]));
        assert(b@.take(i + 1) == b@.take(i as int).push(b@[i as int]));
    }
    assert(a@.take(a@.len() as int) == a@);
    assert(b@.take(b@.len() as int) == b@);
    true
}

/// Whether `a` reads `lit`.
pub fn is_lit(a: &[char], lit: &str) -> (r: bool)
    ensures
        r == (a@ == lit@),
{
    let b = chars_of(lit);
    chars_eq(a, b.as_slice())
}

/// Whether two strings read the same.
pub fn str_eq(a: &str, b: &str) -> (r: bool)
    ensures
        r == (a@ == b@),
{
    let x = chars_of(a);
    is_lit(x.as_slice(), b)
}

/// Append the characters `more` to `v`.
pub fn extend(v: &mut Vec<char>, more: &[char])
    ensures
        final(v)@ == old(v)@ + more@,
{
    let ghost start = v@;
    for i in 0..more.len()
        invariant
            v@ == start + more@.take(i as int),
    {
        v.push(more[i]);
    }
    assert(more@.take(more@.len() as int) == more@);
}

/// Append what `more` reads to `v`.
pub fn extend_str(v: &mut Vec<char>, more: &str)
    ensures
        final(v)@ == old(v)@ + more@,
{
    let m = chars_of(more);
    extend(v, m.as_slice());
}

/// A vector with the characters of `s`.
pub fn to_vec(s: &[char]) -> (v: Vec<char>)
    ensures
        v@ == s@,
{
    let mut v: Vec<char> = Vec::new();
    extend(&mut v, s);
    v
}

// ---- character classes ------------------------------------------------------

/// The characters with the Unicode White_Space property.
pub open spec fn is_white(c: char) -> bool {
    let n = c as u32;
    ||| 0x9 <= n <= 0xd
    ||| n == 0x20
    ||| n == 0x85
    ||| n == 0xa0
    ||| n == 0x1680
    ||| 0x2000 <= n <= 0x200a
    ||| n == 0x2028
    ||| n == 0x2029
    ||| n == 0x202f
    ||| n == 0x205f
    ||| n == 0x3000
}

/// Whether `c` has the Unicode White_Space property.
pub fn is_white_space(c: char) -> (r: bool)
    ensures
        r == is_white(c),
{
    let n: u32 = c as u32;
    (0x9 <= n && n <= 0xd) || n == 0x20 || n == 0x85 || n == 0xa0 || n == 0x1680 || (0x2000 <= n
        && n <= 0x200a) || n == 0x2028 || n == 0x2029 || n == 0x202f || n == 0x205f || n == 0x3000
}

/// An ASCII decimal digit.
pub open spec fn is_digit(c: char) -> bool {
    '0' <= c <= '9'
}

/// An ASCII letter.
pub open spec fn is_alpha(c: char) -> bool {
    'a' <= c <= 'z' || 'A' <= c <= 'Z'
}

/// An ASCII letter or digit.
pub open spec fn is_alnum(c: char) -> bool {
    is_alpha(c) || is_digit(c)
}

/// Whether `c` is an ASCII decimal digit.
pub fn digit(c: char) -> (r: bool)
    ensures
        r == is_digit(c),
{
    '0' <= c && c <= '9'
}

/// Whether `c` is an ASCII letter.
pub fn alpha(c: char) -> (r: bool)
    ensures
        r == is_alpha(c),
{
    ('a' <= c && c <= 'z') || ('A' <= c && c <= 'Z')
}

/// Whether `c` is an ASCII letter or digit.
pub fn alnum(c: char) -> (r: bool)
    ensures
        r == is_alnum(c),
{
    alpha(c) || digit(c)
}

/// The ASCII letters moved to lower case, every other character unchanged.
pub open spec fn lower_char(c: char) -> char {
    if 'A' <= c <= 'Z' {
        ((c as u8) + 32) as char
    } else {
        c
    }
}

/// The ASCII letters moved to upper case, every other character unchanged.
pub open spec fn upper_char(c: char) -> char {
    if 'a' <= c <= 'z' {
        ((c as u8) - 32) as char
    } else {
        c
    }
}

/// `c` with ASCII letters in lower case.
pub fn ascii_lower(c: char) -> (r: char)
    ensures
        r == lower_char(c),
{
    if 'A' <= c && c <= 'Z' {
        ((c as u8) + 32) as char
    } else {
        c
    }
}

/// `c` with ASCII letters in upper case.
pub fn ascii_upper(c: char) -> (r: char)
    ensures
        r == upper_char(c),
{
    if 'a' <= c && c <= 'z' {
        ((c as u8) - 32) as char
    } else {
        c
    }
}

// ---- trimming ---------------------------------------------------------------

/// `s` without its leading white space.
pub open spec fn trim_start(s: Seq<char>) -> Seq<char>
    decreases s.len(),
{
    if s.len() > 0 && is_white(s[0]) {
        trim_start(s.skip(1))
    } else {
        s
    }
}

/// `s` without its trailing white space.
pub open spec fn trim_end(s: Seq<char>) -> Seq<char>
    decreases s.len(),
{
    if s.len() > 0 && is_white(s.last()) {
        trim_end(s.drop_last())
    } else {
        s
    }
}

/// `s` without the white space at both ends.
pub open spec fn trim(s: Seq<char>) -> Seq<char> {
    trim_end(trim_start(s))
}

/// `s` without its leading white space.
pub fn trimmed_start(s: &[char]) -> (r: &[char])
    ensures
        r@ == trim_start(s@),
{
    let mut i: usize = 0;
    assert(s@.skip(0) == s@);
    while i < s.len() && is_white_space(s[i])
        invariant
            i <= s.len(),
            trim_start(s@.skip(i as int)) == trim_start(s@),
        decreases s.len() - i,
    {
        assert(s@.skip(i as int).skip(1) == s@.skip(i + 1));
        i = i + 1;
    }
    assert(s@.subrange(i as int, s@.len() as int) == s@.skip(i as int));
    slice_subrange(s, i, s.len())
}

/// `s` without its trailing white space.
pub fn trimmed_end(s: &[char]) -> (r: &[char])
    ensures
        r@ == trim_end(s@),
{
    let mut n: usize = s.len();
    assert(s@.take(n as int) == s@);
    while n > 0 && is_white_space(s[n - 1])
        invariant
            n <= s.len(),
            trim_end(s@.take(n as int)) == trim_end(s@),
        decreases n,
    {
        assert(s@.take(n as int).drop_last() == s@.take(n - 1));
        n = n - 1;
    }
    assert(s@.subrange(0, n as int) == s@.take(n as int));
    slice_subrange(s, 0, n)
}

/// `s` without the white space at both ends.
pub fn trimmed(s: &[char]) -> (r: &[char])
    ensures
        r@ == trim(s@),
{
    trimmed_end(trimmed_start(s))
}

// ---- splitting and joining --------------------------------------------------

/// The pieces of `s` between the separators `sep`; always at least one piece.
pub open spec fn split(s: Seq<char>, sep: char) -> Seq<Seq<char>>
    decreases s.len(),
{
    if s.len() == 0 {
        seq![s]
    } else {
        let before = split(s.drop_last(), sep);
        if s.last() == sep {
            before.push(Seq::empty())
        } else {
            before.drop_last().push(before.last().push(s.last()))
        }
    }
}

/// There is always at least one piece.
pub proof fn lemma_split_some(s: Seq<char>, sep: char)
    ensures
        split(s, sep).len() > 0,
    decreases s.len(),
{
    if s.len() > 0 {
        lemma_split_some(s.drop_last(), sep);
    }
}

/// The pieces of `s` between the separators `sep`.
pub fn split_on(s: &[char], sep: char) -> (r: Vec<Vec<char>>)
    ensures
        pieces(r@) == split(s@, sep),
{
    let mut done: Vec<Vec<char>> = Vec::new();
    let mut cur: Vec<char> = Vec::new();
    assert(s@.take(0) == cur@);
    assert(pieces(done@).push(cur@) == split(s@.take(0), sep));
    for i in 0..s.len()
        invariant
            pieces(done@).push(cur@) == split(s@.take(i as int), sep),
    {
        let ghost before = split(s@.take(i as int), sep);
        let ghost was = done@;
        assert(s@.take(i + 1).drop_last() == s@.take(i as int));
        assert(before.drop_last() == pieces(done@));
        let c = s[i];
        if c == sep {
            done.push(cur);
            cur = Vec::new();
            assert(pieces(done@) == before);
            assert(pieces(done@).push(cur@) == before.push(Seq::empty()));
        } else {
            cur.push(c);
        }
    }
    assert(s@.take(s@.len() as int) == s@);
    let ghost was = done@;
    done.push(cur);
    assert(pieces(done@) == pieces(was).push(cur@));
    done
}

/// The pieces of `s` between white space characters, empty ones included.
pub open spec fn split_white(s: Seq<char>) -> Seq<Seq<char>>
    decreases s.len(),
{
    if s.len() == 0 {
        seq![s]
    } else {
        let before = split_white(s.drop_last());
        if is_white(s.last()) {
            before.push(Seq::empty())
        } else {
            before.drop_last().push(before.last().push(s.last()))
        }
    }
}

/// The pieces that hold something, in order.
pub open spec fn non_empty(p: Seq<Seq<char>>) -> Seq<Seq<char>> {
    p.filter(|w: Seq<char>| w.len() > 0)
}

/// The words of `s`: its longest stretches without white space.
pub open spec fn words(s: Seq<char>) -> Seq<Seq<char>> {
    non_empty(split_white(s))
}

/// One more piece is kept exactly where it holds something.
pub proof fn lemma_non_empty_push(p: Seq<Seq<char>>, w: Seq<char>)
    ensures
        non_empty(p.push(w)) == if w.len() > 0 {
            non_empty(p).push(w)
        } else {
            non_empty(p)
        },
{
    reveal(Seq::filter);
    assert(p.push(w).drop_last() == p);
}

/// Every kept piece holds something.
pub proof fn lemma_non_empty_all(p: Seq<Seq<char>>)
    ensures
        forall|i: int| 0 <= i < non_empty(p).len() ==> (#[trigger] non_empty(p)[i]).len() > 0,
    decreases p.len(),
{
    reveal(Seq::filter);
    if p.len() > 0 {
        lemma_non_empty_all(p.drop_last());
    }
}

/// The words of `s`.
pub fn words_of(s: &[char]) -> (r: Vec<Vec<char>>)
    ensures
        pieces(r@) == words(s@),
{
    let mut done: Vec<Vec<char>> = Vec::new();
    let mut cur: Vec<char> = Vec::new();
    let ghost mut all: Seq<Seq<char>> = Seq::empty();
    proof {
        reveal(Seq::filter);
        assert(s@.take(0) == cur@);
        assert(all.push(cur@) == split_white(s@.take(0)));
        assert(pieces(done@) == non_empty(all));
    }
    for i in 0..s.len()
        invariant
            all.push(cur@) == split_white(s@.take(i as int)),
            pieces(done@) == non_empty(all),
    {
        let ghost before = split_white(s@.take(i as int));
        assert(s@.take(i + 1).drop_last() == s@.take(i as int));
        assert(before.drop_last() == all);
        let c = s[i];
        if is_white_space(c) {
            proof {
                lemma_non_empty_push(all, cur@);
                all = all.push(cur@);
            }
            let ghost was = done@;
            if cur.len() > 0 {
                let ghost w = cur@;
                done.push(cur);
                assert(pieces(done@) == pieces(was).push(w));
            }
            cur = Vec::new();
            assert(all.push(cur@) == before.push(Seq::empty()));
        } else {
            cur.push(c);
        }
    }
    assert(s@.take(s@.len() as int) == s@);
    proof {
        lemma_non_empty_push(all, cur@);
    }
    if cur.len() > 0 {
        let ghost was = done@;
        let ghost w = cur@;
        done.push(cur);
        assert(pieces(done@) == pieces(was).push(w));
    }
    done
}

/// A line without the carriage return that ends it, if one does.
pub open spec fn strip_cr(l: Seq<char>) -> Seq<char> {
    if l.len() > 0 && l.last() == '\r' {
        l.drop_last()
    } else {
        l
    }
}

/// The lines of `s`. A line ends at a line feed, or at a carriage return and a
/// line feed; an unfinished last line counts where it holds something.
pub open spec fn lines(s: Seq<char>) -> Seq<Seq<char>> {
    let p = split(s, '\n');
    let ended = p.drop_last().map_values(|l: Seq<char>| strip_cr(l));
    if p.last().len() == 0 {
        ended
    } else {
        ended.push(p.last())
    }
}

/// The lines of `s`.
pub fn lines_of(s: &[char]) -> (r: Vec<Vec<char>>)
    ensures
        pieces(r@) == lines(s@),
{
    let parts = split_on(s, '\n');
    proof {
        lemma_split_some(s@, '\n');
        assert(pieces(parts@).len() == parts@.len());
    }
    let ghost p = pieces(parts@);
    let ghost ended = p.drop_last().map_values(|l: Seq<char>| strip_cr(l));
    let mut out: Vec<Vec<char>> = Vec::new();
    let last: usize = parts.len() - 1;
    for i in 0..last
        invariant
            last + 1 == parts.len(),
            p == pieces(parts@),
            ended == p.drop_last().map_values(|l: Seq<char>| strip_cr(l)),
            pieces(out@) == ended.take(i as int),
    {
        let ghost was = out@;
        let l = &parts[i];
        assert(p[i as int] == l@);
        let mut piece = to_vec(l.as_slice());
        if piece.len() > 0 && piece[piece.len() - 1] == '\r' {
            piece.pop();
        }
        assert(piece@ == strip_cr(l@));
        assert(ended.take(i + 1) == ended.take(i as int).push(strip_cr(l@)));
        let ghost w = piece@;
        out.push(piece);
        assert(pieces(out@) == pieces(was).push(w));
    }
    assert(ended.take(last as int) == ended);
    assert(p.last() == parts@[last as int]@);
    if parts[last].len() > 0 {
        let ghost was = out@;
        let piece = to_vec(parts[last].as_slice());
        let ghost w = piece@;
        out.push(piece);
        assert(pieces(out@) == pieces(was).push(w));
    }
    out
}

/// The parts in order, with `sep` between each two.
pub open spec fn join(parts: Seq<Seq<char>>, sep: Seq<char>) -> Seq<char>
    decreases parts.len(),
{
    if parts.len() == 0 {
        Seq::empty()
    } else if parts.len() == 1 {
        parts[0]
    } else {
        join(parts.drop_last(), sep) + sep + parts.last()
    }
}

/// The parts in order, with `sep` between each two.
pub fn joined(parts: &Vec<Vec<char>>, sep: &[char]) -> (r: Vec<char>)
    ensures
        r@ == join(pieces(parts@), sep@),
{
    let mut out: Vec<char> = Vec::new();
    let ghost p = pieces(parts@);
    for i in 0..parts.len()
        invariant
            p == pieces(parts@),
            out@ == join(p.take(i as int), sep@),
    {
        assert(p.take(i + 1).drop_last() == p.take(i as int));
        assert(p.take(i + 1).last() == parts@[i as int]@);
        if i > 0 {
            extend(&mut out, sep);
        }
        extend(&mut out, parts[i].as_slice());
        assert(out@ == join(p.take(i + 1), sep@));
    }
    assert(p.take(p.len() as int) == p);
    out
}

// ---- searching --------------------------------------------------------------

/// Whether `pat` stands in `s` at `i`.
pub open spec fn occurs_at(s: Seq<char>, pat: Seq<char>, i: int) -> bool {
    0 <= i && i + pat.len() <= s.len() && s.subrange(i, i + pat.len()) == pat
}

/// The first place at or behind `i` where `pat` stands in `s`.
pub open spec fn find_from(s: Seq<char>, pat: Seq<char>, i: int) -> Option<int>
    decreases s.len() + 1 - i,
{
    if i + pat.len() > s.len() || i > s.len() {
        None
    } else if occurs_at(s, pat, i) {
        Some(i)
    } else {
        find_from(s, pat, i + 1)
    }
}

/// The first place where `pat` stands in `s`.
pub open spec fn find(s: Seq<char>, pat: Seq<char>) -> Option<int> {
    find_from(s, pat, 0)
}

/// Whether `pat` stands anywhere in `s`.
pub open spec fn has(s: Seq<char>, pat: Seq<char>) -> bool {
    exists|i: int| occurs_at(s, pat, i)
}

/// Whether `s` begins with `pat`.
pub open spec fn starts(s: Seq<char>, pat: Seq<char>) -> bool {
    pat.len() <= s.len() && s.take(pat.len() as int) == pat
}

/// Whether `s` ends with `pat`.
pub open spec fn ends(s: Seq<char>, pat: Seq<char>) -> bool {
    pat.len() <= s.len() && s.skip(s.len() - pat.len()) == pat
}

/// The place that a search gives is the first one.
pub proof fn lemma_find_from(s: Seq<char>, pat: Seq<char>, i: int)
    requires
        0 <= i,
    ensures
        match find_from(s, pat, i) {
            Some(k) => i <= k && occurs_at(s, pat, k) && forall|j: int|
                i <= j < k ==> !occurs_at(s, pat, j),
            None => forall|j: int| i <= j ==> !occurs_at(s, pat, j),
        },
    decreases s.len() + 1 - i,
{
    if i + pat.len() > s.len() || i > s.len() {
    } else if occurs_at(s, pat, i) {
    } else {
        lemma_find_from(s, pat, i + 1);
    }
}

/// Whether `pat` stands in `s` at `i`.
pub fn stands_at(s: &[char], pat: &[char], i: usize) -> (r: bool)
    ensures
        r == occurs_at(s@, pat@, i as int),
{
    if i > s.len() || pat.len() > s.len() - i {
        return false;
    }
    let part = slice_subrange(s, i, i + pat.len());
    chars_eq(part, pat)
}

/// The first place at or behind `from` where `pat` stands in `s`.
pub fn position_from(s: &[char], pat: &[char], from: usize) -> (r: Option<usize>)
    ensures
        match r {
            Some(k) => find_from(s@, pat@, from as int) == Some(k as int),
            None => find_from(s@, pat@, from as int) is None,
        },
{
    let mut i: usize = from;
    while i <= s.len() && pat.len() <= s.len() - i
        invariant
            from <= i,
            find_from(s@, pat@, from as int) == find_from(s@, pat@, i as int),
        decreases s.len() + 1 - i,
    {
        if stands_at(s, pat, i) {
            return Some(i);
        }
        if i == s.len() {
            assert(find_from(s@, pat@, i + 1) is None);
            return None;
        }
        i = i + 1;
    }
    None
}

/// The first place where `pat` stands in `s`.
pub fn position(s: &[char], pat: &[char]) -> (r: Option<usize>)
    ensures
        match r {
            Some(k) => find(s@, pat@) == Some(k as int),
            None => find(s@, pat@) is None,
        },
{
    position_from(s, pat, 0)
}

/// Whether `pat` stands anywhere in `s`.
pub fn contains(s: &[char], pat: &[char]) -> (r: bool)
    ensures
        r == has(s@, pat@),
{
    proof {
        lemma_find_from(s@, pat@, 0);
    }
    position(s, pat).is_some()
}

/// Whether `s` begins with `lit`.
pub fn starts_with(s: &[char], lit: &str) -> (r: bool)
    ensures
        r == starts(s@, lit@),
{
    let pat = chars_of(lit);
    if pat.len() > s.len() {
        return false;
    }
    assert(s@.subrange(0, pat@.len() as int) == s@.take(pat@.len() as int));
    stands_at(s, pat.as_slice(), 0)
}

/// Whether `s` ends with `lit`.
pub fn ends_with(s: &[char], lit: &str) -> (r: bool)
    ensures
        r == ends(s@, lit@),
{
    let pat = chars_of(lit);
    if pat.len() > s.len() {
        return false;
    }
    let at: usize = s.len() - pat.len();
    assert(s@.subrange(at as int, at + pat@.len()) == s@.skip(at as int));
    stands_at(s, pat.as_slice(), at)
}

/// `s` from its first character on that follows the `n` leading ones.
pub fn rest(s: &[char], n: usize) -> (r: &[char])
    requires
        n <= s@.len(),
    ensures
        r@ == s@.skip(n as int),
{
    assert(s@.subrange(n as int, s@.len() as int) == s@.skip(n as int));
    slice_subrange(s, n, s.len())
}

/// The first `n` characters of `s`.
pub fn first(s: &[char], n: usize) -> (r: &[char])
    requires
        n <= s@.len(),
    ensures
        r@ == s@.take(n as int),
{
    assert(s@.subrange(0, n as int) == s@.take(n as int));
    slice_subrange(s, 0, n)
}

/// What follows `lit` in `s`, where `s` begins with it.
pub fn strip_prefix<'a>(s: &'a [char], lit: &str) -> (r: Option<&'a [char]>)
    ensures
        match r {
            Some(t) => starts(s@, lit@) && t@ == s@.skip(lit@.len() as int),
            None => !starts(s@, lit@),
        },
{
    let pat = chars_of(lit);
    if starts_with(s, lit) {
        Some(rest(s, pat.len()))
    } else {
        None
    }
}

/// What stands before `lit` in `s`, where `s` ends with it.
pub fn strip_suffix<'a>(s: &'a [char], lit: &str) -> (r: Option<&'a [char]>)
    ensures
        match r {
            Some(t) => ends(s@, lit@) && t@ == s@.take(s@.len() - lit@.len()),
            None => !ends(s@, lit@),
        },
{
    let pat = chars_of(lit);
    if ends_with(s, lit) {
        Some(first(s, s.len() - pat.len()))
    } else {
        None
    }
}

/// The place of the first `c` in `s`.
pub open spec fn index_of(s: Seq<char>, c: char) -> Option<int> {
    find(s, seq![c])
}

/// The place of the first `c` in `s`.
pub fn position_of(s: &[char], c: char) -> (r: Option<usize>)
    ensures
        match r {
            Some(k) => index_of(s@, c) == Some(k as int) && k < s@.len() && s@[k as int] == c,
            None => index_of(s@, c) is None && !s@.contains(c),
        },
{
    let mut pat: Vec<char> = Vec::new();
    pat.push(c);
    assert(pat@ == seq![c]);
    proof {
        lemma_find_from(s@, pat@, 0);
        assert(pat@[0] == c);
        assert forall|i: int| 0 <= i < s@.len() && s@[i] == c implies occurs_at(s@, pat@, i) by {
            assert(s@.subrange(i, i + 1) == pat@);
        }
        assert forall|i: int| occurs_at(s@, pat@, i) implies s@[i] == c by {
            assert(s@.subrange(i, i + 1)[0] == s@[i]);
        }
    }
    position(s, pat.as_slice())
}

/// What stands behind a text does not move the first `c` in it.
pub proof fn lemma_index_of_front(a: Seq<char>, b: Seq<char>, c: char)
    requires
        index_of(a, c) is Some,
    ensures
        index_of(a + b, c) == index_of(a, c),
        0 <= index_of(a, c)->0 < a.len(),
{
    let pat = seq![c];
    lemma_find_from(a, pat, 0);
    lemma_find_from(a + b, pat, 0);
    let k = index_of(a, c)->0;
    assert forall|j: int| 0 <= j < a.len() implies occurs_at(a + b, pat, j) == #[trigger] occurs_at(
        a,
        pat,
        j,
    ) by {
        assert((a + b).subrange(j, j + 1) == a.subrange(j, j + 1));
    }
    assert(occurs_at(a + b, pat, k));
    let m = index_of(a + b, c)->0;
    assert(m <= k);
    assert(occurs_at(a + b, pat, m) == occurs_at(a, pat, m));
}

/// The first `c` behind what holds none.
pub proof fn lemma_index_of(a: Seq<char>, c: char, b: Seq<char>)
    requires
        forall|i: int| 0 <= i < a.len() ==> #[trigger] a[i] != c,
    ensures
        index_of(a + seq![c] + b, c) == Some(a.len() as int),
        (a + seq![c] + b).take(a.len() as int) == a,
        (a + seq![c] + b).skip(a.len() as int + 1) == b,
{
    let s = a + seq![c] + b;
    let n = a.len() as int;
    let pat = seq![c];
    assert(s.subrange(n, n + 1) == pat);
    assert(occurs_at(s, pat, n));
    assert forall|j: int| 0 <= j < n implies !occurs_at(s, pat, j) by {
        if occurs_at(s, pat, j) {
            assert(s.subrange(j, j + 1)[0] == s[j]);
            assert(s[j] == a[j]);
        }
    }
    lemma_find_from(s, pat, 0);
    assert(s.take(n) == a);
    assert(s.skip(n + 1) == b);
}

// ---- decimal numbers --------------------------------------------------------

/// The character of the digit `d`.
pub open spec fn digit_char(d: int) -> char {
    ('0' as u8 + d) as char
}

/// `n` in decimal, without leading zeros.
pub open spec fn decimal(n: nat) -> Seq<char>
    decreases n,
{
    if n < 10 {
        seq![digit_char(n as int)]
    } else {
        decimal(n / 10).push(digit_char((n % 10) as int))
    }
}

/// `n` in decimal, with a minus sign in front where it is negative.
pub open spec fn signed_decimal(n: int) -> Seq<char> {
    if n < 0 {
        seq!['-'] + decimal((-n) as nat)
    } else {
        decimal(n as nat)
    }
}

/// Whether `s` holds digits alone, and at least one.
pub open spec fn all_digits(s: Seq<char>) -> bool {
    s.len() > 0 && forall|i: int| 0 <= i < s.len() ==> is_digit(#[trigger] s[i])
}

/// What the digits `s` stand for.
pub open spec fn value(s: Seq<char>) -> nat
    decreases s.len(),
{
    if s.len() == 0 {
        0
    } else {
        value(s.drop_last()) * 10 + (s.last() as nat - '0' as nat) as nat
    }
}

/// The unsigned number not above `max` that `s` spells: digits, after at most
/// one plus sign.
pub open spec fn unsigned_of(s: Seq<char>, max: int) -> Option<int> {
    let d = if s.len() > 0 && s[0] == '+' {
        s.skip(1)
    } else {
        s
    };
    if all_digits(d) && value(d) <= max {
        Some(value(d) as int)
    } else {
        None
    }
}

/// The number from `min` to `max` that `s` spells: digits, after at most one
/// plus or minus sign.
pub open spec fn signed_of(s: Seq<char>, min: int, max: int) -> Option<int> {
    if s.len() > 0 && s[0] == '-' {
        let d = s.skip(1);
        if all_digits(d) && -(value(d) as int) >= min {
            Some(-(value(d) as int))
        } else {
            None
        }
    } else {
        unsigned_of(s, max)
    }
}

/// `n` in decimal.
pub fn decimal_of(n: u64) -> (r: Vec<char>)
    ensures
        r@ == decimal(n as nat),
    decreases n,
{
    if n < 10 {
        let mut r: Vec<char> = Vec::new();
        r.push((48u8 + n as u8) as char);
        assert(r@ == decimal(n as nat));
        r
    } else {
        let mut r = decimal_of(n / 10);
        r.push((48u8 + (n % 10) as u8) as char);
        r
    }
}

/// `n` in decimal, with its sign.
pub fn signed_decimal_of(n: i64) -> (r: Vec<char>)
    ensures
        r@ == signed_decimal(n as int),
{
    if n < 0 {
        let mut r: Vec<char> = Vec::new();
        r.push('-');
        let m: u64 = (-(n as i128)) as u64;
        let d = decimal_of(m);
        extend(&mut r, d.as_slice());
        assert(r@ == seq!['-'] + decimal((-n) as nat));
        r
    } else {
        decimal_of(n as u64)
    }
}

/// More digits never make a number smaller.
pub proof fn lemma_value_grows(s: Seq<char>, k: int)
    requires
        0 <= k <= s.len(),
    ensures
        value(s.take(k)) <= value(s),
    decreases s.len() - k,
{
    if k < s.len() {
        lemma_value_grows(s, k + 1);
        assert(s.take(k + 1).drop_last() == s.take(k));
    } else {
        assert(s.take(k) == s);
    }
}

/// What the digits `s` stand for, where they are digits and their number fits.
pub fn digits_value(s: &[char]) -> (r: Option<u64>)
    ensures
        r matches Some(v) ==> all_digits(s@) && value(s@) == v,
        r is None ==> !all_digits(s@) || value(s@) > u64::MAX,
{
    if s.len() == 0 {
        return None;
    }
    let mut v: u64 = 0;
    for i in 0..s.len()
        invariant
            v == value(s@.take(i as int)),
            forall|j: int| 0 <= j < i ==> is_digit(#[trigger] s@[j]),
    {
        let c = s[i];
        if !digit(c) {
            return None;
        }
        let d: u64 = (c as u32 - 48) as u64;
        proof {
            lemma_value_grows(s@, i + 1);
            assert(s@.take(i + 1).drop_last() == s@.take(i as int));
            assert(value(s@.take(i + 1)) == v * 10 + d);
        }
        if v > (0xffff_ffff_ffff_ffffu64 - d) / 10 {
            return None;
        }
        v = v * 10 + d;
    }
    assert(s@.take(s@.len() as int) == s@);
    Some(v)
}

/// The number that `s` spells, read as a `u64`.
pub fn parse_u64(s: &[char]) -> (r: Option<u64>)
    ensures
        match r {
            Some(v) => unsigned_of(s@, u64::MAX as int) == Some(v as int),
            None => unsigned_of(s@, u64::MAX as int) is None,
        },
{
    if s.len() > 0 && s[0] == '+' {
        digits_value(rest(s, 1))
    } else {
        digits_value(s)
    }
}

/// The number that `s` spells, read as a `usize`.
pub fn parse_usize(s: &[char]) -> (r: Option<usize>)
    ensures
        match r {
            Some(v) => unsigned_of(s@, usize::MAX as int) == Some(v as int),
            None => unsigned_of(s@, usize::MAX as int) is None,
        },
{
    match parse_u64(s) {
        Some(v) => if v <= usize::MAX as u64 {
            Some(v as usize)
        } else {
            None
        },
        None => None,
    }
}

/// The number that `s` spells, read as an `i64`.
pub fn parse_i64(s: &[char]) -> (r: Option<i64>)
    ensures
        match r {
            Some(v) => signed_of(s@, i64::MIN as int, i64::MAX as int) == Some(v as int),
            None => signed_of(s@, i64::MIN as int, i64::MAX as int) is None,
        },
{
    if s.len() > 0 && s[0] == '-' {
        match digits_value(rest(s, 1)) {
            Some(v) => if v <= 0x8000_0000_0000_0000 {
                Some((-(v as i128)) as i64)
            } else {
                None
            },
            None => None,
        }
    } else {
        match parse_u64(s) {
            Some(v) => if v <= 0x7fff_ffff_ffff_ffff {
                Some(v as i64)
            } else {
                None
            },
            None => None,
        }
    }
}

/// The number that `s` spells, read as an `i32`.
pub fn parse_i32(s: &[char]) -> (r: Option<i32>)
    ensures
        match r {
            Some(v) => signed_of(s@, i32::MIN as int, i32::MAX as int) == Some(v as int),
            None => signed_of(s@, i32::MIN as int, i32::MAX as int) is None,
        },
{
    match parse_i64(s) {
        Some(v) => if -0x8000_0000 <= v && v <= 0x7fff_ffff {
            Some(v as i32)
        } else {
            None
        },
        None => None,
    }
}

// ---- numbers written and read back ------------------------------------------

/// A number written in decimal is digits, and reads back as itself.
pub proof fn lemma_decimal_value(n: nat)
    ensures
        all_digits(decimal(n)),
        value(decimal(n)) == n,
    decreases n,
{
    if n < 10 {
        let s = decimal(n);
        assert(s.drop_last() == Seq::<char>::empty());
        assert(value(s.drop_last()) == 0);
    } else {
        lemma_decimal_value(n / 10);
        let s = decimal(n);
        assert(s.drop_last() == decimal(n / 10));
    }
}

/// A number written with its sign reads back as itself.
pub proof fn lemma_signed_decimal_value(n: int, min: int, max: int)
    requires
        min <= n <= max,
    ensures
        signed_of(signed_decimal(n), min, max) == Some(n),
{
    if n < 0 {
        lemma_decimal_value((-n) as nat);
        let s = signed_decimal(n);
        assert(s.skip(1) == decimal((-n) as nat));
    } else {
        lemma_decimal_value(n as nat);
        assert(is_digit(decimal(n as nat)[0]));
    }
}

// ---- letter case ------------------------------------------------------------

/// Whether every character of `s` is an ASCII one.
pub open spec fn is_ascii(s: Seq<char>) -> bool {
    forall|i: int| 0 <= i < s.len() ==> (#[trigger] s[i] as u32) < 128
}

/// What `str::to_lowercase` makes of a text without white space that is not all
/// ASCII.
pub uninterp spec fn unicode_lowercase(s: Seq<char>) -> Seq<char>;

/// What `char::to_uppercase` makes of a character that is not ASCII.
pub uninterp spec fn unicode_uppercase(c: char) -> Seq<char>;

/// Where the last white space of `s` is.
pub open spec fn last_white(s: Seq<char>) -> Option<int>
    decreases s.len(),
{
    if s.len() == 0 {
        None
    } else if is_white(s.last()) {
        Some(s.len() - 1)
    } else {
        last_white(s.drop_last())
    }
}

/// The last white space is one, and none follows it.
pub proof fn lemma_last_white(s: Seq<char>)
    ensures
        last_white(s) matches Some(i) ==> 0 <= i < s.len() && is_white(s[i]) && last_white(
            s.skip(i + 1),
        ) is None,
        last_white(s) is None <==> is_solid(s),
    decreases s.len(),
{
    if s.len() > 0 {
        lemma_last_white(s.drop_last());
        if is_white(s.last()) {
            assert(!is_solid(s)) by {
                assert(is_white(s[s.len() - 1]));
            }
            assert(s.skip(s.len() as int).len() == 0);
        } else if let Some(i) = last_white(s.drop_last()) {
            assert(is_white(s[i]));
            assert(s.skip(i + 1).drop_last() == s.drop_last().skip(i + 1));
        } else {
            assert forall|i: int| 0 <= i < s.len() implies !is_white(#[trigger] s[i]) by {
                if i < s.len() - 1 {
                    assert(s.drop_last()[i] == s[i]);
                }
            }
        }
    }
}

/// `s` in lower case: letter by letter where it is all ASCII, else by the rules
/// of Unicode. White space has no case and parts words, and what stands on one side of
/// it does not matter on the other.
pub open spec fn lowercase(s: Seq<char>) -> Seq<char>
    decreases s.len(),
{
    if is_ascii(s) {
        s.map_values(|c: char| lower_char(c))
    } else {
        match last_white(s) {
            Some(i) => {
                proof {
                    lemma_last_white(s);
                }
                lowercase(s.take(i)) + seq![s[i]] + lowercase(s.skip(i + 1))
            },
            None => unicode_lowercase(s),
        }
    }
}

/// `c` in upper case: one letter where it is ASCII, else by the rules of
/// Unicode, which may give several.
pub open spec fn uppercase(c: char) -> Seq<char> {
    if (c as u32) < 128 {
        seq![upper_char(c)]
    } else {
        unicode_uppercase(c)
    }
}

/// `str::to_lowercase`. Of an ASCII text it moves each of the letters A to Z to
/// lower case and keeps the rest; what it makes of any other text is a function
/// of that text. It goes character by character, but for the letter sigma, of which it
/// looks at whether it ends its word: so white space stays, and the texts on its two
/// sides are lowered each on its own.
#[verifier::external_body]
pub(crate) fn to_lowercase(s: &str) -> (r: String)
    ensures
        r@ == lowercase(s@),
        !is_ascii(s@) && is_solid(s@) ==> r@ == unicode_lowercase(s@),
{
    s.to_lowercase()
}

/// `char::to_uppercase`, its characters collected. An ASCII letter gives its
/// upper case, any other ASCII character itself; what another character gives
/// is a function of that character.
#[verifier::external_body]
pub(crate) fn to_uppercase(c: char) -> (r: String)
    ensures
        (c as u32) < 128 ==> r@ == seq![upper_char(c)],
        (c as u32) >= 128 ==> r@ == unicode_uppercase(c),
{
    c.to_uppercase().to_string()
}

// ---- what splitting and joining give back -----------------------------------

/// Whether `w` holds no white space.
pub open spec fn is_solid(w: Seq<char>) -> bool {
    forall|i: int| 0 <= i < w.len() ==> !is_white(#[trigger] w[i])
}

/// Whether `w` is a word: not empty, and without white space.
pub open spec fn is_word(w: Seq<char>) -> bool {
    w.len() > 0 && is_solid(w)
}

/// There is always at least one piece.
pub proof fn lemma_split_white_some(s: Seq<char>)
    ensures
        split_white(s).len() > 0,
    decreases s.len(),
{
    if s.len() > 0 {
        lemma_split_white_some(s.drop_last());
    }
}

/// What holds no white space lengthens the last piece.
pub proof fn lemma_split_white_append(p: Seq<char>, w: Seq<char>)
    requires
        is_solid(w),
    ensures
        split_white(p + w) == split_white(p).drop_last().push(split_white(p).last() + w),
    decreases w.len(),
{
    lemma_split_white_some(p);
    if w.len() == 0 {
        assert(p + w == p);
        assert(split_white(p).last() + w == split_white(p).last());
        assert(split_white(p) == split_white(p).drop_last().push(split_white(p).last()));
    } else {
        let v = w.drop_last();
        assert forall|i: int| 0 <= i < v.len() implies !is_white(#[trigger] v[i]) by {
            assert(!is_white(w[i]));
        }
        lemma_split_white_append(p, v);
        assert((p + w).drop_last() == p + v);
        assert(!is_white(w[w.len() - 1]));
        let before = split_white(p + v);
        assert(before.drop_last() == split_white(p).drop_last());
        assert(before.last().push(w.last()) == split_white(p).last() + w);
    }
}

/// A word behind a space is one more word.
pub proof fn lemma_words_push(p: Seq<char>, w: Seq<char>)
    requires
        is_word(w),
    ensures
        words(p + seq![' '] + w) == words(p).push(w),
        words(w) == seq![w],
{
    let q = p + seq![' '];
    assert(q.drop_last() == p);
    lemma_split_white_append(q, w);
    assert(split_white(q).drop_last() == split_white(p));
    assert(split_white(q).last() + w == w);
    lemma_non_empty_push(split_white(p), w);
    let e = Seq::<char>::empty();
    lemma_split_white_append(e, w);
    assert(e + w == w);
    assert(split_white(e) == seq![e]);
    assert(split_white(e).drop_last() == Seq::<Seq<char>>::empty());
    assert(split_white(w) == Seq::<Seq<char>>::empty().push(w));
    lemma_non_empty_push(Seq::empty(), w);
    reveal(Seq::filter);
    assert(words(w) == seq![w]);
}

/// Words joined by spaces are those words.
pub proof fn lemma_words_join(ws: Seq<Seq<char>>)
    requires
        forall|i: int| 0 <= i < ws.len() ==> is_word(#[trigger] ws[i]),
    ensures
        words(join(ws, seq![' '])) == ws,
    decreases ws.len(),
{
    if ws.len() == 0 {
        reveal(Seq::filter);
        let e = Seq::<char>::empty();
        assert(split_white(e) == seq![e]);
        assert(seq![e] == Seq::<Seq<char>>::empty().push(e));
        lemma_non_empty_push(Seq::empty(), e);
        assert(words(e) == ws);
    } else if ws.len() == 1 {
        assert(is_word(ws[0]));
        lemma_words_push(Seq::empty(), ws[0]);
        assert(ws == seq![ws[0]]);
    } else {
        let v = ws.drop_last();
        assert forall|i: int| 0 <= i < v.len() implies is_word(#[trigger] v[i]) by {
            assert(is_word(ws[i]));
        }
        lemma_words_join(v);
        assert(is_word(ws[ws.len() - 1]));
        lemma_words_push(join(v, seq![' ']), ws.last());
    }
}

/// No piece between white space holds white space.
pub proof fn lemma_split_white_solid(s: Seq<char>)
    ensures
        forall|i: int| 0 <= i < split_white(s).len() ==> is_solid(#[trigger] split_white(s)[i]),
    decreases s.len(),
{
    if s.len() > 0 {
        let before = split_white(s.drop_last());
        lemma_split_white_solid(s.drop_last());
        lemma_split_white_some(s.drop_last());
        assert forall|i: int| 0 <= i < split_white(s).len() implies is_solid(
            #[trigger] split_white(s)[i],
        ) by {
            if i < before.len() - 1 {
                assert(is_solid(before[i]));
            } else {
                assert(is_solid(before[before.len() - 1]));
            }
        }
    }
}

/// What holds of every piece holds of every piece that is kept.
pub proof fn lemma_non_empty_keeps(p: Seq<Seq<char>>, f: spec_fn(Seq<char>) -> bool)
    requires
        forall|i: int| 0 <= i < p.len() ==> f(#[trigger] p[i]),
    ensures
        forall|i: int| 0 <= i < non_empty(p).len() ==> f(#[trigger] non_empty(p)[i]),
    decreases p.len(),
{
    reveal(Seq::filter);
    if p.len() > 0 {
        let q = p.drop_last();
        assert forall|i: int| 0 <= i < q.len() implies f(#[trigger] q[i]) by {
            assert(f(p[i]));
        }
        lemma_non_empty_keeps(q, f);
        assert(f(p[p.len() - 1]));
        assert(p == q.push(p.last()));
        lemma_non_empty_push(q, p.last());
    }
}

/// The words of a text are words.
pub proof fn lemma_words_are_words(s: Seq<char>)
    ensures
        forall|i: int| 0 <= i < words(s).len() ==> is_word(#[trigger] words(s)[i]),
{
    lemma_split_white_solid(s);
    lemma_non_empty_keeps(split_white(s), |w: Seq<char>| is_solid(w));
    lemma_non_empty_all(split_white(s));
}

/// What does not begin or end with white space is trimmed already.
pub proof fn lemma_trim_tight(s: Seq<char>)
    requires
        s.len() > 0 ==> !is_white(s[0]) && !is_white(s.last()),
    ensures
        trim(s) == s,
{
}

/// What is left of the front does not begin with white space.
proof fn lemma_trim_start_tight(s: Seq<char>)
    ensures
        trim_start(s).len() > 0 ==> !is_white(trim_start(s)[0]),
    decreases s.len(),
{
    if s.len() > 0 && is_white(s[0]) {
        lemma_trim_start_tight(s.skip(1));
    }
}

/// What is left of the back does not end with white space, and begins as before.
proof fn lemma_trim_end_tight(s: Seq<char>)
    ensures
        trim_end(s).len() > 0 ==> !is_white(trim_end(s).last()) && s.len() > 0 && trim_end(s)[0]
            == s[0],
    decreases s.len(),
{
    if s.len() > 0 && is_white(s.last()) {
        lemma_trim_end_tight(s.drop_last());
    }
}

/// What was trimmed is trimmed.
pub proof fn lemma_trim_once(s: Seq<char>)
    ensures
        trim(trim(s)) == trim(s),
{
    lemma_trim_start_tight(s);
    lemma_trim_end_tight(trim_start(s));
    lemma_trim_tight(trim(s));
}

/// Trimming takes a white space character at the end anyway.
pub proof fn lemma_trim_drop_last(s: Seq<char>)
    requires
        s.len() > 0,
        is_white(s.last()),
    ensures
        trim(s.drop_last()) == trim(s),
    decreases s.len(),
{
    let t = s.drop_last();
    if is_white(s[0]) {
        if s.len() == 1 {
            assert(t == s.skip(1));
        } else {
            assert(t.skip(1) == s.skip(1).drop_last());
            lemma_trim_drop_last(s.skip(1));
        }
    } else {
        assert(trim_start(s) == s);
        assert(trim_start(t) == t);
    }
}

/// Trimming takes a white space character at the front anyway.
pub proof fn lemma_trim_skip_first(s: Seq<char>)
    requires
        s.len() > 0,
        is_white(s[0]),
    ensures
        trim(s.skip(1)) == trim(s),
{
}

/// What stands behind a text that is not blank does not change what is trimmed off
/// its front.
pub proof fn lemma_trim_start_front(s: Seq<char>, x: Seq<char>)
    requires
        trim_start(s).len() > 0,
    ensures
        trim_start(s + x) == trim_start(s) + x,
    decreases s.len(),
{
    assert((s + x)[0] == s[0]);
    if is_white(s[0]) {
        assert((s + x).skip(1) == s.skip(1) + x);
        lemma_trim_start_front(s.skip(1), x);
    }
}

/// What holds no separator lengthens the last piece.
pub proof fn lemma_split_append(p: Seq<char>, w: Seq<char>, sep: char)
    requires
        !w.contains(sep),
    ensures
        split(p + w, sep) == split(p, sep).drop_last().push(split(p, sep).last() + w),
    decreases w.len(),
{
    lemma_split_some(p, sep);
    if w.len() == 0 {
        assert(p + w == p);
        assert(split(p, sep).last() + w == split(p, sep).last());
        assert(split(p, sep) == split(p, sep).drop_last().push(split(p, sep).last()));
    } else {
        let v = w.drop_last();
        assert(!v.contains(sep)) by {
            if v.contains(sep) {
                let i = choose|i: int| 0 <= i < v.len() && v[i] == sep;
                assert(w[i] == sep);
            }
        }
        lemma_split_append(p, v, sep);
        assert((p + w).drop_last() == p + v);
        assert(w[w.len() - 1] != sep);
        let before = split(p + v, sep);
        assert(before.drop_last() == split(p, sep).drop_last());
        assert(before.last().push(w.last()) == split(p, sep).last() + w);
    }
}

/// A separator between two texts keeps their pieces apart.
pub proof fn lemma_split_between(a: Seq<char>, b: Seq<char>, sep: char)
    ensures
        split(a.push(sep) + b, sep) == split(a, sep) + split(b, sep),
    decreases b.len(),
{
    let s = a.push(sep) + b;
    if b.len() == 0 {
        assert(s.drop_last() == a);
        assert(b == Seq::<char>::empty());
        assert(split(b, sep) == seq![Seq::<char>::empty()]);
        assert(split(s, sep) == split(a, sep) + split(b, sep));
    } else {
        let c = b.drop_last();
        lemma_split_between(a, c, sep);
        lemma_split_some(c, sep);
        assert(s.drop_last() == a.push(sep) + c);
        assert((split(a, sep) + split(c, sep)).last() == split(c, sep).last());
        assert((split(a, sep) + split(c, sep)).drop_last() == split(a, sep) + split(
            c,
            sep,
        ).drop_last());
        assert(split(s, sep) == split(a, sep) + split(b, sep));
    }
}

/// A character in front that is no separator lengthens the first piece.
pub proof fn lemma_split_front(w: char, s: Seq<char>, sep: char)
    requires
        w != sep,
    ensures
        split(s, sep).len() > 0,
        split(seq![w] + s, sep) == split(s, sep).update(0, seq![w] + split(s, sep)[0]),
    decreases s.len(),
{
    let t = seq![w] + s;
    lemma_split_some(s, sep);
    if s.len() == 0 {
        assert(t.drop_last() == s);
        assert(split(s, sep) == seq![s]);
        assert(s.push(w) == seq![w] + s);
        assert(split(t, sep) == split(s, sep).drop_last().push(s.push(w)));
        assert(split(t, sep) == split(s, sep).update(0, seq![w] + split(s, sep)[0]));
    } else {
        let r = s.drop_last();
        lemma_split_front(w, r, sep);
        lemma_split_some(r, sep);
        assert(t.drop_last() == seq![w] + r);
        let before = split(r, sep);
        let now = before.update(0, seq![w] + before[0]);
        if s.last() == sep {
            assert(split(t, sep) == now.push(Seq::empty()));
        } else {
            assert(split(t, sep) == now.drop_last().push(now.last().push(s.last())));
            if before.len() == 1 {
                assert((seq![w] + before[0]).push(s.last()) == seq![w] + before[0].push(s.last()));
            }
        }
        assert(split(t, sep) == split(s, sep).update(0, seq![w] + split(s, sep)[0]));
    }
}

/// No piece holds the separator.
pub proof fn lemma_split_free(s: Seq<char>, sep: char)
    ensures
        forall|i: int| 0 <= i < split(s, sep).len() ==> !(#[trigger] split(s, sep)[i]).contains(sep),
    decreases s.len(),
{
    if s.len() > 0 {
        let before = split(s.drop_last(), sep);
        lemma_split_free(s.drop_last(), sep);
        lemma_split_some(s.drop_last(), sep);
        assert forall|i: int| 0 <= i < split(s, sep).len() implies !(#[trigger] split(
            s,
            sep,
        )[i]).contains(sep) by {
            if i < before.len() - 1 {
                assert(!before[i].contains(sep));
            } else {
                let last = before[before.len() - 1];
                assert(!last.contains(sep));
                if s.last() != sep {
                    let w = last.push(s.last());
                    if w.contains(sep) {
                        let j = choose|j: int| 0 <= j < w.len() && w[j] == sep;
                        assert(last[j] == sep);
                    }
                }
            }
        }
    }
}

/// No line holds a line feed.
pub proof fn lemma_lines_free(s: Seq<char>)
    ensures
        forall|i: int| 0 <= i < lines(s).len() ==> !(#[trigger] lines(s)[i]).contains('\n'),
{
    let p = split(s, '\n');
    lemma_split_free(s, '\n');
    lemma_split_some(s, '\n');
    assert forall|i: int| 0 <= i < lines(s).len() implies !(#[trigger] lines(s)[i]).contains(
        '\n',
    ) by {
        assert(!p[i].contains('\n'));
        if lines(s)[i].contains('\n') {
            let j = choose|j: int| 0 <= j < lines(s)[i].len() && lines(s)[i][j] == '\n';
            assert(p[i][j] == '\n');
        }
    }
}

// ---- lower case, piece by piece ---------------------------------------------

/// The last white space of a text is the last behind the one that is shown, or that.
proof fn lemma_last_white_between(a: Seq<char>, w: char, b: Seq<char>)
    requires
        is_white(w),
    ensures
        last_white(a.push(w) + b) == match last_white(b) {
            Some(j) => Some(a.len() + 1 + j),
            None => Some(a.len() as int),
        },
    decreases b.len(),
{
    let s = a.push(w) + b;
    if b.len() == 0 {
        assert(s == a.push(w));
    } else {
        assert(s.last() == b.last());
        assert(s.drop_last() == a.push(w) + b.drop_last());
        lemma_last_white_between(a, w, b.drop_last());
    }
}

/// The pieces of an ASCII text are ASCII.
proof fn lemma_ascii_pieces(s: Seq<char>, i: int)
    requires
        is_ascii(s),
        0 <= i < s.len(),
        is_white(s[i]),
    ensures
        lowercase(s) == lowercase(s.take(i)) + seq![s[i]] + lowercase(s.skip(i + 1)),
{
    assert forall|k: int| 0 <= k < i implies (#[trigger] s.take(i)[k] as u32) < 128 by {
        assert(s.take(i)[k] == s[k]);
    }
    assert forall|k: int| 0 <= k < s.len() - i - 1 implies (#[trigger] s.skip(i + 1)[k] as u32)
        < 128 by {
        assert(s.skip(i + 1)[k] == s[i + 1 + k]);
    }
    assert(lowercase(s) =~= lowercase(s.take(i)) + seq![s[i]] + lowercase(s.skip(i + 1)));
}

/// The texts on the two sides of white space are lowered each on its own.
pub proof fn law_white_space_parts_letter_case(a: Seq<char>, w: char, b: Seq<char>)
    requires
        is_white(w),
    ensures
        lowercase(a.push(w) + b) == lowercase(a).push(w) + lowercase(b),
    decreases b.len(),
{
    let s = a.push(w) + b;
    let n = a.len() as int;
    assert(s.take(n) == a && s[n] == w && s.skip(n + 1) == b);
    if is_ascii(s) {
        lemma_ascii_pieces(s, n);
    } else {
        lemma_last_white_between(a, w, b);
        lemma_last_white(b);
        if let Some(j) = last_white(b) {
            let x = b.take(j);
            let y = b.skip(j + 1);
            let i = n + 1 + j;
            assert(s.take(i) == a.push(w) + x);
            assert(s[i] == b[j]);
            assert(s.skip(i + 1) == y);
            law_white_space_parts_letter_case(a, w, x);
            assert(lowercase(b) == lowercase(x) + seq![b[j]] + lowercase(y)) by {
                if is_ascii(b) {
                    lemma_ascii_pieces(b, j);
                }
            }
        }
    }
    assert(lowercase(a) + seq![w] + lowercase(b) == lowercase(a).push(w) + lowercase(b));
}

/// A text in lower case holds its trimmed self in lower case.
pub proof fn lemma_trimmed_in_lower_case(s: Seq<char>)
    ensures
        has(lowercase(s), lowercase(trim(s))),
{
    let t = trim_start(s);
    let lead = lemma_lower_lead(s);
    let tail = lemma_lower_tail(t);
    let low = lowercase(s);
    let needle = lowercase(trim(s));
    assert(low.subrange(lead.len() as int, (lead.len() + needle.len()) as int) == needle);
    assert(occurs_at(low, needle, lead.len() as int));
}

/// Leading white space stays in front.
proof fn lemma_lower_lead(s: Seq<char>) -> (lead: Seq<char>)
    ensures
        lowercase(s) == lead + lowercase(trim_start(s)),
    decreases s.len(),
{
    let e = Seq::<char>::empty();
    if s.len() > 0 && is_white(s[0]) {
        let lead = lemma_lower_lead(s.skip(1));
        law_white_space_parts_letter_case(e, s[0], s.skip(1));
        assert(e.push(s[0]) + s.skip(1) == s);
        assert(lowercase(e) == e);
        assert(lowercase(s) == (seq![s[0]] + lead) + lowercase(trim_start(s)));
        seq![s[0]] + lead
    } else {
        assert(e + lowercase(s) == lowercase(s));
        e
    }
}

/// Trailing white space stays behind.
proof fn lemma_lower_tail(s: Seq<char>) -> (tail: Seq<char>)
    ensures
        lowercase(s) == lowercase(trim_end(s)) + tail,
    decreases s.len(),
{
    let e = Seq::<char>::empty();
    if s.len() > 0 && is_white(s.last()) {
        let tail = lemma_lower_tail(s.drop_last());
        law_white_space_parts_letter_case(s.drop_last(), s.last(), e);
        assert(s.drop_last().push(s.last()) + e == s);
        assert(lowercase(e) == e);
        assert(lowercase(s) == lowercase(trim_end(s)) + tail.push(s.last()));
        tail.push(s.last())
    } else {
        assert(lowercase(s) + e == lowercase(s));
        e
    }
}

// ---- what the parts of texts are --------------------------------------------

/// White space is the characters that Unicode calls so, and no others.
pub proof fn law_white_space(c: char)
    ensures
        is_white(c) <==> c == '\u{9}' || c == '\u{a}' || c == '\u{b}' || c == '\u{c}' || c == '\u{d}'
            || c == ' ' || c == '\u{85}' || c == '\u{a0}' || c == '\u{1680}' || ('\u{2000}' <= c
            <= '\u{200a}') || c == '\u{2028}' || c == '\u{2029}' || c == '\u{202f}' || c
            == '\u{205f}' || c == '\u{3000}',
{
}

/// The case of letters: those from A to Z and from a to z are each other's, thirty-two
/// apart, and no other character has one.
pub proof fn law_letter_case(c: char)
    ensures
        'A' <= c <= 'Z' ==> lower_char(c) as u32 == c as u32 + 32,
        !('A' <= c <= 'Z') ==> lower_char(c) == c,
        'a' <= c <= 'z' ==> upper_char(c) as u32 == c as u32 - 32,
        !('a' <= c <= 'z') ==> upper_char(c) == c,
{
}

/// Trimming takes the white space at the ends, and nothing else.
pub proof fn law_trimming(a: Seq<char>, x: Seq<char>, b: Seq<char>)
    requires
        forall|i: int| 0 <= i < a.len() ==> is_white(#[trigger] a[i]),
        forall|i: int| 0 <= i < b.len() ==> is_white(#[trigger] b[i]),
        x.len() > 0 ==> !is_white(x[0]) && !is_white(x.last()),
    ensures
        trim(a + x + b) == x,
    decreases a.len() + b.len(),
{
    let s = a + x + b;
    if a.len() > 0 {
        assert(is_white(a[0]));
        assert(s[0] == a[0]);
        lemma_trim_skip_first(s);
        let c = a.skip(1);
        assert forall|i: int| 0 <= i < c.len() implies is_white(#[trigger] c[i]) by {
            assert(is_white(a[i + 1]));
        }
        assert(s.skip(1) == c + x + b);
        law_trimming(c, x, b);
    } else if b.len() > 0 {
        assert(is_white(b[b.len() - 1]));
        assert(s.last() == b[b.len() - 1]);
        lemma_trim_drop_last(s);
        let c = b.drop_last();
        assert forall|i: int| 0 <= i < c.len() implies is_white(#[trigger] c[i]) by {
            assert(is_white(b[i]));
        }
        assert(s.drop_last() == a + x + c);
        law_trimming(a, x, c);
    } else {
        assert(s == x);
        lemma_trim_tight(x);
    }
}

/// A line ends with a line feed, and a carriage return in front of that is none of it.
pub proof fn law_lines(l: Seq<char>, rest: Seq<char>)
    requires
        !l.contains('\n'),
    ensures
        lines(Seq::empty()) == Seq::<Seq<char>>::empty(),
        l.len() > 0 ==> lines(l) == seq![l],
        lines(l.push('\n') + rest) == seq![
            if l.len() > 0 && l.last() == '\r' {
                l.drop_last()
            } else {
                l
            },
        ] + lines(rest),
{
    let e = Seq::<char>::empty();
    let none = Seq::<Seq<char>>::empty();
    let f = |l: Seq<char>| strip_cr(l);
    assert(split(e, '\n') == seq![e]);
    assert(seq![e].drop_last() == none);
    assert(none.map_values(f) == none);
    lemma_split_append(e, l, '\n');
    assert(e + l == l);
    assert(split(l, '\n') == seq![l]);
    assert(seq![l].drop_last() == none);
    assert(none.push(l) == seq![l]);
    lemma_split_between(l, rest, '\n');
    lemma_split_some(rest, '\n');
    let p = split(rest, '\n');
    let all = seq![l] + p;
    assert(all.last() == p.last());
    assert(all.drop_last() == seq![l] + p.drop_last());
    assert((seq![l] + p.drop_last()).map_values(f) == seq![strip_cr(l)] + p.drop_last().map_values(
        f,
    ));
    let ended = p.drop_last().map_values(f);
    if p.last().len() > 0 {
        assert((seq![strip_cr(l)] + ended).push(p.last()) == seq![strip_cr(l)] + ended.push(
            p.last(),
        ));
    }
}

/// Numbers in decimal: the last digit is what is left over ten, in front of it stands the
/// rest of the number, and they are read as they are written.
pub proof fn law_decimals(n: nat, max: int)
    ensures
        decimal(n).last() as u32 == 48 + n % 10,
        n < 10 ==> decimal(n).len() == 1,
        n >= 10 ==> decimal(n).drop_last() == decimal(n / 10),
        n <= max ==> unsigned_of(decimal(n), max) == Some(n as int),
        n > max ==> unsigned_of(decimal(n), max) is None,
        signed_decimal(-(n as int)) == if n == 0 {
            decimal(0)
        } else {
            seq!['-'] + decimal(n)
        },
{
    lemma_decimal_value(n);
    if n >= 10 {
        assert(decimal(n).drop_last() == decimal(n / 10));
    }
    assert(is_digit(decimal(n)[0]));
}

/// Only digits, behind at most one plus sign, are a number.
pub proof fn law_numbers_are_digits(s: Seq<char>, i: int, max: int)
    requires
        0 <= i < s.len(),
        !('0' <= s[i] <= '9'),
        i > 0 || s[0] != '+',
    ensures
        unsigned_of(s, max) is None,
        unsigned_of(Seq::empty(), max) is None,
{
    if s[0] == '+' {
        assert(s.skip(1)[i - 1] == s[i]);
    }
}

/// What is found is found first.
pub proof fn law_the_first_is_found(s: Seq<char>, pat: Seq<char>)
    ensures
        match find(s, pat) {
            Some(k) => 0 <= k && k + pat.len() <= s.len() && s.subrange(k, (k + pat.len()) as int)
                == pat && forall|i: int, j: int|
                0 <= i < k && j == i + pat.len() ==> #[trigger] s.subrange(i, j) != pat,
            None => forall|i: int, j: int|
                0 <= i && j == i + pat.len() && j <= s.len() ==> #[trigger] s.subrange(i, j) != pat,
        },
{
    law_the_first_is_found_from(s, pat, 0);
}

/// What is found is found first, from a place on.
pub proof fn law_the_first_is_found_from(s: Seq<char>, pat: Seq<char>, at: int)
    requires
        0 <= at,
    ensures
        match find_from(s, pat, at) {
            Some(k) => at <= k && k + pat.len() <= s.len() && s.subrange(k, (k + pat.len()) as int)
                == pat && forall|i: int, j: int|
                at <= i < k && j == i + pat.len() ==> #[trigger] s.subrange(i, j) != pat,
            None => forall|i: int, j: int|
                at <= i && j == i + pat.len() && j <= s.len() ==> #[trigger] s.subrange(i, j) != pat,
        },
    decreases s.len() + 1 - at,
{
    if !(at + pat.len() > s.len() || at > s.len()) && !occurs_at(s, pat, at) {
        law_the_first_is_found_from(s, pat, at + 1);
    }
}

/// A list of texts is viewed text by text.
pub proof fn law_views(v: Seq<String>, p: Seq<Vec<char>>, i: int)
    ensures
        texts(v).len() == v.len(),
        0 <= i < v.len() ==> texts(v)[i] == v[i]@,
        pieces(p).len() == p.len(),
        0 <= i < p.len() ==> pieces(p)[i] == p[i]@,
{
}

/// White space goes from the end that is trimmed, and nothing else does.
pub proof fn law_trimming_one_end(w: char, x: Seq<char>)
    ensures
        is_white(w) ==> trim_start(seq![w] + x) == trim_start(x),
        is_white(w) ==> trim_end(x.push(w)) == trim_end(x),
        !is_white(w) ==> trim_start(seq![w] + x) == seq![w] + x,
        !is_white(w) ==> trim_end(x.push(w)) == x.push(w),
        trim_start(Seq::empty()) == Seq::<char>::empty(),
        trim_end(Seq::empty()) == Seq::<char>::empty(),
{
    assert((seq![w] + x).skip(1) == x);
    assert(x.push(w).drop_last() == x);
}

/// A text falls apart at every separator, and nowhere else.
pub proof fn law_splitting(a: Seq<char>, b: Seq<char>, sep: char)
    requires
        !a.contains(sep),
    ensures
        split(a, sep) == seq![a],
        split(a.push(sep) + b, sep) == seq![a] + split(b, sep),
{
    let e = Seq::<char>::empty();
    lemma_split_append(e, a, sep);
    assert(e + a == a);
    assert(split(e, sep) == seq![e]);
    assert(split(a, sep) == seq![a]);
    lemma_split_between(a, b, sep);
}

/// Between each two parts that are joined stands the separator.
pub proof fn law_joining(parts: Seq<Seq<char>>, x: Seq<char>, sep: Seq<char>)
    ensures
        join(Seq::empty(), sep) == Seq::<char>::empty(),
        join(seq![x], sep) == x,
        parts.len() > 0 ==> join(parts.push(x), sep) == join(parts, sep) + sep + x,
{
    assert(parts.push(x).drop_last() == parts);
}

/// Letters and digits are those of ASCII.
pub proof fn law_letters_and_digits(c: char)
    ensures
        is_digit(c) <==> 48 <= c as u32 <= 57,
        is_alpha(c) <==> 65 <= c as u32 <= 90 || 97 <= c as u32 <= 122,
        is_alnum(c) <==> is_alpha(c) || is_digit(c),
{
}

/// Numbers below zero have a minus sign in front; they are read as they are written,
/// within the limits.
pub proof fn law_signed_numbers(n: nat, min: int, max: int)
    ensures
        signed_of(seq!['-'] + decimal(n), min, max) == if -(n as int) >= min {
            Some(-(n as int))
        } else {
            None
        },
        signed_of(decimal(n), min, max) == if n <= max {
            Some(n as int)
        } else {
            None
        },
{
    law_decimals(n, max);
    lemma_decimal_value(n);
    assert((seq!['-'] + decimal(n)).skip(1) == decimal(n));
    assert(is_digit(decimal(n)[0]));
}

/// The place of a character is the first one where it stands.
pub proof fn law_the_first_place_of_a_character(s: Seq<char>, c: char)
    ensures
        match index_of(s, c) {
            Some(k) => 0 <= k < s.len() && s[k] == c && !s.take(k).contains(c),
            None => !s.contains(c),
        },
{
    law_the_first_is_found(s, seq![c]);
    match index_of(s, c) {
        Some(k) => {
            assert(s.subrange(k, k + 1)[0] == s[k]);
            if s.take(k).contains(c) {
                let i = choose|i: int| 0 <= i < k && s.take(k)[i] == c;
                assert(s.subrange(i, i + 1) == seq![c]);
            }
        },
        None => {
            if s.contains(c) {
                let i = choose|i: int| 0 <= i < s.len() && s[i] == c;
                assert(s.subrange(i, i + 1) == seq![c]);
            }
        },
    }
}

} // verus!
