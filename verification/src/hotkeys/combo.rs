//! A configured key combination, "ctrl+alt+space", in the two forms in which
//! it is registered.

use crate::text;
use vstd::prelude::*;

verus! {

/// A modifier key.
#[derive(Clone, Copy, PartialEq, Eq, Structural, Debug)]
pub enum Modifier {
    Ctrl,
    Alt,
    Shift,
    Super,
}

/// The modifier that a part names.
pub open spec fn modifier_of(p: Seq<char>) -> Option<Modifier> {
    if p == "ctrl"@ || p == "control"@ {
        Some(Modifier::Ctrl)
    } else if p == "alt"@ {
        Some(Modifier::Alt)
    } else if p == "shift"@ {
        Some(Modifier::Shift)
    } else if p == "win"@ || p == "windows"@ || p == "meta"@ || p == "cmd"@ {
        Some(Modifier::Super)
    } else {
        None
    }
}

/// The name of a modifier in an accelerator.
pub open spec fn accelerator_name(m: Modifier) -> Seq<char> {
    match m {
        Modifier::Ctrl => "Ctrl"@,
        Modifier::Alt => "Alt"@,
        Modifier::Shift => "Shift"@,
        Modifier::Super => "Super"@,
    }
}

/// The name of a modifier in a portal trigger.
pub open spec fn trigger_name(m: Modifier) -> Seq<char> {
    match m {
        Modifier::Ctrl => "CTRL"@,
        Modifier::Alt => "ALT"@,
        Modifier::Shift => "SHIFT"@,
        Modifier::Super => "LOGO"@,
    }
}

/// The keys that have names: a key's code in an accelerator and its symbol in a
/// portal trigger.
pub open spec fn named_key(p: Seq<char>) -> Option<(Seq<char>, Seq<char>)> {
    if p == "space"@ {
        Some(("Space"@, "space"@))
    } else if p == "enter"@ || p == "return"@ {
        Some(("Enter"@, "Return"@))
    } else if p == "tab"@ {
        Some(("Tab"@, "Tab"@))
    } else if p == "esc"@ || p == "escape"@ {
        Some(("Escape"@, "Escape"@))
    } else if p == "backspace"@ {
        Some(("Backspace"@, "BackSpace"@))
    } else if p == "delete"@ {
        Some(("Delete"@, "Delete"@))
    } else if p == "insert"@ {
        Some(("Insert"@, "Insert"@))
    } else if p == "home"@ {
        Some(("Home"@, "Home"@))
    } else if p == "end"@ {
        Some(("End"@, "End"@))
    } else if p == "pageup"@ {
        Some(("PageUp"@, "Page_Up"@))
    } else if p == "pagedown"@ {
        Some(("PageDown"@, "Page_Down"@))
    } else if p == "up"@ {
        Some(("ArrowUp"@, "Up"@))
    } else if p == "down"@ {
        Some(("ArrowDown"@, "Down"@))
    } else if p == "left"@ {
        Some(("ArrowLeft"@, "Left"@))
    } else if p == "right"@ {
        Some(("ArrowRight"@, "Right"@))
    } else if p == "`"@ {
        Some(("Backquote"@, "grave"@))
    } else if p == "-"@ {
        Some(("Minus"@, "minus"@))
    } else if p == "="@ {
        Some(("Equal"@, "equal"@))
    } else if p == "["@ {
        Some(("BracketLeft"@, "bracketleft"@))
    } else if p == "]"@ {
        Some(("BracketRight"@, "bracketright"@))
    } else if p == "\\"@ {
        Some(("Backslash"@, "backslash"@))
    } else if p == ";"@ {
        Some(("Semicolon"@, "semicolon"@))
    } else if p == "'"@ {
        Some(("Quote"@, "apostrophe"@))
    } else if p == ","@ {
        Some(("Comma"@, "comma"@))
    } else if p == "."@ {
        Some(("Period"@, "period"@))
    } else if p == "/"@ {
        Some(("Slash"@, "slash"@))
    } else {
        None
    }
}

/// Whether a part is one of the function keys F1 to F24, without a leading zero.
pub open spec fn is_function_key(p: Seq<char>) -> bool {
    &&& p.len() > 0
    &&& p[0] == 'f'
    &&& !(p.len() > 1 && p[1] == '0')
    &&& text::unsigned_of(p.skip(1), 255) matches Some(n) && 1 <= n <= 24
}

/// The code of the key that a part names, as accelerators spell it.
pub open spec fn key_code_of(p: Seq<char>) -> Option<Seq<char>> {
    if named_key(p) is Some {
        Some((named_key(p)->0).0)
    } else if is_function_key(p) {
        Some("F"@ + p.skip(1))
    } else if p.len() == 1 && text::is_alpha(p[0]) {
        Some("Key"@.push(text::upper_char(p[0])))
    } else if p.len() == 1 && text::is_digit(p[0]) {
        Some("Digit"@ + p)
    } else {
        None
    }
}

/// The symbol of the key that a part names, as portal triggers spell it.
pub open spec fn keysym_of(p: Seq<char>) -> Option<Seq<char>> {
    if named_key(p) is Some {
        Some((named_key(p)->0).1)
    } else if is_function_key(p) {
        Some("F"@ + p.skip(1))
    } else if p.len() == 1 && text::is_alnum(p[0]) {
        Some(p)
    } else {
        None
    }
}

/// What stands between the plus signs, without the white space round it, where
/// anything is left.
pub open spec fn parts_in(low: Seq<char>) -> Seq<Seq<char>> {
    text::non_empty(text::split(low, '+').map_values(|p: Seq<char>| text::trim(p)))
}

/// The parts of a combination: what stands between the plus signs, in lower
/// case, without the white space round it, where anything is left.
pub open spec fn parts_of(hotkey: Seq<char>) -> Seq<Seq<char>> {
    parts_in(text::lowercase(hotkey))
}

/// The modifiers among the parts, each once, in the order of their first
/// mention.
pub open spec fn modifiers(parts: Seq<Seq<char>>) -> Seq<Modifier>
    decreases parts.len(),
{
    if parts.len() == 0 {
        Seq::empty()
    } else {
        let before = modifiers(parts.drop_last());
        match modifier_of(parts.last()) {
            Some(m) => if before.contains(m) {
                before
            } else {
                before.push(m)
            },
            None => before,
        }
    }
}

/// The parts that are no modifiers, in order.
pub open spec fn keys(parts: Seq<Seq<char>>) -> Seq<Seq<char>> {
    parts.filter(|p: Seq<char>| modifier_of(p) is None)
}

/// The accelerator of a combination: its modifiers, then its last key, joined by
/// plus signs. A combination without a key, or with a key that has no code, has
/// none.
pub open spec fn accelerator_of(hotkey: Seq<char>) -> Option<Seq<char>> {
    let parts = parts_of(hotkey);
    if keys(parts).len() > 0 && forall|i: int|
        0 <= i < keys(parts).len() ==> key_code_of(#[trigger] keys(parts)[i]) is Some {
        Some(
            text::join(
                modifiers(parts).map_values(|m: Modifier| accelerator_name(m)).push(
                    key_code_of(keys(parts).last())->0,
                ),
                "+"@,
            ),
        )
    } else {
        None
    }
}

/// The portal trigger of a combination, by the same rule.
pub open spec fn trigger_of(hotkey: Seq<char>) -> Option<Seq<char>> {
    let parts = parts_of(hotkey);
    if keys(parts).len() > 0 && forall|i: int|
        0 <= i < keys(parts).len() ==> keysym_of(#[trigger] keys(parts)[i]) is Some {
        Some(
            text::join(
                modifiers(parts).map_values(|m: Modifier| trigger_name(m)).push(
                    keysym_of(keys(parts).last())->0,
                ),
                "+"@,
            ),
        )
    } else {
        None
    }
}

/// The modifier that a part names.
fn read_modifier(p: &[char]) -> (r: Option<Modifier>)
    ensures
        r == modifier_of(p@),
{
    if text::is_lit(p, "ctrl") || text::is_lit(p, "control") {
        Some(Modifier::Ctrl)
    } else if text::is_lit(p, "alt") {
        Some(Modifier::Alt)
    } else if text::is_lit(p, "shift") {
        Some(Modifier::Shift)
    } else if text::is_lit(p, "win") || text::is_lit(p, "windows") || text::is_lit(p, "meta")
        || text::is_lit(p, "cmd") {
        Some(Modifier::Super)
    } else {
        None
    }
}

/// The code and the symbol of a key that has a name.
fn read_named_key(p: &[char]) -> (r: Option<(&'static str, &'static str)>)
    ensures
        match r {
            Some(k) => named_key(p@) == Some((k.0@, k.1@)),
            None => named_key(p@) is None,
        },
{
    if text::is_lit(p, "space") {
        Some(("Space", "space"))
    } else if text::is_lit(p, "enter") || text::is_lit(p, "return") {
        Some(("Enter", "Return"))
    } else if text::is_lit(p, "tab") {
        Some(("Tab", "Tab"))
    } else if text::is_lit(p, "esc") || text::is_lit(p, "escape") {
        Some(("Escape", "Escape"))
    } else if text::is_lit(p, "backspace") {
        Some(("Backspace", "BackSpace"))
    } else if text::is_lit(p, "delete") {
        Some(("Delete", "Delete"))
    } else if text::is_lit(p, "insert") {
        Some(("Insert", "Insert"))
    } else if text::is_lit(p, "home") {
        Some(("Home", "Home"))
    } else if text::is_lit(p, "end") {
        Some(("End", "End"))
    } else if text::is_lit(p, "pageup") {
        Some(("PageUp", "Page_Up"))
    } else if text::is_lit(p, "pagedown") {
        Some(("PageDown", "Page_Down"))
    } else if text::is_lit(p, "up") {
        Some(("ArrowUp", "Up"))
    } else if text::is_lit(p, "down") {
        Some(("ArrowDown", "Down"))
    } else if text::is_lit(p, "left") {
        Some(("ArrowLeft", "Left"))
    } else if text::is_lit(p, "right") {
        Some(("ArrowRight", "Right"))
    } else if text::is_lit(p, "`") {
        Some(("Backquote", "grave"))
    } else if text::is_lit(p, "-") {
        Some(("Minus", "minus"))
    } else if text::is_lit(p, "=") {
        Some(("Equal", "equal"))
    } else if text::is_lit(p, "[") {
        Some(("BracketLeft", "bracketleft"))
    } else if text::is_lit(p, "]") {
        Some(("BracketRight", "bracketright"))
    } else if text::is_lit(p, "\\") {
        Some(("Backslash", "backslash"))
    } else if text::is_lit(p, ";") {
        Some(("Semicolon", "semicolon"))
    } else if text::is_lit(p, "'") {
        Some(("Quote", "apostrophe"))
    } else if text::is_lit(p, ",") {
        Some(("Comma", "comma"))
    } else if text::is_lit(p, ".") {
        Some(("Period", "period"))
    } else if text::is_lit(p, "/") {
        Some(("Slash", "slash"))
    } else {
        None
    }
}

/// Whether a part is one of the function keys F1 to F24.
fn reads_function_key(p: &[char]) -> (r: bool)
    ensures
        r == is_function_key(p@),
{
    if p.len() == 0 || p[0] != 'f' || (p.len() > 1 && p[1] == '0') {
        return false;
    }
    match text::parse_u64(text::rest(p, 1)) {
        Some(n) => 1 <= n && n <= 24,
        None => false,
    }
}

/// The code of the key that `part` names, as accelerators spell it ("space" is
/// "Space", "v" is "KeyV", "5" is "Digit5").
pub fn key_code(part: &str) -> (r: Option<String>)
    ensures
        text::opt_text(r) == key_code_of(part@),
{
    let p = text::chars_of(part);
    if let Some(k) = read_named_key(p.as_slice()) {
        return Some(k.0.to_string());
    }
    let mut out: Vec<char> = Vec::new();
    if reads_function_key(p.as_slice()) {
        text::extend_str(&mut out, "F");
        text::extend(&mut out, text::rest(p.as_slice(), 1));
    } else if p.len() == 1 && text::alpha(p[0]) {
        text::extend_str(&mut out, "Key");
        out.push(text::ascii_upper(p[0]));
    } else if p.len() == 1 && text::digit(p[0]) {
        text::extend_str(&mut out, "Digit");
        text::extend(&mut out, p.as_slice());
    } else {
        return None;
    }
    Some(text::string_of(out.as_slice()))
}

/// The symbol of the key that `part` names, as portal triggers spell it
/// ("space" is "space", "v" is "v", "pageup" is "Page_Up").
pub fn keysym_name(part: &str) -> (r: Option<String>)
    ensures
        text::opt_text(r) == keysym_of(part@),
{
    let p = text::chars_of(part);
    if let Some(k) = read_named_key(p.as_slice()) {
        return Some(k.1.to_string());
    }
    let mut out: Vec<char> = Vec::new();
    if reads_function_key(p.as_slice()) {
        text::extend_str(&mut out, "F");
        text::extend(&mut out, text::rest(p.as_slice(), 1));
    } else if p.len() == 1 && text::alnum(p[0]) {
        text::extend(&mut out, p.as_slice());
    } else {
        return None;
    }
    Some(text::string_of(out.as_slice()))
}

/// The parts of a combination.
fn read_parts(hotkey: &str) -> (r: Vec<Vec<char>>)
    ensures
        text::pieces(r@) == parts_of(hotkey@),
{
    let lower = text::to_lowercase(hotkey);
    let chars = text::chars_of(lower.as_str());
    let raw = text::split_on(chars.as_slice(), '+');
    let ghost split = text::split(text::lowercase(hotkey@), '+');
    let ghost trimmed = split.map_values(|p: Seq<char>| text::trim(p));
    let mut out: Vec<Vec<char>> = Vec::new();
    proof {
        assert(text::pieces(raw@) == split);
        assert(trimmed.len() == raw@.len());
        reveal(Seq::filter);
        assert(trimmed.take(0) == Seq::<Seq<char>>::empty());
        assert(text::pieces(out@) == text::non_empty(trimmed.take(0)));
    }
    for i in 0..raw.len()
        invariant
            split == text::split(text::lowercase(hotkey@), '+'),
            trimmed == split.map_values(|p: Seq<char>| text::trim(p)),
            text::pieces(raw@) == split,
            trimmed.len() == raw@.len(),
            text::pieces(out@) == text::non_empty(trimmed.take(i as int)),
    {
        assert(split[i as int] == raw@[i as int]@);
        let t = text::trimmed(raw[i].as_slice());
        proof {
            assert(trimmed.take(i + 1) == trimmed.take(i as int).push(t@));
            text::lemma_non_empty_push(trimmed.take(i as int), t@);
        }
        if t.len() > 0 {
            let ghost was = out@;
            let piece = text::to_vec(t);
            let ghost w = piece@;
            out.push(piece);
            assert(text::pieces(out@) == text::pieces(was).push(w));
        }
    }
    assert(trimmed.take(trimmed.len() as int) == trimmed);
    out
}

/// Whether `m` is among `mods`.
fn has_modifier(mods: &Vec<Modifier>, m: Modifier) -> (r: bool)
    ensures
        r == mods@.contains(m),
{
    for i in 0..mods.len()
        invariant
            forall|j: int| 0 <= j < i ==> mods@[j] != m,
    {
        if mods[i] == m {
            return true;
        }
    }
    false
}

/// The modifiers and the keys of a combination.
fn read_combo(hotkey: &str) -> (r: (Vec<Modifier>, Vec<Vec<char>>))
    ensures
        r.0@ == modifiers(parts_of(hotkey@)),
        text::pieces(r.1@) == keys(parts_of(hotkey@)),
{
    let parts = read_parts(hotkey);
    let ghost all = parts_of(hotkey@);
    let mut mods: Vec<Modifier> = Vec::new();
    let mut found: Vec<Vec<char>> = Vec::new();
    proof {
        reveal(Seq::filter);
        assert(all.take(0) == Seq::<Seq<char>>::empty());
        assert(text::pieces(found@) == keys(all.take(0)));
    }
    for i in 0..parts.len()
        invariant
            all == text::pieces(parts@),
            mods@ == modifiers(all.take(i as int)),
            text::pieces(found@) == keys(all.take(i as int)),
    {
        proof {
            reveal(Seq::filter);
            assert(all.take(i + 1).drop_last() == all.take(i as int));
            assert(all.take(i + 1).last() == parts@[i as int]@);
        }
        match read_modifier(parts[i].as_slice()) {
            Some(m) => {
                if !has_modifier(&mods, m) {
                    mods.push(m);
                }
            },
            None => {
                let ghost was = found@;
                let piece = text::to_vec(parts[i].as_slice());
                let ghost w = piece@;
                found.push(piece);
                assert(text::pieces(found@) == text::pieces(was).push(w));
            },
        }
    }
    assert(all.take(all.len() as int) == all);
    (mods, found)
}

/// A configured combination ("ctrl+alt+space") as an accelerator
/// ("Ctrl+Alt+Space"). The last key wins; a key without a code rejects the
/// combination.
pub fn to_accelerator(hotkey: &str) -> (r: Option<String>)
    ensures
        text::opt_text(r) == accelerator_of(hotkey@),
{
    let (mods, found) = read_combo(hotkey);
    let ghost parts = parts_of(hotkey@);
    let mut names: Vec<Vec<char>> = Vec::new();
    for i in 0..mods.len()
        invariant
            mods@ == modifiers(parts),
            text::pieces(names@) == modifiers(parts).take(i as int).map_values(
                |m: Modifier| accelerator_name(m),
            ),
    {
        let ghost was = names@;
        let name = text::chars_of(
            match mods[i] {
                Modifier::Ctrl => "Ctrl",
                Modifier::Alt => "Alt",
                Modifier::Shift => "Shift",
                Modifier::Super => "Super",
            },
        );
        let ghost w = name@;
        names.push(name);
        assert(text::pieces(names@) == text::pieces(was).push(w));
        assert(modifiers(parts).take(i + 1) == modifiers(parts).take(i as int).push(mods@[i as int]));
    }
    assert(modifiers(parts).take(mods@.len() as int) == modifiers(parts));
    let mut code: Option<String> = None;
    for i in 0..found.len()
        invariant
            parts == parts_of(hotkey@),
            text::pieces(found@) == keys(parts),
            i == 0 ==> code is None,
            i > 0 ==> text::opt_text(code) == key_code_of(keys(parts)[i - 1]) && code is Some,
            forall|j: int| 0 <= j < i ==> key_code_of(#[trigger] keys(parts)[j]) is Some,
    {
        assert(keys(parts)[i as int] == found@[i as int]@);
        let part = text::string_of(found[i].as_slice());
        code = key_code(part.as_str());
        if code.is_none() {
            return None;
        }
    }
    match code {
        Some(c) => {
            assert(keys(parts).last() == keys(parts)[found@.len() - 1]);
            let ghost was = names@;
            let last = text::chars_of(c.as_str());
            let ghost w = last@;
            names.push(last);
            assert(text::pieces(names@) == text::pieces(was).push(w));
            let plus = text::chars_of("+");
            let out = text::joined(&names, plus.as_slice());
            Some(text::string_of(out.as_slice()))
        },
        None => None,
    }
}

/// A configured combination ("ctrl+alt+c") as a portal trigger ("CTRL+ALT+c").
/// The last key wins; a key without a symbol rejects the combination.
pub fn to_portal_trigger(hotkey: &str) -> (r: Option<String>)
    ensures
        text::opt_text(r) == trigger_of(hotkey@),
{
    let (mods, found) = read_combo(hotkey);
    let ghost parts = parts_of(hotkey@);
    let mut names: Vec<Vec<char>> = Vec::new();
    for i in 0..mods.len()
        invariant
            mods@ == modifiers(parts),
            text::pieces(names@) == modifiers(parts).take(i as int).map_values(
                |m: Modifier| trigger_name(m),
            ),
    {
        let ghost was = names@;
        let name = text::chars_of(
            match mods[i] {
                Modifier::Ctrl => "CTRL",
                Modifier::Alt => "ALT",
                Modifier::Shift => "SHIFT",
                Modifier::Super => "LOGO",
            },
        );
        let ghost w = name@;
        names.push(name);
        assert(text::pieces(names@) == text::pieces(was).push(w));
        assert(modifiers(parts).take(i + 1) == modifiers(parts).take(i as int).push(mods@[i as int]));
    }
    assert(modifiers(parts).take(mods@.len() as int) == modifiers(parts));
    let mut symbol: Option<String> = None;
    for i in 0..found.len()
        invariant
            parts == parts_of(hotkey@),
            text::pieces(found@) == keys(parts),
            i == 0 ==> symbol is None,
            i > 0 ==> text::opt_text(symbol) == keysym_of(keys(parts)[i - 1]) && symbol is Some,
            forall|j: int| 0 <= j < i ==> keysym_of(#[trigger] keys(parts)[j]) is Some,
    {
        assert(keys(parts)[i as int] == found@[i as int]@);
        let part = text::string_of(found[i].as_slice());
        symbol = keysym_name(part.as_str());
        if symbol.is_none() {
            return None;
        }
    }
    match symbol {
        Some(c) => {
            assert(keys(parts).last() == keys(parts)[found@.len() - 1]);
            let ghost was = names@;
            let last = text::chars_of(c.as_str());
            let ghost w = last@;
            names.push(last);
            assert(text::pieces(names@) == text::pieces(was).push(w));
            let plus = text::chars_of("+");
            let out = text::joined(&names, plus.as_slice());
            Some(text::string_of(out.as_slice()))
        },
        None => None,
    }
}

// ---- laws -------------------------------------------------------------------

/// A part has a code exactly where it has a symbol.
pub proof fn law_codes_and_symbols_share_their_keys(p: Seq<char>)
    ensures
        key_code_of(p) is Some <==> keysym_of(p) is Some,
{
}

/// A combination has an accelerator exactly where it has a portal trigger.
pub proof fn law_both_forms_accept_the_same(hotkey: Seq<char>)
    ensures
        accelerator_of(hotkey) is Some <==> trigger_of(hotkey) is Some,
{
    let k = keys(parts_of(hotkey));
    assert forall|i: int| 0 <= i < k.len() implies (key_code_of(#[trigger] k[i]) is Some
        <==> keysym_of(k[i]) is Some) by {
        law_codes_and_symbols_share_their_keys(k[i]);
    }
    if accelerator_of(hotkey) is Some {
        assert forall|i: int| 0 <= i < k.len() implies keysym_of(#[trigger] k[i]) is Some by {
            assert(key_code_of(k[i]) is Some);
        }
    }
    if trigger_of(hotkey) is Some {
        assert forall|i: int| 0 <= i < k.len() implies key_code_of(#[trigger] k[i]) is Some by {
            assert(keysym_of(k[i]) is Some);
        }
    }
}

/// No modifier is named twice.
pub proof fn law_modifiers_are_distinct(parts: Seq<Seq<char>>)
    ensures
        modifiers(parts).no_duplicates(),
        modifiers(parts).len() <= 4,
    decreases parts.len(),
{
    if parts.len() > 0 {
        law_modifiers_are_distinct(parts.drop_last());
    }
    lemma_few_modifiers(modifiers(parts));
}

/// There are four modifiers.
proof fn lemma_few_modifiers(m: Seq<Modifier>)
    ensures
        m.no_duplicates() ==> m.len() <= 4,
{
    if m.no_duplicates() && m.len() > 4 {
        assert(m[0] != m[1] && m[0] != m[2] && m[0] != m[3] && m[0] != m[4]);
        assert(m[1] != m[2] && m[1] != m[3] && m[1] != m[4]);
        assert(m[2] != m[3] && m[2] != m[4] && m[3] != m[4]);
    }
}

/// Whether two spellings are the same combination in both forms.
pub open spec fn same_combo(a: Seq<char>, b: Seq<char>) -> bool {
    accelerator_of(a) == accelerator_of(b) && trigger_of(a) == trigger_of(b)
}

/// The parts on both sides of a plus sign are all the parts.
proof fn lemma_parts_between(a: Seq<char>, b: Seq<char>)
    ensures
        parts_in(a.push('+') + b) == parts_in(a) + parts_in(b),
{
    let f = |p: Seq<char>| text::trim(p);
    let x = text::split(a, '+');
    let y = text::split(b, '+');
    text::lemma_split_between(a, b, '+');
    assert((x + y).map_values(f) == x.map_values(f) + y.map_values(f));
    Seq::filter_distributes_over_add(
        x.map_values(f),
        y.map_values(f),
        |w: Seq<char>| w.len() > 0,
    );
}

/// Nothing has no parts.
proof fn lemma_no_parts()
    ensures
        parts_in(Seq::empty()) == Seq::<Seq<char>>::empty(),
{
    reveal(Seq::filter);
    let e = Seq::<char>::empty();
    assert(text::split(e, '+') == seq![e]);
    let t = text::split(e, '+').map_values(|p: Seq<char>| text::trim(p));
    assert(t == Seq::<Seq<char>>::empty().push(e));
    text::lemma_non_empty_push(Seq::empty(), e);
}

/// White space at the ends changes no part.
proof fn lemma_parts_with_space(a: Seq<char>, w: char)
    requires
        text::is_white(w),
    ensures
        parts_in(a.push(w)) == parts_in(a),
        parts_in(seq![w] + a) == parts_in(a),
{
    let f = |p: Seq<char>| text::trim(p);
    let x = text::split(a, '+');
    text::lemma_split_some(a, '+');
    let back = text::split(a.push(w), '+');
    assert(a.push(w).drop_last() == a);
    assert(back == x.drop_last().push(x.last().push(w)));
    text::lemma_trim_drop_last(x.last().push(w));
    assert(x.last().push(w).drop_last() == x.last());
    assert(back.map_values(f) == x.map_values(f));
    text::lemma_split_front(w, a, '+');
    let front = text::split(seq![w] + a, '+');
    text::lemma_trim_skip_first(seq![w] + x[0]);
    assert((seq![w] + x[0]).skip(1) == x[0]);
    assert(front.map_values(f) == x.map_values(f));
}

/// A word without a plus sign is its own part.
proof fn lemma_one_part(m: Seq<char>)
    requires
        text::is_word(m),
        !m.contains('+'),
    ensures
        parts_in(m) == seq![m],
{
    let e = Seq::<char>::empty();
    text::lemma_split_append(e, m, '+');
    assert(text::split(e, '+') == seq![e]);
    assert(e + m == m);
    assert(text::split(m, '+') == seq![m]);
    assert(!text::is_white(m[0]) && !text::is_white(m[m.len() - 1]));
    text::lemma_trim_tight(m);
    let t = text::split(m, '+').map_values(|p: Seq<char>| text::trim(p));
    assert(t == Seq::<Seq<char>>::empty().push(m));
    text::lemma_non_empty_push(Seq::empty(), m);
    reveal(Seq::filter);
    assert(text::non_empty(Seq::empty()) == Seq::<Seq<char>>::empty());
}

/// The name of a modifier is a word of lower-case letters.
proof fn lemma_modifier_names(m: Seq<char>)
    requires
        modifier_of(m) is Some,
    ensures
        text::is_word(m),
        !m.contains('+'),
        text::is_ascii(m),
        text::lowercase(m) == m,
{
    reveal_strlit("ctrl");
    reveal_strlit("control");
    reveal_strlit("alt");
    reveal_strlit("shift");
    reveal_strlit("win");
    reveal_strlit("windows");
    reveal_strlit("meta");
    reveal_strlit("cmd");
    assert forall|i: int| 0 <= i < m.len() implies 'a' <= #[trigger] m[i] <= 'z' by {}
    assert(text::lowercase(m) =~= m);
}

/// Other names of the same modifiers make no difference.
proof fn lemma_same_modifiers(p: Seq<Seq<char>>, q: Seq<Seq<char>>)
    requires
        p.len() == q.len(),
        forall|i: int|
            0 <= i < p.len() ==> modifier_of(#[trigger] p[i]) == modifier_of(q[i]) && (modifier_of(
                p[i],
            ) is None ==> p[i] == q[i]),
    ensures
        modifiers(p) == modifiers(q),
        keys(p) == keys(q),
    decreases p.len(),
{
    reveal(Seq::filter);
    if p.len() > 0 {
        assert forall|i: int| 0 <= i < p.len() - 1 implies modifier_of(#[trigger] p.drop_last()[i])
            == modifier_of(q.drop_last()[i]) && (modifier_of(p.drop_last()[i]) is None
            ==> p.drop_last()[i] == q.drop_last()[i]) by {
            assert(p[i] == p.drop_last()[i]);
        }
        lemma_same_modifiers(p.drop_last(), q.drop_last());
        assert(modifier_of(p[p.len() - 1]) == modifier_of(q[p.len() - 1]));
    }
}

/// The letter case of a combination does not matter.
pub proof fn law_letter_case_does_not_matter(a: Seq<char>, b: Seq<char>)
    requires
        text::is_ascii(a),
        text::is_ascii(b),
        a.len() == b.len(),
        forall|i: int|
            0 <= i < a.len() ==> text::lower_char(#[trigger] a[i]) == text::lower_char(b[i]),
    ensures
        same_combo(a, b),
{
    assert(text::lowercase(a) =~= text::lowercase(b));
}

/// White space at the ends of a combination and round its plus signs does not
/// matter.
pub proof fn law_spaces_do_not_matter(a: Seq<char>, b: Seq<char>, w: char)
    requires
        text::is_ascii(a),
        text::is_ascii(b),
        text::is_white(w),
        (w as u32) < 128,
    ensures
        same_combo(a.push(w), a),
        same_combo(seq![w] + a, a),
        same_combo(a.push(w).push('+') + b, a.push('+') + b),
        same_combo(a.push('+') + (seq![w] + b), a.push('+') + b),
{
    let x = text::lowercase(a);
    let y = text::lowercase(b);
    lemma_parts_with_space(x, w);
    lemma_parts_with_space(y, w);
    assert(text::lowercase(a.push(w)) =~= x.push(w));
    assert(text::lowercase(seq![w] + a) =~= seq![w] + x);
    assert(text::lowercase(a.push('+') + b) =~= x.push('+') + y);
    assert(text::lowercase(a.push(w).push('+') + b) =~= x.push(w).push('+') + y);
    assert(text::lowercase(a.push('+') + (seq![w] + b)) =~= x.push('+') + (seq![w] + y));
    lemma_parts_between(x, y);
    lemma_parts_between(x.push(w), y);
    lemma_parts_between(x, seq![w] + y);
}

/// A plus sign more, at either end or beside another, does not matter.
pub proof fn law_extra_plus_signs_do_not_matter(a: Seq<char>, b: Seq<char>)
    requires
        text::is_ascii(a),
        text::is_ascii(b),
    ensures
        same_combo(a.push('+'), a),
        same_combo(seq!['+'] + a, a),
        same_combo(a.push('+').push('+') + b, a.push('+') + b),
{
    let x = text::lowercase(a);
    let y = text::lowercase(b);
    let e = Seq::<char>::empty();
    lemma_no_parts();
    lemma_parts_between(x, e);
    lemma_parts_between(e, x);
    lemma_parts_between(x, y);
    lemma_parts_between(x.push('+'), y);
    assert(text::lowercase(a.push('+')) =~= x.push('+') + e);
    assert(text::lowercase(seq!['+'] + a) =~= e.push('+') + x);
    assert(text::lowercase(a.push('+') + b) =~= x.push('+') + y);
    assert(text::lowercase(a.push('+').push('+') + b) =~= x.push('+').push('+') + y);
    assert(x.push('+') + e == x.push('+'));
    assert(parts_in(x) + Seq::<Seq<char>>::empty() == parts_in(x));
    assert(Seq::<Seq<char>>::empty() + parts_in(x) == parts_in(x));
}

/// The parts of a combination with a modifier in it: those before it, the modifier,
/// and those behind it.
proof fn lemma_parts_round(front: Seq<char>, m: Seq<char>, back: Seq<char>)
    requires
        text::is_ascii(front),
        text::is_ascii(back),
        modifier_of(m) is Some,
        front.len() == 0 || front.last() == '+',
        back.len() == 0 || back[0] == '+',
    ensures
        parts_of(front + m + back) == parts_in(text::lowercase(front)) + seq![m] + parts_in(
            text::lowercase(back),
        ),
{
    let e = Seq::<char>::empty();
    let x = text::lowercase(front);
    let y = text::lowercase(back);
    lemma_modifier_names(m);
    lemma_one_part(m);
    lemma_no_parts();
    assert(text::lowercase(front + m + back) =~= x + m + y);
    let none = Seq::<Seq<char>>::empty();
    if back.len() == 0 {
        assert(y == e);
        assert(m + y == m);
        assert(parts_in(m) + none == parts_in(m));
        assert(parts_in(m + y) == parts_in(m) + parts_in(y));
    } else {
        let z = y.skip(1);
        assert(y[0] == '+');
        assert(m + y == m.push('+') + z);
        assert(y == e.push('+') + z);
        lemma_parts_between(m, z);
        lemma_parts_between(e, z);
        assert(none + parts_in(z) == parts_in(z));
    }
    if front.len() == 0 {
        assert(x == e);
        assert(x + m + y == m + y);
        assert(none + parts_in(m + y) == parts_in(m + y));
    } else {
        let v = x.drop_last();
        assert(x.last() == '+');
        assert(x + m + y == v.push('+') + (m + y));
        assert(x == v.push('+') + e);
        lemma_parts_between(v, m + y);
        lemma_parts_between(v, e);
        assert(parts_in(v) + none == parts_in(v));
    }
    assert(parts_in(x + m + y) == parts_in(x) + parts_in(m + y));
    assert(parts_in(x) + (seq![m] + parts_in(y)) == parts_in(x) + seq![m] + parts_in(y));
}

/// The name under which a modifier stands in a combination does not matter.
pub proof fn law_modifier_names_do_not_matter(
    front: Seq<char>,
    m: Seq<char>,
    n: Seq<char>,
    back: Seq<char>,
)
    requires
        text::is_ascii(front),
        text::is_ascii(back),
        modifier_of(m) is Some,
        modifier_of(m) == modifier_of(n),
        front.len() == 0 || front.last() == '+',
        back.len() == 0 || back[0] == '+',
    ensures
        same_combo(front + m + back, front + n + back),
{
    lemma_parts_round(front, m, back);
    lemma_parts_round(front, n, back);
    lemma_same_modifiers(parts_of(front + m + back), parts_of(front + n + back));
}

/// The names of the modifiers: each of them is meant by its own names and by no other
/// part.
pub proof fn law_modifier_names(p: Seq<char>)
    ensures
        modifier_of(p) == Some(Modifier::Ctrl) <==> p == "ctrl"@ || p == "control"@,
        modifier_of(p) == Some(Modifier::Alt) <==> p == "alt"@,
        modifier_of(p) == Some(Modifier::Shift) <==> p == "shift"@,
        modifier_of(p) == Some(Modifier::Super) <==> p == "win"@ || p == "windows"@ || p == "meta"@
            || p == "cmd"@,
{
    reveal_strlit("ctrl");
    reveal_strlit("control");
    reveal_strlit("alt");
    reveal_strlit("shift");
    reveal_strlit("win");
    reveal_strlit("windows");
    reveal_strlit("meta");
    reveal_strlit("cmd");
    assert("ctrl"@.len() == 4 && "ctrl"@[0] == 'c');
    assert("control"@.len() == 7 && "control"@[0] == 'c');
    assert("alt"@.len() == 3 && "alt"@[0] == 'a');
    assert("shift"@.len() == 5);
    assert("win"@.len() == 3 && "win"@[0] == 'w');
    assert("windows"@.len() == 7 && "windows"@[0] == 'w');
    assert("meta"@.len() == 4 && "meta"@[0] == 'm');
    assert("cmd"@.len() == 3 && "cmd"@[0] == 'c');
}

/// A modifier in front is the first.
proof fn lemma_first_modifier(p: Seq<char>, parts: Seq<Seq<char>>)
    requires
        modifier_of(p) is Some,
        !modifiers(parts).contains(modifier_of(p)->0),
    ensures
        modifiers(seq![p] + parts) == seq![modifier_of(p)->0] + modifiers(parts),
        keys(seq![p] + parts) == keys(parts),
    decreases parts.len(),
{
    reveal(Seq::filter);
    let m = modifier_of(p)->0;
    let all = seq![p] + parts;
    if parts.len() == 0 {
        assert(all.drop_last() == Seq::<Seq<char>>::empty());
        assert(modifiers(all.drop_last()) == Seq::<Modifier>::empty());
        assert(modifiers(all) == seq![m]);
        assert(seq![m] + modifiers(parts) == seq![m]);
        assert(keys(all.drop_last()) == Seq::<Seq<char>>::empty());
        assert(keys(parts) == Seq::<Seq<char>>::empty());
        assert(keys(all) == keys(parts));
    } else {
        let front = parts.drop_last();
        assert(all.drop_last() == seq![p] + front);
        assert(all.last() == parts.last());
        let before = modifiers(front);
        assert(!before.contains(m)) by {
            if before.contains(m) {
                let i = choose|i: int| 0 <= i < before.len() && before[i] == m;
                assert(modifiers(parts)[i] == m);
            }
        }
        lemma_first_modifier(p, front);
        if let Some(x) = modifier_of(parts.last()) {
            let now = seq![m] + before;
            if before.contains(x) {
                let i = choose|i: int| 0 <= i < before.len() && before[i] == x;
                assert(now[i + 1] == x);
            } else {
                assert(modifiers(parts) == before.push(x));
                assert(modifiers(parts)[before.len() as int] == x);
                assert(x != m);
                assert(!now.contains(x)) by {
                    if now.contains(x) {
                        let i = choose|i: int| 0 <= i < now.len() && now[i] == x;
                        assert(i > 0);
                        assert(before[i - 1] == x);
                    }
                }
                assert(now.push(x) == seq![m] + before.push(x));
            }
        }
    }
}

/// Joined texts with one more in front.
proof fn lemma_join_front(x: Seq<char>, v: Seq<Seq<char>>, sep: Seq<char>)
    requires
        v.len() > 0,
    ensures
        text::join(seq![x] + v, sep) == x + sep + text::join(v, sep),
    decreases v.len(),
{
    let all = seq![x] + v;
    assert(all.last() == v.last());
    assert(all.drop_last() == seq![x] + v.drop_last());
    if v.len() == 1 {
        assert(all.drop_last() == seq![x]);
        assert(text::join(seq![x], sep) == x);
    } else {
        lemma_join_front(x, v.drop_last(), sep);
        assert(x + sep + text::join(v.drop_last(), sep) + sep + v.last() == x + sep + (text::join(
            v.drop_last(),
            sep,
        ) + sep + v.last()));
    }
}

/// A modifier in front of a combination that does not have it yet stands in front of
/// its two forms: `ctrl` and `control` as `Ctrl` and `CTRL`, `alt` as `Alt` and `ALT`,
/// `shift` as `Shift` and `SHIFT`, and `win`, `windows`, `meta` and `cmd` as `Super`
/// and `LOGO`. A combination that has no form gets none by it.
pub proof fn law_modifiers_stand_in_front(p: Seq<char>, rest: Seq<char>)
    requires
        modifier_of(p) is Some,
        text::is_ascii(rest),
        !modifiers(parts_of(rest)).contains(modifier_of(p)->0),
    ensures
        ({
            let (name, symbol) = if p == "ctrl"@ || p == "control"@ {
                ("Ctrl+"@, "CTRL+"@)
            } else if p == "alt"@ {
                ("Alt+"@, "ALT+"@)
            } else if p == "shift"@ {
                ("Shift+"@, "SHIFT+"@)
            } else {
                ("Super+"@, "LOGO+"@)
            };
            &&& accelerator_of(p.push('+') + rest) == match accelerator_of(rest) {
                Some(a) => Some(name + a),
                None => None,
            }
            &&& trigger_of(p.push('+') + rest) == match trigger_of(rest) {
                Some(t) => Some(symbol + t),
                None => None,
            }
        }),
{
    law_modifier_names(p);
    reveal_strlit("Ctrl");
    reveal_strlit("Ctrl+");
    reveal_strlit("CTRL");
    reveal_strlit("CTRL+");
    reveal_strlit("Alt");
    reveal_strlit("Alt+");
    reveal_strlit("ALT");
    reveal_strlit("ALT+");
    reveal_strlit("Shift");
    reveal_strlit("Shift+");
    reveal_strlit("SHIFT");
    reveal_strlit("SHIFT+");
    reveal_strlit("Super");
    reveal_strlit("Super+");
    reveal_strlit("LOGO");
    reveal_strlit("LOGO+");
    reveal_strlit("+");
    assert("Ctrl+"@ == "Ctrl"@ + "+"@ && "CTRL+"@ == "CTRL"@ + "+"@);
    assert("Alt+"@ == "Alt"@ + "+"@ && "ALT+"@ == "ALT"@ + "+"@);
    assert("Shift+"@ == "Shift"@ + "+"@ && "SHIFT+"@ == "SHIFT"@ + "+"@);
    assert("Super+"@ == "Super"@ + "+"@ && "LOGO+"@ == "LOGO"@ + "+"@);
    let m = modifier_of(p)->0;
    let e = Seq::<char>::empty();
    let back = e.push('+') + rest;
    let parts = parts_of(rest);
    lemma_no_parts();
    lemma_parts_round(e, p, back);
    assert(e + p + back == p.push('+') + rest);
    assert(text::lowercase(e) == e);
    assert(text::lowercase(back) =~= e.push('+') + text::lowercase(rest));
    lemma_parts_between(e, text::lowercase(rest));
    let none = Seq::<Seq<char>>::empty();
    assert(none + parts == parts);
    assert(none + seq![p] + parts == seq![p] + parts);
    let all = parts_of(p.push('+') + rest);
    assert(all == seq![p] + parts);
    lemma_first_modifier(p, parts);
    if accelerator_of(rest) is Some {
        let f = |m: Modifier| accelerator_name(m);
        let v = modifiers(parts).map_values(f).push(key_code_of(keys(parts).last())->0);
        assert(modifiers(all).map_values(f).push(key_code_of(keys(parts).last())->0) == seq![
            accelerator_name(m),
        ] + v);
        lemma_join_front(accelerator_name(m), v, "+"@);
    }
    if trigger_of(rest) is Some {
        let f = |m: Modifier| trigger_name(m);
        let v = modifiers(parts).map_values(f).push(keysym_of(keys(parts).last())->0);
        assert(modifiers(all).map_values(f).push(keysym_of(keys(parts).last())->0) == seq![
            trigger_name(m),
        ] + v);
        lemma_join_front(trigger_name(m), v, "+"@);
    }
}

/// A key on its own is a combination, and has its code and its symbol for forms.
pub proof fn law_a_key_is_a_combination(p: Seq<char>)
    requires
        text::is_word(p),
        !p.contains('+'),
        text::is_ascii(p),
        text::lowercase(p) == p,
        modifier_of(p) is None,
    ensures
        accelerator_of(p) == key_code_of(p),
        trigger_of(p) == keysym_of(p),
{
    lemma_one_part(p);
    reveal(Seq::filter);
    let parts = parts_of(p);
    assert(parts == seq![p]);
    assert(parts.drop_last() == Seq::<Seq<char>>::empty());
    assert(modifiers(parts.drop_last()) == Seq::<Modifier>::empty());
    assert(modifiers(parts) == Seq::<Modifier>::empty());
    assert(keys(parts) == seq![p]);
    assert(keys(parts)[0] == p);
    let f = |m: Modifier| accelerator_name(m);
    let g = |m: Modifier| trigger_name(m);
    if let Some(c) = key_code_of(p) {
        assert(modifiers(parts).map_values(f).push(c) == seq![c]);
        assert(text::join(seq![c], "+"@) == c);
    }
    if let Some(c) = keysym_of(p) {
        assert(modifiers(parts).map_values(g).push(c) == seq![c]);
        assert(text::join(seq![c], "+"@) == c);
    }
}

/// How the names of the keys differ.
proof fn lemma_key_names_differ()
    ensures
        "space"@.len() == 5 && "space"@[0] == 's' && "space"@[1] == 'p',
        "enter"@.len() == 5 && "enter"@[0] == 'e' && "enter"@[1] == 'n',
        "return"@.len() == 6 && "return"@[0] == 'r' && "return"@[1] == 'e',
        "tab"@.len() == 3 && "tab"@[0] == 't' && "tab"@[1] == 'a',
        "esc"@.len() == 3 && "esc"@[0] == 'e' && "esc"@[1] == 's',
        "escape"@.len() == 6 && "escape"@[0] == 'e' && "escape"@[1] == 's',
        "backspace"@.len() == 9 && "backspace"@[0] == 'b' && "backspace"@[1] == 'a',
        "delete"@.len() == 6 && "delete"@[0] == 'd' && "delete"@[1] == 'e',
        "insert"@.len() == 6 && "insert"@[0] == 'i' && "insert"@[1] == 'n',
        "home"@.len() == 4 && "home"@[0] == 'h' && "home"@[1] == 'o',
        "end"@.len() == 3 && "end"@[0] == 'e' && "end"@[1] == 'n',
        "pageup"@.len() == 6 && "pageup"@[0] == 'p' && "pageup"@[1] == 'a',
        "pagedown"@.len() == 8 && "pagedown"@[0] == 'p' && "pagedown"@[1] == 'a',
        "up"@.len() == 2 && "up"@[0] == 'u' && "up"@[1] == 'p',
        "down"@.len() == 4 && "down"@[0] == 'd' && "down"@[1] == 'o',
        "left"@.len() == 4 && "left"@[0] == 'l' && "left"@[1] == 'e',
        "right"@.len() == 5 && "right"@[0] == 'r' && "right"@[1] == 'i',
        "`"@.len() == 1 && "`"@[0] == '`',
        "-"@.len() == 1 && "-"@[0] == '-',
        "="@.len() == 1 && "="@[0] == '=',
        "["@.len() == 1 && "["@[0] == '[',
        "]"@.len() == 1 && "]"@[0] == ']',
        "\\"@.len() == 1 && "\\"@[0] == '\\',
        ";"@.len() == 1 && ";"@[0] == ';',
        "'"@.len() == 1 && "'"@[0] == '\'',
        ","@.len() == 1 && ","@[0] == ',',
        "."@.len() == 1 && "."@[0] == '.',
        "/"@.len() == 1 && "/"@[0] == '/',
{
    reveal_strlit("space");
    reveal_strlit("enter");
    reveal_strlit("return");
    reveal_strlit("tab");
    reveal_strlit("esc");
    reveal_strlit("escape");
    reveal_strlit("backspace");
    reveal_strlit("delete");
    reveal_strlit("insert");
    reveal_strlit("home");
    reveal_strlit("end");
    reveal_strlit("pageup");
    reveal_strlit("pagedown");
    reveal_strlit("up");
    reveal_strlit("down");
    reveal_strlit("left");
    reveal_strlit("right");
    reveal_strlit("`");
    reveal_strlit("-");
    reveal_strlit("=");
    reveal_strlit("[");
    reveal_strlit("]");
    reveal_strlit("\\");
    reveal_strlit(";");
    reveal_strlit("'");
    reveal_strlit(",");
    reveal_strlit(".");
    reveal_strlit("/");
}

/// The keys that have names: the code and the symbol of each.
pub proof fn law_named_keys()
    ensures
        key_code_of("space"@) == Some("Space"@) && keysym_of("space"@) == Some("space"@),
        key_code_of("enter"@) == Some("Enter"@) && keysym_of("enter"@) == Some("Return"@),
        key_code_of("return"@) == Some("Enter"@) && keysym_of("return"@) == Some("Return"@),
        key_code_of("tab"@) == Some("Tab"@) && keysym_of("tab"@) == Some("Tab"@),
        key_code_of("esc"@) == Some("Escape"@) && keysym_of("esc"@) == Some("Escape"@),
        key_code_of("escape"@) == Some("Escape"@) && keysym_of("escape"@) == Some("Escape"@),
        key_code_of("backspace"@) == Some("Backspace"@) && keysym_of("backspace"@) == Some("BackSpace"@),
        key_code_of("delete"@) == Some("Delete"@) && keysym_of("delete"@) == Some("Delete"@),
        key_code_of("insert"@) == Some("Insert"@) && keysym_of("insert"@) == Some("Insert"@),
        key_code_of("home"@) == Some("Home"@) && keysym_of("home"@) == Some("Home"@),
        key_code_of("end"@) == Some("End"@) && keysym_of("end"@) == Some("End"@),
        key_code_of("pageup"@) == Some("PageUp"@) && keysym_of("pageup"@) == Some("Page_Up"@),
        key_code_of("pagedown"@) == Some("PageDown"@) && keysym_of("pagedown"@) == Some("Page_Down"@),
        key_code_of("up"@) == Some("ArrowUp"@) && keysym_of("up"@) == Some("Up"@),
        key_code_of("down"@) == Some("ArrowDown"@) && keysym_of("down"@) == Some("Down"@),
        key_code_of("left"@) == Some("ArrowLeft"@) && keysym_of("left"@) == Some("Left"@),
        key_code_of("right"@) == Some("ArrowRight"@) && keysym_of("right"@) == Some("Right"@),
        key_code_of("`"@) == Some("Backquote"@) && keysym_of("`"@) == Some("grave"@),
        key_code_of("-"@) == Some("Minus"@) && keysym_of("-"@) == Some("minus"@),
        key_code_of("="@) == Some("Equal"@) && keysym_of("="@) == Some("equal"@),
        key_code_of("["@) == Some("BracketLeft"@) && keysym_of("["@) == Some("bracketleft"@),
        key_code_of("]"@) == Some("BracketRight"@) && keysym_of("]"@) == Some("bracketright"@),
        key_code_of("\\"@) == Some("Backslash"@) && keysym_of("\\"@) == Some("backslash"@),
        key_code_of(";"@) == Some("Semicolon"@) && keysym_of(";"@) == Some("semicolon"@),
        key_code_of("'"@) == Some("Quote"@) && keysym_of("'"@) == Some("apostrophe"@),
        key_code_of(","@) == Some("Comma"@) && keysym_of(","@) == Some("comma"@),
        key_code_of("."@) == Some("Period"@) && keysym_of("."@) == Some("period"@),
        key_code_of("/"@) == Some("Slash"@) && keysym_of("/"@) == Some("slash"@),
{
    lemma_key_names_differ();
}

/// The letters, the digits and the function keys: a letter has the code `Key` and
/// itself in upper case, a digit `Digit` and itself, and both are their own symbols;
/// the function keys F1 to F24 are `F` and their number in both forms, and there are
/// no others.
pub proof fn law_plain_keys(c: char, n: nat)
    ensures
        'a' <= c <= 'z' ==> key_code_of(seq![c]) == Some(seq!['K', 'e', 'y', ((c as u8) - 32) as char])
            && keysym_of(seq![c]) == Some(seq![c]),
        '0' <= c <= '9' ==> key_code_of(seq![c]) == Some(seq!['D', 'i', 'g', 'i', 't', c])
            && keysym_of(seq![c]) == Some(seq![c]),
        1 <= n <= 24 ==> key_code_of(seq!['f'] + text::decimal(n)) == Some(
            seq!['F'] + text::decimal(n),
        ) && keysym_of(seq!['f'] + text::decimal(n)) == Some(seq!['F'] + text::decimal(n)),
        n == 0 || 24 < n ==> key_code_of(seq!['f'] + text::decimal(n)) is None && keysym_of(
            seq!['f'] + text::decimal(n),
        ) is None,
{
    lemma_key_names_differ();
    reveal_strlit("Key");
    reveal_strlit("Digit");
    reveal_strlit("F");
    let p = seq![c];
    if 'a' <= c <= 'z' || '0' <= c <= '9' {
        assert(p.len() == 1 && p[0] == c);
        assert(named_key(p) is None);
        assert(p.skip(1).len() == 0);
        assert(!is_function_key(p));
        assert("Key"@.push(text::upper_char(c)) == seq!['K', 'e', 'y', text::upper_char(c)]);
        assert("Digit"@ + p == seq!['D', 'i', 'g', 'i', 't', c]);
    }
    let d = text::decimal(n);
    let f = seq!['f'] + d;
    text::lemma_decimal_value(n);
    assert(f.skip(1) == d);
    assert(d.len() > 0);
    assert(f.len() >= 2 && f[0] == 'f' && f[1] == d[0]);
    assert(named_key(f) is None);
    assert("F"@ == seq!['F']);
    lemma_decimal_front(n);
}

/// The decimal form of a number begins with nought for nought alone.
proof fn lemma_decimal_front(n: nat)
    ensures
        text::decimal(n).len() > 0,
        text::decimal(n)[0] == '0' <==> n == 0,
    decreases n,
{
    if n >= 10 {
        lemma_decimal_front(n / 10);
    }
}

} // verus!
