//! The synthetic Ctrl+V that pastes a take at the cursor.
//!
//! The keys of the hotkey may still be held when the paste is due. Where the
//! keyboard can be read, the paste waits for them to be let go, and releases the
//! modifiers itself when that takes too long; where it cannot be read, it always
//! does.

use crate::text;
use vstd::prelude::*;

verus! {

/// How long the hotkey may be held before the paste goes ahead all the same.
pub const RELEASE_WAIT_MS: u64 = 2000;

/// How often the keyboard is read meanwhile.
pub const RELEASE_POLL_MS: u64 = 15;

/// How long the target is given to see the keys go up.
pub const SETTLE_MS: u64 = 120;

/// How long it is given where the keyboard cannot be read.
pub const PORTAL_SETTLE_MS: u64 = 150;

/// How long the desktop may take to close a session at exit.
pub const CLOSE_TIMEOUT_SECS: u64 = 2;

// ---- the way in -------------------------------------------------------------

#[derive(Clone, Copy, PartialEq, Eq, Structural, Debug)]
pub enum Os {
    Windows,
    Linux,
    MacOs,
}

/// What delivers the keys.
#[derive(Clone, Copy, PartialEq, Eq, Structural, Debug)]
pub enum Backend {
    /// `SendInput`.
    SendInput,
    /// Fake key events of the X server.
    Xtest,
    /// The virtual keyboard of the desktop's portal: in a Wayland session nothing
    /// else reaches native windows.
    Portal,
    /// The event tap of macOS.
    Quartz,
}

/// What delivers the keys of a paste.
pub fn paste_at_cursor(os: Os, wayland_display: bool) -> (r: Backend)
    ensures
        r == match os {
            Os::Windows => Backend::SendInput,
            Os::MacOs => Backend::Quartz,
            Os::Linux => if wayland_display {
                Backend::Portal
            } else {
                Backend::Xtest
            },
        },
{
    match os {
        Os::Windows => Backend::SendInput,
        Os::MacOs => Backend::Quartz,
        Os::Linux => if wayland_display {
            Backend::Portal
        } else {
            Backend::Xtest
        },
    }
}

// ---- key events -------------------------------------------------------------

/// A key that goes down or up.
#[derive(Clone, Copy, PartialEq, Eq, Structural, Debug)]
pub struct Key {
    pub code: i32,
    pub down: bool,
}

/// The keys `codes` go up, one after the other.
pub open spec fn ups(codes: Seq<i32>) -> Seq<Key> {
    codes.map_values(|c: i32| Key { code: c, down: false })
}

/// The keys `codes` go up, one after the other.
pub fn releases(codes: &[i32]) -> (r: Vec<Key>)
    ensures
        r@ == ups(codes@),
{
    let mut r: Vec<Key> = Vec::new();
    for i in 0..codes.len()
        invariant
            r@ == ups(codes@.take(i as int)),
    {
        r.push(Key { code: codes[i], down: false });
        assert(r@ == ups(codes@.take(i + 1)));
    }
    assert(codes@.take(codes@.len() as int) == codes@);
    r
}

/// The key `ctrl` goes down, `v` goes down and up, and `ctrl` goes up.
pub open spec fn stroke(ctrl: i32, v: i32) -> Seq<Key> {
    seq![
        Key { code: ctrl, down: true },
        Key { code: v, down: true },
        Key { code: v, down: false },
        Key { code: ctrl, down: false },
    ]
}

/// The chord itself: `ctrl` goes down, `v` goes down and up, and `ctrl` goes up.
pub fn chord(ctrl: i32, v: i32) -> (r: Vec<Key>)
    ensures
        r@ == stroke(ctrl, v),
{
    let r = vec![
        Key { code: ctrl, down: true },
        Key { code: v, down: true },
        Key { code: v, down: false },
        Key { code: ctrl, down: false },
    ];
    assert(r@ == stroke(ctrl, v));
    r
}

/// What to do while the hotkey may still be held.
#[derive(Clone, Copy, PartialEq, Eq, Structural, Debug)]
pub enum ReleaseStep {
    /// Settle, then send the chord.
    Go,
    /// Release the stray modifiers first.
    Force,
    /// Read the keyboard again in a while.
    Wait,
}

/// What to do when `held` keys of the hotkey are found down after `waited_ms`.
pub fn release_step(held: bool, waited_ms: u64) -> (r: ReleaseStep)
    ensures
        r == if !held {
            ReleaseStep::Go
        } else if waited_ms >= RELEASE_WAIT_MS {
            ReleaseStep::Force
        } else {
            ReleaseStep::Wait
        },
{
    if !held {
        ReleaseStep::Go
    } else if waited_ms >= RELEASE_WAIT_MS {
        ReleaseStep::Force
    } else {
        ReleaseStep::Wait
    }
}

// ---- Windows ----------------------------------------------------------------

pub const VK_SHIFT: i32 = 0x10;

pub const VK_CONTROL: i32 = 0x11;

pub const VK_MENU: i32 = 0x12;

pub const VK_LWIN: i32 = 0x5B;

pub const VK_RWIN: i32 = 0x5C;

pub const VK_V: i32 = 0x56;

/// The keys to wait for on Windows.
pub fn windows_watched() -> (r: Vec<i32>)
    ensures
        r@ == seq![VK_CONTROL, VK_MENU, VK_SHIFT, VK_LWIN, VK_RWIN, VK_V],
{
    let r = vec![VK_CONTROL, VK_MENU, VK_SHIFT, VK_LWIN, VK_RWIN, VK_V];
    assert(r@ == seq![VK_CONTROL, VK_MENU, VK_SHIFT, VK_LWIN, VK_RWIN, VK_V]);
    r
}

/// The modifiers that are released by force on Windows.
pub fn windows_stray() -> (r: Vec<i32>)
    ensures
        r@ == seq![VK_MENU, VK_SHIFT, VK_LWIN, VK_RWIN],
{
    let r = vec![VK_MENU, VK_SHIFT, VK_LWIN, VK_RWIN];
    assert(r@ == seq![VK_MENU, VK_SHIFT, VK_LWIN, VK_RWIN]);
    r
}

/// Whether a key is down, from its state as Windows gives it.
pub fn key_down(state: u16) -> (r: bool)
    ensures
        r == (state >= 0x8000),
{
    assert((state & 0x8000 != 0) == (state >= 0x8000)) by (bit_vector);
    state & 0x8000 != 0
}

/// Whether all of the key events were taken, from how many were.
pub fn send_result(sent: u32, events: usize) -> (r: Result<(), String>)
    ensures
        match r {
            Ok(()) => sent == events,
            Err(e) => sent != events && e@ == "SendInput injected "@ + text::decimal(sent as nat)
                + "/"@ + text::decimal(events as nat) + " events"@,
        },
{
    if sent as usize == events {
        return Ok(());
    }
    let mut out = text::chars_of("SendInput injected ");
    let a = text::decimal_of(sent as u64);
    text::extend(&mut out, a.as_slice());
    text::extend_str(&mut out, "/");
    let b = text::decimal_of(events as u64);
    text::extend(&mut out, b.as_slice());
    text::extend_str(&mut out, " events");
    Err(text::string_of(out.as_slice()))
}

// ---- X11 --------------------------------------------------------------------

pub const XK_V_LOWER: u32 = 0x0076;

pub const XK_SHIFT_L: u32 = 0xFFE1;

pub const XK_SHIFT_R: u32 = 0xFFE2;

pub const XK_CONTROL_L: u32 = 0xFFE3;

pub const XK_CONTROL_R: u32 = 0xFFE4;

pub const XK_META_L: u32 = 0xFFE7;

pub const XK_META_R: u32 = 0xFFE8;

pub const XK_ALT_L: u32 = 0xFFE9;

pub const XK_ALT_R: u32 = 0xFFEA;

pub const XK_SUPER_L: u32 = 0xFFEB;

pub const XK_SUPER_R: u32 = 0xFFEC;

/// The code of the `i`-th key.
pub open spec fn code_at(min_keycode: u8, i: int) -> u8 {
    if min_keycode + i % 256 > 255 {
        255u8
    } else {
        (min_keycode + i % 256) as u8
    }
}

/// The smaller of two numbers.
pub open spec fn smaller(a: int, b: int) -> int {
    if a <= b {
        a
    } else {
        b
    }
}

/// The codes of the keys that carry `keysym`, from the `i`-th key on, whose
/// symbols come next in `keysyms`, `step` of them for each key.
pub open spec fn codes_of(keysym: u32, min_keycode: u8, keysyms: Seq<u32>, step: int, i: int) -> Seq<
    u8,
>
    decreases keysyms.len(),
{
    if keysyms.len() == 0 || step <= 0 {
        Seq::empty()
    } else {
        let n = smaller(step, keysyms.len() as int);
        let after = codes_of(keysym, min_keycode, keysyms.skip(n), step, i + 1);
        if keysyms.take(n).contains(keysym) {
            seq![code_at(min_keycode, i)] + after
        } else {
            after
        }
    }
}

/// How many symbols each key has.
pub open spec fn per_key(per_keycode: int) -> int {
    if per_keycode < 1 {
        1
    } else {
        per_keycode
    }
}

/// The codes of the keys that carry `keysym`, in any of their `per_keycode`
/// columns. `keysyms` holds the symbols of all keys, from that with the lowest
/// code on.
pub fn keycodes_for(keysym: u32, min_keycode: u8, keysyms: &[u32], per_keycode: usize) -> (r: Vec<u8>)
    ensures
        r@ == codes_of(keysym, min_keycode, keysyms@, per_key(per_keycode as int), 0),
{
    let step: usize = if per_keycode < 1 {
        1
    } else {
        per_keycode
    };
    let len: usize = keysyms.len();
    let ghost all = codes_of(keysym, min_keycode, keysyms@, step as int, 0);
    let mut r: Vec<u8> = Vec::new();
    let mut at: usize = 0;
    let mut i: usize = 0;
    assert(keysyms@.skip(0) == keysyms@);
    while at < len
        invariant
            len == keysyms@.len(),
            step >= 1,
            i <= at <= len,
            all == r@ + codes_of(keysym, min_keycode, keysyms@.skip(at as int), step as int, i as int),
        decreases len - at,
    {
        let n: usize = if step <= len - at {
            step
        } else {
            len - at
        };
        let ghost here = keysyms@.skip(at as int);
        let ghost was = r@;
        let mut found = false;
        for k in 0..n
            invariant
                here == keysyms@.skip(at as int),
                at + n <= len == keysyms@.len(),
                n <= here.len(),
                found == exists|j: int| 0 <= j < k && #[trigger] here[j] == keysym,
        {
            assert(keysyms@[at + k] == here[k as int]);
            if keysyms[at + k] == keysym {
                found = true;
            }
        }
        proof {
            let head = here.take(n as int);
            if found {
                let j = choose|j: int| 0 <= j < n && #[trigger] here[j] == keysym;
                assert(head[j] == keysym);
            } else {
                assert forall|j: int| 0 <= j < head.len() implies head[j] != keysym by {
                    assert(head[j] == here[j]);
                }
            }
        }
        if found {
            let low: u16 = min_keycode as u16 + (i % 256) as u16;
            r.push(if low > 255 {
                255
            } else {
                low as u8
            });
        }
        assert(here.skip(n as int) == keysyms@.skip(at + n));
        assert(n == smaller(step as int, here.len() as int));
        at = at + n;
        i = i + 1;
        assert(all == r@ + codes_of(
            keysym,
            min_keycode,
            keysyms@.skip(at as int),
            step as int,
            i as int,
        ));
    }
    assert(all == r@);
    r
}

/// Whether the bit `i` is set.
pub open spec fn bit(byte: u8, i: u8) -> bool {
    byte & (1u8 << i) != 0
}

/// Whether a key is down, from the state of the keyboard, which has a bit for
/// each code: eight to a byte, the lowest first.
pub fn keycode_down(keymap: &[u8; 32], keycode: u8) -> (r: bool)
    ensures
        r == bit(keymap@[keycode as int / 8], keycode % 8),
{
    let byte: usize = keycode as usize >> 3;
    assert(byte == keycode as usize / 8) by (bit_vector)
        requires
            byte == keycode as usize >> 3,
    ;
    let i: u8 = keycode & 7;
    assert(i == keycode % 8) by (bit_vector)
        requires
            i == keycode & 7,
    ;
    keymap[byte] & (1u8 << i) != 0
}

/// Whether any of the keys is down.
pub fn any_down(keymap: &[u8; 32], keycodes: &[u8]) -> (r: bool)
    ensures
        r == exists|k: int|
            0 <= k < keycodes@.len() && bit(
                keymap@[#[trigger] keycodes@[k] as int / 8],
                keycodes@[k] % 8,
            ),
{
    for i in 0..keycodes.len()
        invariant
            forall|k: int|
                0 <= k < i ==> !bit(
                    keymap@[#[trigger] keycodes@[k] as int / 8],
                    keycodes@[k] % 8,
                ),
    {
        if keycode_down(keymap, keycodes[i]) {
            assert(bit(keymap@[keycodes@[i as int] as int / 8], keycodes@[i as int] % 8));
            return true;
        }
    }
    false
}

/// The keys of a paste on an X server.
#[derive(Debug, PartialEq, Eq)]
pub struct XChord {
    pub ctrl: u8,
    pub v: u8,
    /// The modifiers that must not be down with the chord.
    pub stray: Vec<u8>,
    /// All keys to wait for.
    pub watched: Vec<u8>,
}

/// The symbols of the modifiers that must not be down with the chord.
pub open spec fn stray_syms() -> Seq<u32> {
    seq![
        XK_ALT_L,
        XK_ALT_R,
        XK_META_L,
        XK_META_R,
        XK_SUPER_L,
        XK_SUPER_R,
        XK_SHIFT_L,
        XK_SHIFT_R,
    ]
}

/// The codes of all keys that carry one of the symbols, symbol by symbol.
pub open spec fn codes_of_all(syms: Seq<u32>, min_keycode: u8, keysyms: Seq<u32>, step: int) -> Seq<
    u8,
>
    decreases syms.len(),
{
    if syms.len() == 0 {
        Seq::empty()
    } else {
        codes_of_all(syms.drop_last(), min_keycode, keysyms, step) + codes_of(
            syms.last(),
            min_keycode,
            keysyms,
            step,
            0,
        )
    }
}

/// Append the codes `more` to `v`.
fn append(v: &mut Vec<u8>, more: &[u8])
    ensures
        final(v)@ == old(v)@ + more@,
{
    for i in 0..more.len()
        invariant
            v@ == old(v)@ + more@.take(i as int),
    {
        v.push(more[i]);
        assert(v@ == old(v)@ + more@.take(i + 1));
    }
    assert(more@.take(more@.len() as int) == more@);
}

/// The keys of a paste, from the symbols that the keys of the server carry.
pub fn x11_chord(min_keycode: u8, keysyms: &[u32], per_keycode: usize) -> (r: Result<XChord, String>)
    ensures
        ({
            let step = per_key(per_keycode as int);
            let ctrl = codes_of(XK_CONTROL_L, min_keycode, keysyms@, step, 0);
            let v = codes_of(XK_V_LOWER, min_keycode, keysyms@, step, 0);
            match r {
                Ok(c) => {
                    &&& ctrl.len() > 0 && v.len() > 0
                    &&& c.ctrl == ctrl[0]
                    &&& c.v == v[0]
                    &&& c.stray@ == codes_of_all(stray_syms(), min_keycode, keysyms@, step)
                    &&& c.watched@ == c.stray@ + codes_of(
                        XK_CONTROL_R,
                        min_keycode,
                        keysyms@,
                        step,
                        0,
                    ) + seq![c.ctrl, c.v]
                },
                Err(e) => {
                    &&& ctrl.len() == 0 || v.len() == 0
                    &&& e@ == "keymap has no Control_L / V keycode"@
                },
            }
        }),
{
    let ctrls = keycodes_for(XK_CONTROL_L, min_keycode, keysyms, per_keycode);
    let vs = keycodes_for(XK_V_LOWER, min_keycode, keysyms, per_keycode);
    if ctrls.len() == 0 || vs.len() == 0 {
        return Err("keymap has no Control_L / V keycode".to_string());
    }
    let ctrl: u8 = ctrls[0];
    let v: u8 = vs[0];
    let syms: Vec<u32> = vec![
        XK_ALT_L,
        XK_ALT_R,
        XK_META_L,
        XK_META_R,
        XK_SUPER_L,
        XK_SUPER_R,
        XK_SHIFT_L,
        XK_SHIFT_R,
    ];
    assert(syms@ == stray_syms());
    let ghost step = per_key(per_keycode as int);
    let mut stray: Vec<u8> = Vec::new();
    for i in 0..syms.len()
        invariant
            step == per_key(per_keycode as int),
            stray@ == codes_of_all(syms@.take(i as int), min_keycode, keysyms@, step),
    {
        let more = keycodes_for(syms[i], min_keycode, keysyms, per_keycode);
        append(&mut stray, more.as_slice());
        assert(syms@.take(i + 1).drop_last() == syms@.take(i as int));
    }
    assert(syms@.take(syms@.len() as int) == syms@);
    let mut watched: Vec<u8> = Vec::new();
    append(&mut watched, stray.as_slice());
    let right = keycodes_for(XK_CONTROL_R, min_keycode, keysyms, per_keycode);
    append(&mut watched, right.as_slice());
    watched.push(ctrl);
    watched.push(v);
    assert(watched@ == stray@ + right@ + seq![ctrl, v]);
    Ok(XChord { ctrl, v, stray, watched })
}

/// Key codes as they stand in key events.
pub open spec fn widened(codes: Seq<u8>) -> Seq<i32> {
    codes.map_values(|c: u8| c as i32)
}

impl XChord {
    /// The keys to send where the hotkey was held too long.
    pub fn forced(&self) -> (r: Vec<Key>)
        ensures
            r@ == ups(widened(self.stray@)),
    {
        let mut codes: Vec<i32> = Vec::new();
        for i in 0..self.stray.len()
            invariant
                codes@ == widened(self.stray@.take(i as int)),
        {
            codes.push(self.stray[i] as i32);
            assert(codes@ == widened(self.stray@.take(i + 1)));
        }
        assert(self.stray@.take(self.stray@.len() as int) == self.stray@);
        releases(codes.as_slice())
    }

    /// The keys of the paste.
    pub fn keys(&self) -> (r: Vec<Key>)
        ensures
            r@ == stroke(self.ctrl as i32, self.v as i32),
    {
        chord(self.ctrl as i32, self.v as i32)
    }
}

// ---- the portal -------------------------------------------------------------

pub const KEY_LEFTCTRL: i32 = 29;

pub const KEY_LEFTSHIFT: i32 = 42;

pub const KEY_V: i32 = 47;

pub const KEY_RIGHTSHIFT: i32 = 54;

pub const KEY_LEFTALT: i32 = 56;

pub const KEY_RIGHTCTRL: i32 = 97;

pub const KEY_RIGHTALT: i32 = 100;

pub const KEY_LEFTMETA: i32 = 125;

pub const KEY_RIGHTMETA: i32 = 126;

/// The keys that the portal releases before the chord: every modifier that is
/// not part of it, and the V of the hotkey.
pub open spec fn portal_stray() -> Seq<i32> {
    seq![
        KEY_LEFTALT,
        KEY_RIGHTALT,
        KEY_LEFTSHIFT,
        KEY_RIGHTSHIFT,
        KEY_LEFTMETA,
        KEY_RIGHTMETA,
        KEY_RIGHTCTRL,
        KEY_V,
    ]
}

/// The keys of a paste through the portal.
pub fn portal_keys() -> (r: Vec<Key>)
    ensures
        r@ == ups(portal_stray()) + stroke(KEY_LEFTCTRL, KEY_V),
{
    let stray = vec![
        KEY_LEFTALT,
        KEY_RIGHTALT,
        KEY_LEFTSHIFT,
        KEY_RIGHTSHIFT,
        KEY_LEFTMETA,
        KEY_RIGHTMETA,
        KEY_RIGHTCTRL,
        KEY_V,
    ];
    assert(stray@ == portal_stray());
    let mut r = releases(stray.as_slice());
    let keys = chord(KEY_LEFTCTRL, KEY_V);
    for i in 0..keys.len()
        invariant
            r@ == ups(portal_stray()) + keys@.take(i as int),
    {
        r.push(keys[i]);
        assert(r@ == ups(portal_stray()) + keys@.take(i + 1));
    }
    assert(keys@.take(keys@.len() as int) == keys@);
    r
}

/// The token to keep, where the portal handed out one that is new. Tokens work
/// once, so a replacement must not be lost; what has not changed is not written
/// again.
pub fn persist_token(loaded: &str, refreshed: Option<String>) -> (r: Option<String>)
    ensures
        match refreshed {
            Some(t) => if t@ == loaded@ {
                r is None
            } else {
                r matches Some(kept) && kept@ == t@
            },
            None => r is None,
        },
{
    match refreshed {
        Some(t) => if text::str_eq(t.as_str(), loaded) {
            None
        } else {
            Some(t)
        },
        None => None,
    }
}

/// What to ask of the desktop next.
#[derive(Debug, PartialEq, Eq)]
pub enum PortalStep {
    /// Send the keys, on the session that was kept or the one just started.
    Inject,
    /// Close the session that is out of the slot.
    Close,
    /// Create a session.
    Create,
    /// Select the keyboard and start the session, with this token where there is
    /// one.
    Start(Option<String>),
    /// The paste is done; keep this token where there is one.
    Done(Option<String>),
    /// The paste has failed, and why.
    Failed(String),
}

/// Where a paste stands.
#[derive(Clone, Copy, PartialEq, Eq, Structural, Debug)]
pub enum Phase {
    Idle,
    /// The keys are sent on the session that was kept.
    Reuse,
    /// That session is dead, and is closed.
    Stale,
    Create,
    Start,
    /// The keys are sent on the new session.
    Fresh,
    /// The new session is of no use, and is closed.
    Broken,
}

/// The one session with the portal that a run of the program has. It is made
/// with the first paste and kept for the others: the desktop announces each
/// session to the user. A session is kept in the slot, or it is out of it while a
/// paste uses it.
#[derive(Debug, PartialEq, Eq)]
pub struct Portal {
    /// Whether a session is kept.
    pub kept: bool,
    /// Whether a session is out of the slot.
    pub out: bool,
    pub phase: Phase,
    /// The token that the paste began with.
    pub loaded: String,
    /// The token that the portal handed out.
    pub refreshed: Option<String>,
    /// Why the new session is closed.
    pub why: String,
}

/// What a failed paste says.
pub open spec fn portal_error(why: Seq<char>) -> Seq<char> {
    "RemoteDesktop portal: "@ + why
}

/// What a failed paste says.
fn portal_message(why: &str) -> (r: String)
    ensures
        r@ == portal_error(why@),
{
    let mut out = text::chars_of("RemoteDesktop portal: ");
    text::extend_str(&mut out, why);
    text::string_of(out.as_slice())
}

/// The token to start a session with.
pub open spec fn start_with(step: PortalStep, loaded: Seq<char>) -> bool {
    match step {
        PortalStep::Start(Some(t)) => loaded.len() > 0 && t@ == loaded,
        PortalStep::Start(None) => loaded.len() == 0,
        _ => false,
    }
}

/// The end of a paste that worked: what is kept of the token that came back.
pub open spec fn done_with(step: PortalStep, loaded: Seq<char>, refreshed: Option<String>) -> bool {
    match step {
        PortalStep::Done(Some(t)) => refreshed matches Some(new) && new@ != loaded && t@ == new@,
        PortalStep::Done(None) => refreshed is None || refreshed.unwrap()@ == loaded,
        _ => false,
    }
}

impl Portal {
    /// Between pastes no session is out of the slot. During one none is in it, and
    /// one is out while there is one.
    pub open spec fn wf(self) -> bool {
        &&& self.out == !(self.phase == Phase::Idle || self.phase == Phase::Create)
        &&& self.kept ==> self.phase == Phase::Idle
        &&& self.phase == Phase::Reuse || self.phase == Phase::Stale || self.phase == Phase::Create
            || self.phase == Phase::Start ==> self.refreshed is None
    }

    /// How many sessions there are.
    pub open spec fn sessions(self) -> nat {
        (if self.kept {
            1nat
        } else {
            0
        }) + if self.out {
            1nat
        } else {
            0
        }
    }

    /// Before the first paste: there is no session, no token and nothing that went
    /// wrong.
    pub fn new() -> (r: Self)
        ensures
            r.wf(),
            r.phase == Phase::Idle,
            !r.kept,
            !r.out,
            r.loaded@ == Seq::<char>::empty(),
            r.refreshed is None,
            r.why@ == Seq::<char>::empty(),
    {
        Portal {
            kept: false,
            out: false,
            phase: Phase::Idle,
            loaded: String::new(),
            refreshed: None,
            why: String::new(),
        }
    }

    /// A paste is due, and `loaded` is the token that was kept last. Pastes do not
    /// overlap.
    pub fn paste(&mut self, loaded: String) -> (r: PortalStep)
        requires
            old(self).wf(),
            old(self).phase == Phase::Idle,
        ensures
            final(self).wf(),
            final(self).loaded@ == loaded@,
            final(self).refreshed is None,
            if old(self).kept {
                final(self).phase == Phase::Reuse && r is Inject
            } else {
                final(self).phase == Phase::Create && r is Create
            },
    {
        self.loaded = loaded;
        self.refreshed = None;
        if self.kept {
            self.kept = false;
            self.out = true;
            self.phase = Phase::Reuse;
            PortalStep::Inject
        } else {
            self.phase = Phase::Create;
            PortalStep::Create
        }
    }

    /// The keys were sent, or why not.
    pub fn injected(&mut self, sent: Result<(), String>) -> (r: PortalStep)
        requires
            old(self).wf(),
            old(self).phase == Phase::Reuse || old(self).phase == Phase::Fresh,
        ensures
            final(self).wf(),
            final(self).loaded == old(self).loaded,
            match sent {
                Ok(()) => {
                    &&& final(self).phase == Phase::Idle
                    &&& final(self).kept
                    &&& done_with(r, old(self).loaded@, old(self).refreshed)
                },
                Err(e) => if old(self).phase == Phase::Reuse {
                    final(self).phase == Phase::Stale && r is Close
                } else {
                    final(self).phase == Phase::Broken && r is Close && final(self).why@ == e@
                },
            },
    {
        match sent {
            Ok(()) => {
                self.phase = Phase::Idle;
                self.out = false;
                self.kept = true;
                let refreshed = self.refreshed.take();
                PortalStep::Done(persist_token(self.loaded.as_str(), refreshed))
            },
            Err(e) => {
                if self.phase == Phase::Reuse {
                    self.phase = Phase::Stale;
                } else {
                    self.phase = Phase::Broken;
                    self.why = e;
                }
                PortalStep::Close
            },
        }
    }

    /// The session that was out of the slot was closed, as well as could be. One
    /// that was stale is replaced within the same paste.
    pub fn closed(&mut self) -> (r: PortalStep)
        requires
            old(self).wf(),
            old(self).phase == Phase::Stale || old(self).phase == Phase::Broken,
        ensures
            final(self).wf(),
            final(self).loaded == old(self).loaded,
            final(self).refreshed is None,
            !final(self).kept,
            if old(self).phase == Phase::Stale {
                final(self).phase == Phase::Create && r is Create
            } else {
                &&& final(self).phase == Phase::Idle
                &&& r matches PortalStep::Failed(e) && e@ == portal_error(old(self).why@)
            },
    {
        self.out = false;
        self.refreshed = None;
        if self.phase == Phase::Stale {
            self.phase = Phase::Create;
            PortalStep::Create
        } else {
            self.phase = Phase::Idle;
            PortalStep::Failed(portal_message(self.why.as_str()))
        }
    }

    /// A session was created, or why not.
    pub fn created(&mut self, made: Result<(), String>) -> (r: PortalStep)
        requires
            old(self).wf(),
            old(self).phase == Phase::Create,
        ensures
            final(self).wf(),
            final(self).loaded == old(self).loaded,
            final(self).refreshed == old(self).refreshed,
            !final(self).kept,
            match made {
                Ok(()) => final(self).phase == Phase::Start && start_with(r, old(self).loaded@),
                Err(e) => {
                    &&& final(self).phase == Phase::Idle
                    &&& r matches PortalStep::Failed(why) && why@ == portal_error(e@)
                },
            },
    {
        match made {
            Ok(()) => {
                self.phase = Phase::Start;
                self.out = true;
                if text::chars_of(self.loaded.as_str()).len() == 0 {
                    PortalStep::Start(None)
                } else {
                    PortalStep::Start(Some(self.loaded.clone()))
                }
            },
            Err(e) => {
                self.phase = Phase::Idle;
                PortalStep::Failed(portal_message(e.as_str()))
            },
        }
    }

    /// The session was started, with a token to start the next one with where the
    /// portal handed out one; or why not.
    pub fn started(&mut self, token: Result<Option<String>, String>) -> (r: PortalStep)
        requires
            old(self).wf(),
            old(self).phase == Phase::Start,
        ensures
            final(self).wf(),
            final(self).loaded == old(self).loaded,
            match token {
                Ok(t) => {
                    &&& final(self).phase == Phase::Fresh
                    &&& r is Inject
                    &&& final(self).refreshed == t
                },
                Err(e) => {
                    &&& final(self).phase == Phase::Broken
                    &&& r is Close
                    &&& final(self).why@ == e@
                },
            },
    {
        match token {
            Ok(t) => {
                self.phase = Phase::Fresh;
                self.refreshed = t;
                PortalStep::Inject
            },
            Err(e) => {
                self.phase = Phase::Broken;
                self.why = e;
                PortalStep::Close
            },
        }
    }

    /// The program exits: whether there is a session to close. One that a paste
    /// has out of the slot is left to end with the program.
    pub fn close_portal_session(&mut self) -> (r: bool)
        requires
            old(self).wf(),
        ensures
            final(self).wf(),
            r == old(self).kept,
            !final(self).kept,
            final(self).phase == old(self).phase,
            final(self).out == old(self).out,
            final(self).loaded == old(self).loaded,
            final(self).refreshed == old(self).refreshed,
            final(self).why == old(self).why,
    {
        let kept = self.kept;
        self.kept = false;
        kept
    }
}

// ---- laws -------------------------------------------------------------------

/// The keys that are down after the events `keys`, where those in `down` were
/// before.
pub open spec fn after(down: Set<i32>, keys: Seq<Key>) -> Set<i32>
    decreases keys.len(),
{
    if keys.len() == 0 {
        down
    } else {
        let before = after(down, keys.drop_last());
        if keys.last().down {
            before.insert(keys.last().code)
        } else {
            before.remove(keys.last().code)
        }
    }
}

proof fn lemma_after_add(down: Set<i32>, a: Seq<Key>, b: Seq<Key>)
    ensures
        after(down, a + b) == after(after(down, a), b),
    decreases b.len(),
{
    if b.len() == 0 {
        assert(a + b == a);
    } else {
        assert((a + b).drop_last() == a + b.drop_last());
        lemma_after_add(down, a, b.drop_last());
    }
}

proof fn lemma_after_ups(down: Set<i32>, codes: Seq<i32>)
    ensures
        forall|k: i32| #[trigger]
            after(down, ups(codes)).contains(k) == (down.contains(k) && !codes.contains(k)),
    decreases codes.len(),
{
    if codes.len() > 0 {
        assert(ups(codes).drop_last() == ups(codes.drop_last()));
        lemma_after_ups(down, codes.drop_last());
        let before = after(down, ups(codes.drop_last()));
        assert(after(down, ups(codes)) == before.remove(codes.last()));
        assert forall|k: i32| #[trigger]
            after(down, ups(codes)).contains(k) == (down.contains(k) && !codes.contains(k)) by {
            assert(before.contains(k) == (down.contains(k) && !codes.drop_last().contains(k)));
            if codes.contains(k) {
                let i = choose|i: int| 0 <= i < codes.len() && codes[i] == k;
                if i < codes.len() - 1 {
                    assert(codes.drop_last()[i] == k);
                }
            }
            if codes.drop_last().contains(k) {
                let i = choose|i: int| 0 <= i < codes.drop_last().len() && codes.drop_last()[i] == k;
                assert(codes[i] == k);
            }
            assert(codes[codes.len() - 1] == codes.last());
        }
    } else {
        assert(ups(codes).len() == 0);
    }
}

/// Whatever keys the user still holds, once the stray ones were released a paste
/// arrives as the plain chord: when V goes down, Ctrl is down, and of the stray
/// keys none is. Afterwards neither key of the chord is down, and every other key
/// is as the user holds it.
pub proof fn law_paste_lands_clean(held: Set<i32>, stray: Seq<i32>, ctrl: i32, v: i32)
    requires
        ctrl != v,
    ensures
        ({
            let struck = after(held, ups(stray) + stroke(ctrl, v).take(2));
            let done = after(held, ups(stray) + stroke(ctrl, v));
            &&& struck.contains(ctrl) && struck.contains(v)
            &&& forall|k: i32|
                k != ctrl && k != v ==> (#[trigger] struck.contains(k) == (held.contains(k)
                    && !stray.contains(k)))
            &&& !done.contains(ctrl) && !done.contains(v)
            &&& forall|k: i32|
                k != ctrl && k != v ==> (#[trigger] done.contains(k) == (held.contains(k)
                    && !stray.contains(k)))
        }),
{
    let s = stroke(ctrl, v);
    lemma_after_add(held, ups(stray), s.take(2));
    lemma_after_add(held, ups(stray), s);
    lemma_after_ups(held, stray);
    let base = after(held, ups(stray));
    assert(s.take(2).drop_last() == s.take(1));
    assert(s.take(1).drop_last() == s.take(0));
    assert(s.take(0).len() == 0);
    assert(after(base, s.take(0)) == base);
    assert(after(base, s.take(1)) == base.insert(ctrl));
    assert(after(base, s.take(2)) == base.insert(ctrl).insert(v));
    assert(s.drop_last() == s.take(3));
    assert(s.take(3).drop_last() == s.take(2));
    assert(after(base, s.take(3)) == base.insert(ctrl).insert(v).remove(v));
    assert(after(base, s) == base.insert(ctrl).insert(v).remove(v).remove(ctrl));
}

/// There is never more than one session, and between pastes there is none but the
/// one that is kept: a paste leaves none behind, whether it worked or not.
pub proof fn law_one_session(p: Portal)
    requires
        p.wf(),
    ensures
        p.sessions() <= 1,
        p.phase == Phase::Idle ==> (p.sessions() == 1 <==> p.kept),
{
}

/// A chord goes down from the modifier and up from the key: so it is held together.
pub proof fn law_the_chord(ctrl: i32, v: i32)
    ensures
        stroke(ctrl, v).len() == 4,
        stroke(ctrl, v)[0] == (Key { code: ctrl, down: true }),
        stroke(ctrl, v)[1] == (Key { code: v, down: true }),
        stroke(ctrl, v)[2] == (Key { code: v, down: false }),
        stroke(ctrl, v)[3] == (Key { code: ctrl, down: false }),
{
}

/// The keys that would spoil a paste are all let go: on X11 both of Alt, Meta, Super and
/// Shift, and through the portal both of Alt, Shift and Meta, the right Ctrl and V.
pub proof fn law_every_stray_key_is_let_go()
    ensures
        stray_syms().contains(0xFFE9) && stray_syms().contains(0xFFEA) && stray_syms().contains(
            0xFFE7,
        ) && stray_syms().contains(0xFFE8) && stray_syms().contains(0xFFEB)
            && stray_syms().contains(0xFFEC) && stray_syms().contains(0xFFE1)
            && stray_syms().contains(0xFFE2),
        !stray_syms().contains(0xFFE3) && !stray_syms().contains(0x76),
        portal_stray().contains(56) && portal_stray().contains(100) && portal_stray().contains(42)
            && portal_stray().contains(54) && portal_stray().contains(125)
            && portal_stray().contains(126) && portal_stray().contains(97)
            && portal_stray().contains(47),
        !portal_stray().contains(29),
{
    let s = stray_syms();
    assert(s[0] == 0xFFE9 && s[1] == 0xFFEA && s[2] == 0xFFE7 && s[3] == 0xFFE8 && s[4] == 0xFFEB
        && s[5] == 0xFFEC && s[6] == 0xFFE1 && s[7] == 0xFFE2);
    assert(s.len() == 8);
    let p = portal_stray();
    assert(p[0] == 56 && p[1] == 100 && p[2] == 42 && p[3] == 54 && p[4] == 125 && p[5] == 126
        && p[6] == 97 && p[7] == 47);
    assert(p.len() == 8);
}

/// The codes of a symbol are those of the rows that hold it, in order: the first row is
/// that of the lowest code, and each row that follows that of the next one.
pub proof fn law_codes_are_those_of_the_rows(
    keysym: u32,
    min_keycode: u8,
    row: Seq<u32>,
    rest: Seq<u32>,
    i: int,
)
    requires
        row.len() > 0,
        0 <= i,
        min_keycode + i <= 255,
    ensures
        codes_of(keysym, min_keycode, row + rest, row.len() as int, i) == if row.contains(keysym) {
            seq![(min_keycode + i) as u8] + codes_of(
                keysym,
                min_keycode,
                rest,
                row.len() as int,
                i + 1,
            )
        } else {
            codes_of(keysym, min_keycode, rest, row.len() as int, i + 1)
        },
        codes_of(keysym, min_keycode, Seq::empty(), row.len() as int, i) == Seq::<u8>::empty(),
{
    let all = row + rest;
    let n = smaller(row.len() as int, all.len() as int);
    assert(n == row.len());
    assert(all.take(n) == row);
    assert(all.skip(n) == rest);
    assert(i % 256 == i);
}

/// The state of a key is one bit: the first key of a byte is its lowest one.
pub proof fn law_bits(byte: u8)
    ensures
        bit(byte, 0) <==> byte % 2 == 1,
        bit(byte, 1) <==> byte / 2 % 2 == 1,
        bit(byte, 2) <==> byte / 4 % 2 == 1,
        bit(byte, 3) <==> byte / 8 % 2 == 1,
        bit(byte, 4) <==> byte / 16 % 2 == 1,
        bit(byte, 5) <==> byte / 32 % 2 == 1,
        bit(byte, 6) <==> byte / 64 % 2 == 1,
        bit(byte, 7) <==> byte / 128 % 2 == 1,
{
    assert(byte & (1u8 << 0u8) != 0 <==> byte % 2 == 1) by (bit_vector);
    assert(byte & (1u8 << 1u8) != 0 <==> byte / 2 % 2 == 1) by (bit_vector);
    assert(byte & (1u8 << 2u8) != 0 <==> byte / 4 % 2 == 1) by (bit_vector);
    assert(byte & (1u8 << 3u8) != 0 <==> byte / 8 % 2 == 1) by (bit_vector);
    assert(byte & (1u8 << 4u8) != 0 <==> byte / 16 % 2 == 1) by (bit_vector);
    assert(byte & (1u8 << 5u8) != 0 <==> byte / 32 % 2 == 1) by (bit_vector);
    assert(byte & (1u8 << 6u8) != 0 <==> byte / 64 % 2 == 1) by (bit_vector);
    assert(byte & (1u8 << 7u8) != 0 <==> byte / 128 % 2 == 1) by (bit_vector);
}

/// A session is started with the token that was kept, if there is one, and a new token is
/// handed out, unless it is the one that was there.
pub proof fn law_tokens(t: String, loaded: Seq<char>, new: String)
    ensures
        start_with(PortalStep::Start(Some(t)), loaded) <==> loaded.len() > 0 && t@ == loaded,
        start_with(PortalStep::Start(None), loaded) <==> loaded.len() == 0,
        done_with(PortalStep::Done(Some(t)), loaded, Some(new)) <==> new@ != loaded && t@ == new@,
        done_with(PortalStep::Done(None), loaded, Some(new)) <==> new@ == loaded,
        done_with(PortalStep::Done(None), loaded, None),
        !done_with(PortalStep::Done(Some(t)), loaded, None),
        portal_error(loaded) == "RemoteDesktop portal: "@ + loaded,
{
}

/// The codes of several keys are those of each of them, in order; a row holds at least one
/// symbol, and a code is the same number in every width.
pub proof fn law_codes_of_several_keys(
    syms: Seq<u32>,
    sym: u32,
    min_keycode: u8,
    keysyms: Seq<u32>,
    step: int,
    codes: Seq<u8>,
    i: int,
)
    ensures
        codes_of_all(Seq::empty(), min_keycode, keysyms, step) == Seq::<u8>::empty(),
        codes_of_all(syms.push(sym), min_keycode, keysyms, step) == codes_of_all(
            syms,
            min_keycode,
            keysyms,
            step,
        ) + codes_of(sym, min_keycode, keysyms, step, 0),
        step >= 1 ==> per_key(step) == step,
        step < 1 ==> per_key(step) == 1,
        widened(codes).len() == codes.len(),
        0 <= i < codes.len() ==> widened(codes)[i] == codes[i],
{
    assert(syms.push(sym).drop_last() == syms);
}

/// The codes of the rows follow each other, and none is beyond the last one; the count of
/// the rows starts again behind each two hundred and fifty-six of them.
pub proof fn law_codes_follow_each_other(min_keycode: u8, i: int)
    requires
        0 <= i,
    ensures
        i < 256 && min_keycode + i <= 255 ==> code_at(min_keycode, i) == min_keycode + i,
        i < 256 && min_keycode + i > 255 ==> code_at(min_keycode, i) == 255,
        code_at(min_keycode, i + 256) == code_at(min_keycode, i),
{
}

} // verus!
