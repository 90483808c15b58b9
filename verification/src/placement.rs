//! Where the windows go: the panel to where the user left it, as long as that is
//! on a screen, the pill to an edge of the active screen.
//!
//! Positions and sizes are in physical pixels. A work area is the part of a
//! screen that windows may use: its left, top, right and bottom edge.

use crate::text;
use vstd::prelude::*;

verus! {

/// How long a drag must rest before the position is kept, in milliseconds.
pub const SAVE_DEBOUNCE_MS: u64 = 800;

/// How far the pill stays from its edge unless told otherwise.
pub const PILL_PADDING_DEFAULT: i32 = 110;

/// The panel's width, in logical pixels.
pub const PANEL_W_COMPACT: u32 = 400;

/// The panel's width with its second half open, in logical pixels.
pub const PANEL_W_EXPANDED: u32 = 800;

/// The panel's height, in logical pixels.
pub const PANEL_H: u32 = 560;

/// How often a position is applied again after a window is shown.
pub const REPOSITION_TIMES: u32 = 6;

/// How long to wait between two of these, in milliseconds.
pub const REPOSITION_MS: u64 = 50;

/// How long to wait before the panel is brought to the front, in milliseconds.
pub const SUMMON_MS: u64 = 150;

/// Whether `n` is an `i32`.
pub open spec fn fits(n: int) -> bool {
    i32::MIN <= n <= i32::MAX
}

/// Half of `n`, rounded towards nought.
pub open spec fn half(n: int) -> int {
    if n >= 0 {
        n / 2
    } else {
        -((-n) / 2)
    }
}

// ---- the remembered position ------------------------------------------------

/// The position that a kept text tells: two numbers with a comma between them.
pub open spec fn pos_of(s: Seq<char>) -> Option<(int, int)> {
    match text::index_of(s, ',') {
        Some(k) => match (
            text::signed_of(text::trim(s.take(k)), i32::MIN as int, i32::MAX as int),
            text::signed_of(text::trim(s.skip(k + 1)), i32::MIN as int, i32::MAX as int),
        ) {
            (Some(x), Some(y)) => Some((x, y)),
            _ => None,
        },
        None => None,
    }
}

/// The position that a kept text tells; anything but two numbers tells none.
pub fn parse_panel_pos(s: &str) -> (r: Option<(i32, i32)>)
    ensures
        match r {
            Some((x, y)) => pos_of(s@) == Some((x as int, y as int)),
            None => pos_of(s@) is None,
        },
{
    let c = text::chars_of(s);
    let n: usize = c.len();
    match text::position_of(c.as_slice(), ',') {
        Some(k) => {
            assert(k < n);
            let x = text::parse_i32(text::trimmed(text::first(c.as_slice(), k)));
            let y = text::parse_i32(text::trimmed(text::rest(c.as_slice(), k + 1)));
            match (x, y) {
                (Some(x), Some(y)) => Some((x, y)),
                _ => None,
            }
        },
        None => None,
    }
}

/// The text that keeps a position.
pub open spec fn pos_text(x: int, y: int) -> Seq<char> {
    text::signed_decimal(x) + ","@ + text::signed_decimal(y)
}

/// The text that keeps a position.
pub fn format_panel_pos(x: i32, y: i32) -> (r: String)
    ensures
        r@ == pos_text(x as int, y as int),
{
    let mut out = text::signed_decimal_of(x as i64);
    text::extend_str(&mut out, ",");
    let tail = text::signed_decimal_of(y as i64);
    text::extend(&mut out, tail.as_slice());
    text::string_of(out.as_slice())
}

/// What is known of the panel's window.
#[derive(Debug, PartialEq, Eq)]
pub struct Placement {
    /// It is to stay above all others.
    pub pinned: bool,
    /// Where it was last seen.
    pub panel_pos: Option<(i32, i32)>,
    /// How often it was seen: only the latest time is kept.
    pub save_gen: u64,
    /// Its moves are being followed.
    pub tracking: bool,
}

impl Placement {
    /// Nothing is known.
    pub fn new() -> (r: Placement)
        ensures
            r == (Placement { pinned: false, panel_pos: None, save_gen: 0, tracking: false }),
    {
        Placement { pinned: false, panel_pos: None, save_gen: 0, tracking: false }
    }

    /// The panel is to stay above all others, or not.
    pub fn set_pin(&mut self, on: bool)
        ensures
            *final(self) == (Placement { pinned: on, ..*old(self) }),
    {
        self.pinned = on;
    }

    /// Whether the panel is to stay above all others.
    pub fn pinned(&self) -> (r: bool)
        ensures
            r == self.pinned,
    {
        self.pinned
    }

    /// Begin to follow the panel, with the position that was kept: whether this
    /// is the first time. Any other time does nothing.
    pub fn init_panel_tracking(&mut self, saved: &str) -> (first: bool)
        ensures
            first == !old(self).tracking,
            !first ==> *final(self) == *old(self),
            first ==> {
                &&& *final(self) == (Placement {
                    tracking: true,
                    panel_pos: final(self).panel_pos,
                    ..*old(self)
                })
                &&& match final(self).panel_pos {
                    Some((x, y)) => pos_of(saved@) == Some((x as int, y as int)),
                    None => pos_of(saved@) is None,
                }
            },
    {
        if self.tracking {
            return false;
        }
        self.tracking = true;
        self.panel_pos = parse_panel_pos(saved);
        true
    }

    /// The panel was seen at a position: the number under which it may be kept.
    pub fn note_panel_pos(&mut self, x: i32, y: i32) -> (number: u64)
        requires
            old(self).save_gen < u64::MAX,
        ensures
            number == old(self).save_gen + 1,
            *final(self) == (Placement {
                panel_pos: Some((x, y)),
                save_gen: number,
                ..*old(self)
            }),
    {
        self.panel_pos = Some((x, y));
        self.save_gen = self.save_gen + 1;
        self.save_gen
    }

    /// The panel moved: noted only while it is visible.
    pub fn moved(&mut self, visible: bool, x: i32, y: i32) -> (number: Option<u64>)
        requires
            old(self).save_gen < u64::MAX,
        ensures
            number is Some == visible,
            !visible ==> *final(self) == *old(self),
            visible ==> *final(self) == (Placement {
                panel_pos: Some((x, y)),
                save_gen: (old(self).save_gen + 1) as u64,
                ..*old(self)
            }) && number == Some(final(self).save_gen),
    {
        if visible {
            Some(self.note_panel_pos(x, y))
        } else {
            None
        }
    }

    /// The text to keep under this number, where it is still the latest and says
    /// anything new.
    pub fn to_save(&self, number: u64, kept: &str) -> (r: Option<String>)
        ensures
            text::opt_text(r) == match self.panel_pos {
                Some((x, y)) => if self.save_gen == number && kept@ != pos_text(
                    x as int,
                    y as int,
                ) {
                    Some(pos_text(x as int, y as int))
                } else {
                    None
                },
                None => None,
            },
    {
        if self.save_gen != number {
            return None;
        }
        match self.panel_pos {
            Some((x, y)) => {
                let value = format_panel_pos(x, y);
                if text::str_eq(kept, value.as_str()) {
                    None
                } else {
                    Some(value)
                }
            },
            None => None,
        }
    }
}

impl Default for Placement {
    fn default() -> (r: Placement)
        ensures
            r == (Placement { pinned: false, panel_pos: None, save_gen: 0, tracking: false }),
    {
        Placement::new()
    }
}

// ---- the window system ------------------------------------------------------

/// Whether the windows are to go through the X server although the session is a
/// Wayland one: only there can a window be kept out of the task bar. Not where no
/// X server is there, nor where the user has chosen.
pub fn prefers_x11(wayland_display: bool, display: bool, backend_chosen: bool) -> (r: bool)
    ensures
        r == (wayland_display && display && !backend_chosen),
{
    wayland_display && display && !backend_chosen
}

// ---- screens ----------------------------------------------------------------

/// The work area with this corner and this size.
pub fn work_area(x: i32, y: i32, width: i32, height: i32) -> (r: (i32, i32, i32, i32))
    requires
        fits(x + width),
        fits(y + height),
    ensures
        r == (x, y, (x + width) as i32, (y + height) as i32),
{
    (x, y, x + width, y + height)
}

/// The active work area: that under the cursor, else that of the panel, else
/// that of the primary screen.
pub fn active_work_area(
    cursor: Option<(i32, i32, i32, i32)>,
    panel: Option<(i32, i32, i32, i32)>,
    primary: Option<(i32, i32, i32, i32)>,
) -> (r: Option<(i32, i32, i32, i32)>)
    ensures
        r == if cursor is Some {
            cursor
        } else if panel is Some {
            panel
        } else {
            primary
        },
{
    if cursor.is_some() {
        cursor
    } else if panel.is_some() {
        panel
    } else {
        primary
    }
}

/// Whether the point lies on a work area.
pub open spec fn lies_on(a: (i32, i32, i32, i32), x: int, y: int) -> bool {
    a.0 <= x < a.2 && a.1 <= y < a.3
}

/// Whether the middle of a window lies on any of the work areas.
pub fn center_on_any(areas: &[(i32, i32, i32, i32)], x: i32, y: i32, ww: i32, wh: i32) -> (r: bool)
    requires
        fits(x + half(ww as int)),
        fits(y + half(wh as int)),
    ensures
        r == exists|i: int|
            0 <= i < areas@.len() && lies_on(
                #[trigger] areas@[i],
                x + half(ww as int),
                y + half(wh as int),
            ),
{
    let cx: i64 = x as i64 + halved(ww as i64);
    let cy: i64 = y as i64 + halved(wh as i64);
    for i in 0..areas.len()
        invariant
            cx == x + half(ww as int),
            cy == y + half(wh as int),
            forall|j: int| 0 <= j < i ==> !lies_on(#[trigger] areas@[j], cx as int, cy as int),
    {
        let a = areas[i];
        if cx >= a.0 as i64 && cx < a.2 as i64 && cy >= a.1 as i64 && cy < a.3 as i64 {
            assert(lies_on(areas@[i as int], cx as int, cy as int));
            return true;
        }
    }
    false
}

/// Half of `n`, rounded towards nought.
fn halved(n: i64) -> (r: i64)
    requires
        -0x1_0000_0000 <= n <= 0x1_0000_0000,
    ensures
        r == half(n as int),
{
    if n >= 0 {
        n / 2
    } else {
        -((-n) / 2)
    }
}

// ---- spots ------------------------------------------------------------------

/// `s` as a number kept between `lo` and `hi`; the default where it is none.
pub open spec fn clamped(s: Seq<char>, lo: int, hi: int, default: int) -> int {
    match text::signed_of(text::trim(s), i64::MIN as int, i64::MAX as int) {
        Some(n) => if n < lo {
            lo
        } else if n > hi {
            hi
        } else {
            n
        },
        None => default,
    }
}

/// `s` as a number kept between `lo` and `hi`; the default where it is none.
pub fn clamp_int_str(s: &str, lo: i64, hi: i64, default: i64) -> (r: i64)
    requires
        lo <= hi,
    ensures
        r == clamped(s@, lo as int, hi as int, default as int),
{
    let c = text::chars_of(s);
    match text::parse_i64(text::trimmed(c.as_slice())) {
        Some(n) => if n < lo {
            lo
        } else if n > hi {
            hi
        } else {
            n
        },
        None => default,
    }
}

/// Whether the pill goes to the top edge: `position` says so, in any letter
/// case.
pub open spec fn is_top(position: Seq<char>) -> bool {
    text::trim(position).map_values(|c: char| text::lower_char(c)) == "top"@
}

/// Whether the pill goes to the top edge, and how far it stays from its edge.
/// What is not understood means the bottom edge and the usual distance.
pub fn resolve_pill_placement(position: &str, padding: &str) -> (r: (bool, i32))
    ensures
        r.0 == is_top(position@),
        r.1 == clamped(padding@, 0, 100_000, PILL_PADDING_DEFAULT as int),
{
    let c = text::chars_of(position);
    let t = text::trimmed(c.as_slice());
    let mut lower: Vec<char> = Vec::new();
    let ghost all = t@.map_values(|c: char| text::lower_char(c));
    for i in 0..t.len()
        invariant
            all == t@.map_values(|c: char| text::lower_char(c)),
            lower@ == all.take(i as int),
    {
        lower.push(text::ascii_lower(t[i]));
        assert(all.take(i + 1) == all.take(i as int).push(all[i as int]));
    }
    assert(all.take(all.len() as int) == all);
    let top = text::is_lit(lower.as_slice(), "top");
    let pad: i64 = clamp_int_str(padding, 0, 100_000, PILL_PADDING_DEFAULT as i64);
    (top, pad as i32)
}

/// How far the pill stays from its edge: never so far that it leaves its half.
pub open spec fn kept_padding(padding: int, height: int) -> int {
    if padding < 0 {
        0
    } else if padding > height / 2 {
        height / 2
    } else {
        padding
    }
}

/// Where the pill goes on a work area: in the middle from left to right, so far
/// from the top or the bottom edge; nowhere on an empty area.
pub open spec fn pill_spot_of(
    work: (i32, i32, i32, i32),
    ww: int,
    wh: int,
    top: bool,
    padding: int,
) -> Option<(int, int)> {
    let mw = work.2 - work.0;
    let mh = work.3 - work.1;
    if mw <= 0 || mh <= 0 {
        None
    } else {
        let pad = kept_padding(padding, mh);
        Some(
            (
                work.0 + half(mw - ww),
                if top {
                    work.1 + pad
                } else {
                    work.3 - wh - pad
                },
            ),
        )
    }
}

/// Where a window goes in the middle of a work area, a sixteenth of its height
/// below it; nowhere on an empty area.
pub open spec fn centered_spot_of(work: (i32, i32, i32, i32), ww: int, wh: int) -> Option<(int, int)> {
    let mw = work.2 - work.0;
    let mh = work.3 - work.1;
    if mw <= 0 || mh <= 0 {
        None
    } else {
        Some((work.0 + half(mw - ww), work.1 + half(mh - wh) + mh / 16))
    }
}

/// Whether every number on the way to the pill's spot is an `i32`.
pub open spec fn pill_spot_fits(
    work: (i32, i32, i32, i32),
    ww: int,
    wh: int,
    top: bool,
    padding: int,
) -> bool {
    let mw = work.2 - work.0;
    let mh = work.3 - work.1;
    &&& fits(mw)
    &&& fits(mh)
    &&& mw > 0 && mh > 0 ==> {
        &&& fits(mw - ww)
        &&& fits(work.0 + half(mw - ww))
        &&& !top ==> fits(work.3 - wh) && fits(work.3 - wh - kept_padding(padding, mh))
    }
}

/// Whether every number on the way to a spot in the middle is an `i32`.
pub open spec fn centered_spot_fits(work: (i32, i32, i32, i32), ww: int, wh: int) -> bool {
    let mw = work.2 - work.0;
    let mh = work.3 - work.1;
    &&& fits(mw)
    &&& fits(mh)
    &&& mw > 0 && mh > 0 ==> {
        &&& fits(mw - ww)
        &&& fits(mh - wh)
        &&& fits(work.0 + half(mw - ww))
        &&& fits(work.1 + half(mh - wh))
        &&& fits(work.1 + half(mh - wh) + mh / 16)
    }
}

/// Where the pill goes on a work area.
pub fn pill_spot(work: (i32, i32, i32, i32), ww: i32, wh: i32, top: bool, padding: i32) -> (r:
    Option<(i32, i32)>)
    requires
        pill_spot_fits(work, ww as int, wh as int, top, padding as int),
    ensures
        match r {
            Some((x, y)) => pill_spot_of(work, ww as int, wh as int, top, padding as int) == Some(
                (x as int, y as int),
            ),
            None => pill_spot_of(work, ww as int, wh as int, top, padding as int) is None,
        },
{
    let mw: i32 = work.2 - work.0;
    let mh: i32 = work.3 - work.1;
    if mw <= 0 || mh <= 0 {
        return None;
    }
    let pad: i32 = if padding < 0 {
        0
    } else if padding > mh / 2 {
        mh / 2
    } else {
        padding
    };
    let x: i64 = work.0 as i64 + halved(mw as i64 - ww as i64);
    let y: i64 = if top {
        work.1 as i64 + pad as i64
    } else {
        work.3 as i64 - wh as i64 - pad as i64
    };
    Some((x as i32, y as i32))
}

/// Where a window goes in the middle of a work area.
pub fn centered_spot(work: (i32, i32, i32, i32), ww: i32, wh: i32) -> (r: Option<(i32, i32)>)
    requires
        centered_spot_fits(work, ww as int, wh as int),
    ensures
        match r {
            Some((x, y)) => centered_spot_of(work, ww as int, wh as int) == Some(
                (x as int, y as int),
            ),
            None => centered_spot_of(work, ww as int, wh as int) is None,
        },
{
    let mw: i32 = work.2 - work.0;
    let mh: i32 = work.3 - work.1;
    if mw <= 0 || mh <= 0 {
        return None;
    }
    let x: i64 = work.0 as i64 + halved(mw as i64 - ww as i64);
    let y: i64 = work.1 as i64 + halved(mh as i64 - wh as i64) + (mh / 16) as i64;
    Some((x as i32, y as i32))
}

/// A window of ours.
#[derive(Clone, Copy, PartialEq, Eq, Structural, Debug)]
pub enum Window {
    Pill,
    Panel,
}

/// Where a window goes: the panel to where it was last seen, while that is on a
/// screen; else to its spot on the active work area; nowhere without one.
pub open spec fn place_of(
    window: Window,
    ww: int,
    wh: int,
    remembered: Option<(i32, i32)>,
    on_screen: bool,
    work: Option<(i32, i32, i32, i32)>,
    top: bool,
    padding: int,
) -> Option<(int, int)> {
    if window == Window::Panel && remembered is Some && on_screen {
        Some(((remembered->0).0 as int, (remembered->0).1 as int))
    } else {
        match work {
            Some(w) => if window == Window::Pill {
                pill_spot_of(w, ww, wh, top, padding)
            } else {
                centered_spot_of(w, ww, wh)
            },
            None => None,
        }
    }
}

/// Whether the middle of a window at the remembered place lies on a work area.
pub open spec fn is_on_screen(
    remembered: Option<(i32, i32)>,
    areas: Seq<(i32, i32, i32, i32)>,
    ww: int,
    wh: int,
) -> bool {
    remembered matches Some(p) && exists|i: int|
        0 <= i < areas.len() && lies_on(#[trigger] areas[i], p.0 + half(ww), p.1 + half(wh))
}

/// Where the window goes, if anywhere. A spot that the panel gets is the one
/// that is remembered from now on.
pub fn place_window(
    placement: &mut Placement,
    window: Window,
    ww: i32,
    wh: i32,
    areas: &[(i32, i32, i32, i32)],
    work: Option<(i32, i32, i32, i32)>,
    top: bool,
    padding: i32,
) -> (r: Option<(i32, i32)>)
    requires
        window == Window::Pill ==> (work matches Some(w) ==> pill_spot_fits(
            w,
            ww as int,
            wh as int,
            top,
            padding as int,
        )),
        window == Window::Panel ==> {
            &&& old(placement).panel_pos matches Some(p) ==> fits(p.0 + half(ww as int)) && fits(
                p.1 + half(wh as int),
            )
            &&& !is_on_screen(old(placement).panel_pos, areas@, ww as int, wh as int) ==> (
            work matches Some(w) ==> centered_spot_fits(w, ww as int, wh as int))
        },
    ensures
        ({
            let on_screen = is_on_screen(
                old(placement).panel_pos,
                areas@,
                ww as int,
                wh as int,
            );
            let spot = place_of(
                window,
                ww as int,
                wh as int,
                old(placement).panel_pos,
                on_screen,
                work,
                top,
                padding as int,
            );
            &&& match r {
                Some((x, y)) => spot == Some((x as int, y as int)),
                None => spot is None,
            }
            &&& *final(placement) == (Placement {
                panel_pos: if window == Window::Panel && r is Some {
                    r
                } else {
                    old(placement).panel_pos
                },
                ..*old(placement)
            })
        }),
{
    if window == Window::Panel {
        if let Some((x, y)) = placement.panel_pos {
            if center_on_any(areas, x, y, ww, wh) {
                return Some((x, y));
            }
        }
    }
    let area = match work {
        Some(w) => w,
        None => {
            return None;
        },
    };
    let spot = if window == Window::Pill {
        pill_spot(area, ww, wh, top, padding)
    } else {
        centered_spot(area, ww, wh)
    };
    if window == Window::Panel && spot.is_some() {
        placement.panel_pos = spot;
    }
    spot
}

/// Where the panel's left edge goes when its second half opens, where that is a
/// change: no farther right than it fits, no farther left than the work area.
pub fn expanded_x(x: i32, left: i32, right: i32, width: i32) -> (r: Option<i32>)
    requires
        fits(right - width),
    ensures
        ({
            let shifted = if x <= right - width {
                x as int
            } else {
                right - width
            };
            let kept = if shifted >= left {
                shifted
            } else {
                left as int
            };
            match r {
                Some(n) => n == kept && n != x,
                None => kept == x,
            }
        }),
{
    let most: i32 = right - width;
    let shifted: i32 = if x <= most {
        x
    } else {
        most
    };
    let kept: i32 = if shifted >= left {
        shifted
    } else {
        left
    };
    if kept != x {
        Some(kept)
    } else {
        None
    }
}

/// The protocols without the unwanted one; nothing where it is not among them,
/// so that nothing need be written.
pub fn without_protocol(atoms: &[usize], unwanted: usize) -> (r: Option<Vec<usize>>)
    ensures
        match r {
            Some(v) => atoms@.contains(unwanted) && v@ == atoms@.filter(|a: usize| a != unwanted),
            None => !atoms@.contains(unwanted),
        },
{
    let mut found = false;
    let mut kept: Vec<usize> = Vec::new();
    proof {
        reveal(Seq::filter);
        assert(atoms@.take(0) == Seq::<usize>::empty());
    }
    for i in 0..atoms.len()
        invariant
            found == exists|j: int| 0 <= j < i && #[trigger] atoms@[j] == unwanted,
            kept@ == atoms@.take(i as int).filter(|a: usize| a != unwanted),
    {
        proof {
            reveal(Seq::filter);
            assert(atoms@.take(i + 1).drop_last() == atoms@.take(i as int));
        }
        if atoms[i] == unwanted {
            found = true;
            assert(atoms@[i as int] == unwanted);
        } else {
            kept.push(atoms[i]);
        }
    }
    assert(atoms@.take(atoms@.len() as int) == atoms@);
    if found {
        Some(kept)
    } else {
        None
    }
}

// ---- laws -------------------------------------------------------------------

/// A position that was kept is read back.
pub proof fn law_positions_read_back(x: i32, y: i32)
    ensures
        pos_of(pos_text(x as int, y as int)) == Some((x as int, y as int)),
{
    reveal_strlit(",");
    let a = text::signed_decimal(x as int);
    let b = text::signed_decimal(y as int);
    lemma_number_is_tight(x as int);
    lemma_number_is_tight(y as int);
    assert(","@ == seq![',']);
    text::lemma_index_of(a, ',', b);
    text::lemma_signed_decimal_value(x as int, i32::MIN as int, i32::MAX as int);
    text::lemma_signed_decimal_value(y as int, i32::MIN as int, i32::MAX as int);
}

/// A number holds no comma and no white space.
proof fn lemma_number_is_tight(n: int)
    ensures
        ({
            let s = text::signed_decimal(n);
            &&& s.len() > 0
            &&& text::trim(s) == s
            &&& forall|i: int| 0 <= i < s.len() ==> #[trigger] s[i] != ','
        }),
{
    let s = text::signed_decimal(n);
    let d = if n < 0 {
        text::decimal((-n) as nat)
    } else {
        text::decimal(n as nat)
    };
    if n < 0 {
        text::lemma_decimal_value((-n) as nat);
    } else {
        text::lemma_decimal_value(n as nat);
    }
    assert forall|i: int| 0 <= i < s.len() implies #[trigger] s[i] != ',' && !text::is_white(
        s[i],
    ) by {
        if n < 0 && i > 0 {
            assert(s[i] == d[i - 1]);
            assert(text::is_digit(d[i - 1]));
        } else if n >= 0 {
            assert(text::is_digit(d[i]));
        }
    }
    text::lemma_trim_tight(s);
}

/// The pill stays on its half of the work area, wherever its padding would put
/// it.
pub proof fn law_pill_stays_on_its_half(
    work: (i32, i32, i32, i32),
    ww: int,
    wh: int,
    top: bool,
    padding: int,
)
    requires
        work.0 < work.2,
        work.1 < work.3,
    ensures
        pill_spot_of(work, ww, wh, top, padding) matches Some((x, y)) && if top {
            work.1 <= y && 2 * (y - work.1) <= work.3 - work.1
        } else {
            y + wh <= work.3 && 2 * (work.3 - (y + wh)) <= work.3 - work.1
        },
{
}

/// A panel whose remembered place is on no screen goes to the middle of the
/// active one.
pub proof fn law_lost_panels_come_back(
    ww: int,
    wh: int,
    remembered: Option<(i32, i32)>,
    work: (i32, i32, i32, i32),
    top: bool,
    padding: int,
)
    ensures
        place_of(Window::Panel, ww, wh, remembered, false, Some(work), top, padding)
            == centered_spot_of(work, ww, wh),
{
}

/// Windows stand in the middle of the work area, to within a pixel; the pill keeps its
/// padding from the edge that it is at, but never more than half the area, and the
/// panel stands a sixteenth of the area below the middle.
pub proof fn law_windows_are_centered(
    work: (i32, i32, i32, i32),
    ww: int,
    wh: int,
    top: bool,
    padding: int,
)
    requires
        work.0 < work.2,
        work.1 < work.3,
    ensures
        pill_spot_of(work, ww, wh, top, padding) matches Some((x, y)) && {
            let gap = if top {
                y - work.1
            } else {
                work.3 - (y + wh)
            };
            &&& -1 <= (x - work.0) - (work.2 - (x + ww)) <= 1
            &&& 0 <= padding && 2 * padding <= work.3 - work.1 ==> gap == padding
            &&& padding < 0 ==> gap == 0
            &&& 2 * padding > work.3 - work.1 ==> gap == (work.3 - work.1) / 2
        },
        centered_spot_of(work, ww, wh) matches Some((x, y)) && {
            let lower = (work.3 - work.1) / 16;
            &&& -1 <= (x - work.0) - (work.2 - (x + ww)) <= 1
            &&& -1 <= (y - lower - work.1) - (work.3 - (y - lower + wh)) <= 1
        },
{
}

/// A work area that is empty has no place for a window.
pub proof fn law_empty_areas_have_no_place(
    work: (i32, i32, i32, i32),
    ww: int,
    wh: int,
    top: bool,
    padding: int,
)
    requires
        work.0 >= work.2 || work.1 >= work.3,
    ensures
        pill_spot_of(work, ww, wh, top, padding) is None,
        centered_spot_of(work, ww, wh) is None,
{
}

/// A panel goes back to where it was, where that is on a screen; the other windows are
/// placed anew, and nothing is placed where there is no screen.
pub proof fn law_where_windows_go(
    window: Window,
    ww: int,
    wh: int,
    at: (i32, i32),
    work: (i32, i32, i32, i32),
    top: bool,
    padding: int,
    on_screen: bool,
)
    ensures
        place_of(Window::Panel, ww, wh, Some(at), true, Some(work), top, padding) == Some(
            (at.0 as int, at.1 as int),
        ),
        place_of(Window::Pill, ww, wh, Some(at), on_screen, Some(work), top, padding)
            == pill_spot_of(work, ww, wh, top, padding),
        place_of(Window::Panel, ww, wh, None, on_screen, Some(work), top, padding)
            == centered_spot_of(work, ww, wh),
        place_of(window, ww, wh, None, on_screen, None, top, padding) is None,
{
}

/// A window is on a screen where its middle is: on any of them, the left and the upper
/// edge included and the others not.
pub proof fn law_windows_are_where_their_middle_is(
    at: (i32, i32),
    areas: Seq<(i32, i32, i32, i32)>,
    more: Seq<(i32, i32, i32, i32)>,
    a: (i32, i32, i32, i32),
    ww: nat,
    wh: nat,
)
    ensures
        ({
            let x = at.0 + ww / 2;
            let y = at.1 + wh / 2;
            let here = a.0 <= x && x < a.2 && a.1 <= y && y < a.3;
            &&& here ==> is_on_screen(Some(at), areas.push(a) + more, ww as int, wh as int)
            &&& !here ==> is_on_screen(Some(at), areas.push(a), ww as int, wh as int)
                == is_on_screen(Some(at), areas, ww as int, wh as int)
            &&& !is_on_screen(Some(at), Seq::empty(), ww as int, wh as int)
            &&& !is_on_screen(None, areas, ww as int, wh as int)
        }),
{
    let all = areas.push(a);
    let x = at.0 + ww / 2;
    let y = at.1 + wh / 2;
    assert(half(ww as int) == ww / 2 && half(wh as int) == wh / 2);
    assert((all + more)[areas.len() as int] == a);
    assert(all[areas.len() as int] == a);
    assert forall|i: int| 0 <= i < areas.len() implies all[i] == #[trigger] areas[i] by {}
    assert(lies_on(a, x, y) <==> a.0 <= x && x < a.2 && a.1 <= y && y < a.3);
    if !lies_on(a, x, y) && is_on_screen(Some(at), all, ww as int, wh as int) {
        let i = choose|i: int|
            0 <= i < all.len() && lies_on(#[trigger] all[i], at.0 + half(ww as int), at.1 + half(
                wh as int,
            ));
        assert(i != areas.len());
        assert(areas[i] == all[i]);
    }
    if is_on_screen(Some(at), areas, ww as int, wh as int) {
        let i = choose|i: int|
            0 <= i < areas.len() && lies_on(#[trigger] areas[i], at.0 + half(ww as int), at.1
                + half(wh as int));
        assert(all[i] == areas[i]);
    }
}

/// A configured number is kept within its bounds, and what is none is the default.
pub proof fn law_configured_numbers(n: int, lo: int, hi: int, default: int, s: Seq<char>)
    requires
        i64::MIN <= n <= i64::MAX,
        lo <= hi,
    ensures
        lo <= n <= hi ==> clamped(text::signed_decimal(n), lo, hi, default) == n,
        n < lo ==> clamped(text::signed_decimal(n), lo, hi, default) == lo,
        n > hi ==> clamped(text::signed_decimal(n), lo, hi, default) == hi,
        text::trim(s).len() == 0 ==> clamped(s, lo, hi, default) == default,
        clamped(s, lo, hi, default) == default || lo <= clamped(s, lo, hi, default) <= hi,
{
    lemma_number_is_tight(n);
    text::lemma_signed_decimal_value(n, i64::MIN as int, i64::MAX as int);
}

/// The pill is at the top where the configuration says `top`, in any letter case and
/// with white space round it, and at the bottom otherwise.
pub proof fn law_the_place_of_the_pill(s: Seq<char>)
    ensures
        is_top(s) <==> text::trim(s).len() == 3 && text::lower_char(text::trim(s)[0]) == 't'
            && text::lower_char(text::trim(s)[1]) == 'o' && text::lower_char(text::trim(s)[2])
            == 'p',
{
    reveal_strlit("top");
    let t = text::trim(s).map_values(|c: char| text::lower_char(c));
    if text::trim(s).len() == 3 && text::lower_char(text::trim(s)[0]) == 't' && text::lower_char(
        text::trim(s)[1],
    ) == 'o' && text::lower_char(text::trim(s)[2]) == 'p' {
        assert(t =~= "top"@);
    }
    if is_top(s) {
        assert(t == "top"@);
        assert(t.len() == text::trim(s).len());
        assert(t[0] == 't' && t[1] == 'o' && t[2] == 'p');
    }
}

} // verus!
