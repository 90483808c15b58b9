//! Whether the machine runs on mains power, and whether it has a battery.
//! What is not known counts as running on battery.

use crate::text;
use vstd::prelude::*;

verus! {

/// A power supply, as the system describes it: the contents of its files, empty
/// where a file cannot be read.
#[derive(Debug, PartialEq, Eq)]
pub struct Supply {
    pub kind: String,
    pub online: String,
    pub scope: String,
}

/// Whether a supply is a mains one that is plugged in.
pub open spec fn is_mains_online(s: Supply) -> bool {
    text::trim(s.kind@) == "Mains"@ && text::trim(s.online@) == "1"@
}

/// Whether a supply is a battery of the machine itself: not one of a device that
/// is attached to it.
pub open spec fn is_system_battery(s: Supply) -> bool {
    &&& text::trim(s.kind@) == "Battery"@
    &&& text::trim(s.scope@).len() == 0 || text::trim(s.scope@) == "System"@
}

/// Whether any of the supplies is a mains one that is plugged in.
pub open spec fn some_mains_online(supplies: Seq<Supply>) -> bool {
    exists|i: int| 0 <= i < supplies.len() && is_mains_online(#[trigger] supplies[i])
}

/// Whether any of the supplies is a battery of the machine itself.
pub open spec fn some_system_battery(supplies: Seq<Supply>) -> bool {
    exists|i: int| 0 <= i < supplies.len() && is_system_battery(#[trigger] supplies[i])
}

/// Whether the machine is plugged in, from its supplies; not where they cannot
/// be listed.
pub open spec fn on_mains(supplies: Option<Seq<Supply>>) -> bool {
    supplies matches Some(v) && some_mains_online(v)
}

/// Whether the machine has a battery, from its supplies; not where they cannot
/// be listed.
pub open spec fn has_battery(supplies: Option<Seq<Supply>>) -> bool {
    supplies matches Some(v) && some_system_battery(v)
}

/// The supplies, where they could be listed.
pub open spec fn listed(supplies: Option<&[Supply]>) -> Option<Seq<Supply>> {
    match supplies {
        Some(v) => Some(v@),
        None => None,
    }
}

/// Whether `s`, trimmed, reads `lit`.
fn reads(s: &str, lit: &str) -> (r: bool)
    ensures
        r == (text::trim(s@) == lit@),
{
    let c = text::chars_of(s);
    text::is_lit(text::trimmed(c.as_slice()), lit)
}

/// Whether any of the supplies is a mains one that is plugged in.
pub fn any_mains_online(supplies: &[Supply]) -> (r: bool)
    ensures
        r == some_mains_online(supplies@),
{
    for i in 0..supplies.len()
        invariant
            forall|j: int| 0 <= j < i ==> !is_mains_online(#[trigger] supplies@[j]),
    {
        let s = &supplies[i];
        if reads(s.kind.as_str(), "Mains") && reads(s.online.as_str(), "1") {
            assert(is_mains_online(supplies@[i as int]));
            return true;
        }
    }
    false
}

/// Whether any of the supplies is a battery of the machine itself.
pub fn any_system_battery(supplies: &[Supply]) -> (r: bool)
    ensures
        r == some_system_battery(supplies@),
{
    for i in 0..supplies.len()
        invariant
            forall|j: int| 0 <= j < i ==> !is_system_battery(#[trigger] supplies@[j]),
    {
        let s = &supplies[i];
        if reads(s.kind.as_str(), "Battery") {
            let c = text::chars_of(s.scope.as_str());
            let scope = text::trimmed(c.as_slice());
            if scope.len() == 0 || text::is_lit(scope, "System") {
                assert(is_system_battery(supplies@[i as int]));
                return true;
            }
        }
    }
    false
}

/// Whether the machine is plugged in, from its supplies; not where they cannot
/// be listed.
pub fn on_ac_power(supplies: Option<&[Supply]>) -> (r: bool)
    ensures
        r == on_mains(listed(supplies)),
{
    match supplies {
        Some(v) => any_mains_online(v),
        None => false,
    }
}

/// Whether the machine has a battery, from its supplies; not where they cannot
/// be listed.
pub fn battery_present(supplies: Option<&[Supply]>) -> (r: bool)
    ensures
        r == has_battery(listed(supplies)),
{
    match supplies {
        Some(v) => any_system_battery(v),
        None => false,
    }
}

/// Whether the machine is plugged in, from the line status that the system
/// reports: 0 is battery, 1 is mains, anything else is not known.
pub fn line_status_is_ac(status: Option<u8>) -> (r: bool)
    ensures
        r == (status == Some(1u8)),
{
    match status {
        Some(s) => s == 1,
        None => false,
    }
}

/// Whether the machine has a battery, from the battery flag that the system
/// reports: its highest bit says that there is none, or that it is not known.
pub fn flag_shows_battery(flag: Option<u8>) -> (r: bool)
    ensures
        r == (flag matches Some(f) && f < 128),
{
    match flag {
        Some(f) => f < 128,
        None => false,
    }
}

// ---- laws -------------------------------------------------------------------

/// What is not known counts as battery: the machine is not plugged in where its
/// supplies cannot be listed, where there are none, and where none says whether
/// it is online.
pub proof fn law_unknown_is_battery(supplies: Option<Seq<Supply>>)
    requires
        supplies matches Some(v) ==> forall|i: int|
            0 <= i < v.len() ==> (#[trigger] v[i]).online@.len() == 0,
    ensures
        !on_mains(supplies),
{
    reveal_strlit("1");
    if let Some(v) = supplies {
        assert forall|i: int| 0 <= i < v.len() implies !is_mains_online(#[trigger] v[i]) by {
            assert(text::trim(v[i].online@).len() == 0);
        }
    }
}

/// Any mains supply that is online means mains power, wherever it stands in the list:
/// one whose kind reads `Mains` and whose online reads `1`. Any other supply makes no
/// difference.
pub proof fn law_any_mains_counts(a: Seq<Supply>, s: Supply, b: Seq<Supply>)
    ensures
        text::trim(s.kind@) == seq!['M', 'a', 'i', 'n', 's'] && text::trim(s.online@) == seq!['1']
            ==> on_mains(Some(a.push(s) + b)),
        text::trim(s.kind@) != seq!['M', 'a', 'i', 'n', 's'] || text::trim(s.online@) != seq!['1']
            ==> on_mains(Some(a.push(s) + b)) == on_mains(Some(a + b)),
        !on_mains(Some(Seq::empty())),
        !on_mains(None),
{
    reveal_strlit("Mains");
    reveal_strlit("1");
    assert("Mains"@ == seq!['M', 'a', 'i', 'n', 's']);
    assert("1"@ == seq!['1']);
    let v = a.push(s) + b;
    let w = a + b;
    assert(v[a.len() as int] == s);
    if !is_mains_online(s) {
        if some_mains_online(v) {
            let i = choose|i: int| 0 <= i < v.len() && is_mains_online(#[trigger] v[i]);
            assert(i != a.len());
            if i < a.len() {
                assert(w[i] == v[i]);
            } else {
                assert(w[i - 1] == v[i]);
            }
        }
        if some_mains_online(w) {
            let i = choose|i: int| 0 <= i < w.len() && is_mains_online(#[trigger] w[i]);
            if i < a.len() {
                assert(v[i] == w[i]);
            } else {
                assert(v[i + 1] == w[i]);
            }
        }
    }
}

/// Any battery of the machine itself is one, wherever it stands in the list: one whose
/// kind reads `Battery` and whose scope reads nothing or `System`. Any other supply
/// makes no difference.
pub proof fn law_any_battery_counts(a: Seq<Supply>, s: Supply, b: Seq<Supply>)
    ensures
        ({
            let battery = text::trim(s.kind@) == seq!['B', 'a', 't', 't', 'e', 'r', 'y'] && (
            text::trim(s.scope@) == Seq::<char>::empty() || text::trim(s.scope@) == seq![
                'S',
                'y',
                's',
                't',
                'e',
                'm',
            ]);
            &&& battery ==> has_battery(Some(a.push(s) + b))
            &&& !battery ==> has_battery(Some(a.push(s) + b)) == has_battery(Some(a + b))
        }),
        !has_battery(Some(Seq::empty())),
        !has_battery(None),
{
    reveal_strlit("Battery");
    reveal_strlit("System");
    assert("Battery"@ == seq!['B', 'a', 't', 't', 'e', 'r', 'y']);
    assert("System"@ == seq!['S', 'y', 's', 't', 'e', 'm']);
    assert(text::trim(s.scope@).len() == 0 ==> text::trim(s.scope@) == Seq::<char>::empty());
    let v = a.push(s) + b;
    let w = a + b;
    assert(v[a.len() as int] == s);
    if !is_system_battery(s) {
        if some_system_battery(v) {
            let i = choose|i: int| 0 <= i < v.len() && is_system_battery(#[trigger] v[i]);
            assert(i != a.len());
            if i < a.len() {
                assert(w[i] == v[i]);
            } else {
                assert(w[i - 1] == v[i]);
            }
        }
        if some_system_battery(w) {
            let i = choose|i: int| 0 <= i < w.len() && is_system_battery(#[trigger] w[i]);
            if i < a.len() {
                assert(v[i] == w[i]);
            } else {
                assert(v[i + 1] == w[i]);
            }
        }
    }
}

/// The order of the supplies makes no difference.
pub proof fn law_the_order_of_supplies_does_not_matter(v: Seq<Supply>, i: int, j: int)
    requires
        0 <= i < v.len(),
        0 <= j < v.len(),
    ensures
        on_mains(Some(v.update(i, v[j]).update(j, v[i]))) == on_mains(Some(v)),
        has_battery(Some(v.update(i, v[j]).update(j, v[i]))) == has_battery(Some(v)),
{
    let w = v.update(i, v[j]).update(j, v[i]);
    assert forall|k: int| 0 <= k < v.len() implies exists|m: int|
        0 <= m < v.len() && #[trigger] w[m] == #[trigger] v[k] by {
        if k == i {
            assert(w[j] == v[i]);
        } else if k == j {
            assert(w[i] == v[j]);
        } else {
            assert(w[k] == v[k]);
        }
    }
    assert forall|k: int| 0 <= k < v.len() implies exists|m: int|
        0 <= m < v.len() && #[trigger] v[m] == #[trigger] w[k] by {
        if k == j {
            assert(v[i] == w[k]);
        } else if k == i {
            assert(v[j] == w[k]);
        } else {
            assert(w[k] == v[k]);
        }
    }
    if some_mains_online(v) {
        let k = choose|k: int| 0 <= k < v.len() && is_mains_online(#[trigger] v[k]);
        let m = choose|m: int| 0 <= m < v.len() && w[m] == v[k];
        assert(is_mains_online(w[m]));
    }
    if some_mains_online(w) {
        let k = choose|k: int| 0 <= k < w.len() && is_mains_online(#[trigger] w[k]);
        let m = choose|m: int| 0 <= m < v.len() && v[m] == w[k];
        assert(is_mains_online(v[m]));
    }
    if some_system_battery(v) {
        let k = choose|k: int| 0 <= k < v.len() && is_system_battery(#[trigger] v[k]);
        let m = choose|m: int| 0 <= m < v.len() && w[m] == v[k];
        assert(is_system_battery(w[m]));
    }
    if some_system_battery(w) {
        let k = choose|k: int| 0 <= k < w.len() && is_system_battery(#[trigger] w[k]);
        let m = choose|m: int| 0 <= m < v.len() && v[m] == w[k];
        assert(is_system_battery(v[m]));
    }
}

} // verus!
