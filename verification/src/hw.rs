//! What the machine is: which graphics processors it has, which of them serves,
//! and which device and which model that means.

use crate::text;
use vstd::prelude::*;

verus! {

/// How long to wait for the list of graphics processors, in seconds.
pub const ENUM_TIMEOUT_SECS: u64 = 20;

/// The kind of graphics processor that a machine has.
#[derive(Clone, Copy, PartialEq, Eq, Structural, Debug)]
pub enum GpuClass {
    /// It has none.
    NoGpu,
    Integrated,
    Discrete,
    /// Shares its memory with the processor.
    Unified,
}

impl GpuClass {
    /// The name of the kind.
    pub fn as_str(self) -> (r: &'static str)
        ensures
            r@ == match self {
                GpuClass::NoGpu => "none"@,
                GpuClass::Integrated => "integrated"@,
                GpuClass::Discrete => "discrete"@,
                GpuClass::Unified => "unified"@,
            },
    {
        match self {
            GpuClass::NoGpu => "none",
            GpuClass::Integrated => "integrated",
            GpuClass::Discrete => "discrete",
            GpuClass::Unified => "unified",
        }
    }
}

/// A graphics processor.
#[derive(Debug, PartialEq, Eq)]
pub struct GpuDevice {
    /// By which it is chosen.
    pub index: usize,
    pub name: String,
    /// `discrete`, `integrated` or `unified`.
    pub kind: String,
    /// Its memory, nought where it is not known.
    pub vram_bytes: u64,
}

/// What the machine is.
#[derive(Debug, PartialEq, Eq)]
pub struct Hardware {
    pub gpus: Vec<GpuDevice>,
    pub class: GpuClass,
    pub battery_present: bool,
}

/// Whether any of the graphics processors is a discrete one.
pub open spec fn has_discrete(gpus: Seq<GpuDevice>) -> bool {
    exists|i: int| 0 <= i < gpus.len() && (#[trigger] gpus[i]).kind@ == "discrete"@
}

/// Whether any of the graphics processors shares its memory with the processor.
pub open spec fn has_unified(gpus: Seq<GpuDevice>) -> bool {
    exists|i: int| 0 <= i < gpus.len() && (#[trigger] gpus[i]).kind@ == "unified"@
}

/// The kind of the machine: discrete wins over unified, and that over integrated.
pub open spec fn class_of(gpus: Seq<GpuDevice>) -> GpuClass {
    if has_discrete(gpus) {
        GpuClass::Discrete
    } else if gpus.len() == 0 {
        GpuClass::NoGpu
    } else if has_unified(gpus) {
        GpuClass::Unified
    } else {
        GpuClass::Integrated
    }
}

/// Whether any of the graphics processors is a discrete one.
fn any_discrete(gpus: &[GpuDevice]) -> (r: bool)
    ensures
        r == has_discrete(gpus@),
{
    for i in 0..gpus.len()
        invariant
            forall|j: int| 0 <= j < i ==> (#[trigger] gpus@[j]).kind@ != "discrete"@,
    {
        if text::str_eq(gpus[i].kind.as_str(), "discrete") {
            assert(gpus@[i as int].kind@ == "discrete"@);
            return true;
        }
    }
    false
}

/// Whether any of the graphics processors shares its memory with the processor.
fn any_unified(gpus: &[GpuDevice]) -> (r: bool)
    ensures
        r == has_unified(gpus@),
{
    for i in 0..gpus.len()
        invariant
            forall|j: int| 0 <= j < i ==> (#[trigger] gpus@[j]).kind@ != "unified"@,
    {
        if text::str_eq(gpus[i].kind.as_str(), "unified") {
            assert(gpus@[i as int].kind@ == "unified"@);
            return true;
        }
    }
    false
}

/// The kind of the machine, from its graphics processors.
pub fn classify(gpus: &[GpuDevice]) -> (r: GpuClass)
    ensures
        r == class_of(gpus@),
{
    if any_discrete(gpus) {
        GpuClass::Discrete
    } else if gpus.len() == 0 {
        GpuClass::NoGpu
    } else if any_unified(gpus) {
        GpuClass::Unified
    } else {
        GpuClass::Integrated
    }
}

/// What the machine is, from its graphics processors and whether it has a
/// battery.
pub fn snapshot(gpus: Vec<GpuDevice>, battery_present: bool) -> (r: Hardware)
    ensures
        r.gpus == gpus,
        r.class == class_of(gpus@),
        r.battery_present == battery_present,
{
    let class = classify(gpus.as_slice());
    Hardware { gpus, class, battery_present }
}

// ---- listing ----------------------------------------------------------------

/// What a device that the inference library lists is.
#[derive(Clone, Copy, PartialEq, Eq, Structural, Debug)]
pub enum Backend {
    Discrete,
    Integrated,
    /// Shares its memory with the processor.
    Unified,
    /// No graphics processor.
    Other,
}

/// A device that the inference library lists.
#[derive(Debug, PartialEq, Eq)]
pub struct Listed {
    pub backend: Backend,
    /// Its description, where it has one.
    pub name: Option<String>,
    pub vram_bytes: u64,
}

/// How many of the devices are graphics processors.
pub open spec fn gpu_count(all: Seq<Listed>) -> nat
    decreases all.len(),
{
    if all.len() == 0 {
        0
    } else if all.last().backend == Backend::Other {
        gpu_count(all.drop_last())
    } else {
        gpu_count(all.drop_last()) + 1
    }
}

/// The name of what a device is.
pub open spec fn backend_kind(b: Backend) -> Seq<char> {
    match b {
        Backend::Discrete => "discrete"@,
        Backend::Integrated => "integrated"@,
        Backend::Unified => "unified"@,
        Backend::Other => ""@,
    }
}

/// Whether `r` are the graphics processors among `all`, in order, counted from
/// nought.
pub open spec fn is_numbered(all: Seq<Listed>, r: Seq<GpuDevice>) -> bool {
    &&& r.len() == gpu_count(all)
    &&& forall|i: int|
        #![trigger all[i]]
        0 <= i < all.len() && all[i].backend != Backend::Other ==> {
            let g = r[gpu_count(all.take(i)) as int];
            &&& g.index == gpu_count(all.take(i))
            &&& g.kind@ == backend_kind(all[i].backend)
            &&& g.vram_bytes == all[i].vram_bytes
            &&& g.name@ == match all[i].name {
                Some(n) => n@,
                None => Seq::empty(),
            }
        }
}

/// Fewer devices are fewer graphics processors.
proof fn lemma_count_grows(all: Seq<Listed>, i: int)
    requires
        0 <= i < all.len(),
    ensures
        gpu_count(all.take(i)) + (if all[i].backend == Backend::Other {
            0int
        } else {
            1
        }) <= gpu_count(all),
        gpu_count(all) <= all.len(),
    decreases all.len(),
{
    let front = all.drop_last();
    if i < front.len() {
        lemma_count_grows(front, i);
        assert(front.take(i) == all.take(i));
    } else {
        assert(all.take(i) == front);
        if front.len() > 0 {
            lemma_count_grows(front, 0);
        }
    }
}

/// The graphics processors among the devices that the inference library lists,
/// in order. Only they are counted, as the library itself counts them.
#[verifier::rlimit(40)]
#[verifier::spinoff_prover]
pub fn number_devices(all: &Vec<Listed>) -> (r: Vec<GpuDevice>)
    ensures
        is_numbered(all@, r@),
{
    let mut out: Vec<GpuDevice> = Vec::new();
    for k in 0..all.len()
        invariant
            is_numbered(all@.take(k as int), out@),
    {
        let ghost was = out@;
        let ghost before = all@.take(k as int);
        let ghost now = all@.take(k + 1);
        assert(now.drop_last() == before);
        let d = &all[k];
        let index: usize = out.len();
        let name = match &d.name {
            Some(n) => n.clone(),
            None => String::new(),
        };
        match d.backend {
            Backend::Other => {},
            Backend::Discrete => out.push(
                GpuDevice {
                    index,
                    name,
                    kind: "discrete".to_string(),
                    vram_bytes: d.vram_bytes,
                },
            ),
            Backend::Integrated => out.push(
                GpuDevice {
                    index,
                    name,
                    kind: "integrated".to_string(),
                    vram_bytes: d.vram_bytes,
                },
            ),
            Backend::Unified => out.push(
                GpuDevice {
                    index,
                    name,
                    kind: "unified".to_string(),
                    vram_bytes: d.vram_bytes,
                },
            ),
        }
        proof {
            assert forall|i: int|
                #![trigger now[i]]
                0 <= i < now.len() && now[i].backend != Backend::Other implies {
                let g = out@[gpu_count(now.take(i)) as int];
                &&& g.index == gpu_count(now.take(i))
                &&& g.kind@ == backend_kind(now[i].backend)
                &&& g.vram_bytes == now[i].vram_bytes
                &&& g.name@ == match now[i].name {
                    Some(n) => n@,
                    None => Seq::empty(),
                }
            } by {
                if i < k {
                    assert(now[i] == before[i]);
                    assert(now.take(i) == before.take(i));
                    lemma_count_grows(before, i);
                    assert(out@[gpu_count(before.take(i)) as int] == was[gpu_count(
                        before.take(i),
                    ) as int]);
                } else {
                    assert(now.take(i) == before);
                }
            }
        }
    }
    assert(all@.take(all@.len() as int) == all@);
    out
}

/// Whether `answer` may be what `parse` makes of the text `line`.
pub open spec fn parses_to<F: Fn(&str) -> Option<Vec<GpuDevice>>>(
    parse: F,
    line: Seq<char>,
    answer: Option<Vec<GpuDevice>>,
) -> bool {
    exists|l: &str| l@ == line && #[trigger] parse.ensures((l,), answer)
}

/// Whether `r` may be the first list among the lines that `parse` makes out,
/// blank lines aside, or no processors where it makes out none.
pub open spec fn first_list<F: Fn(&str) -> Option<Vec<GpuDevice>>>(
    parse: F,
    lines: Seq<Seq<char>>,
    r: Vec<GpuDevice>,
) -> bool
    decreases lines.len(),
{
    if lines.len() == 0 {
        r@.len() == 0
    } else {
        let line = text::trim(lines[0]);
        ||| line.len() > 0 && parses_to(parse, line, Some(r))
        ||| (line.len() == 0 || parses_to(parse, line, None)) && first_list(
            parse,
            lines.skip(1),
            r,
        )
    }
}

/// The graphics processors in what the listing process wrote: the first line
/// that `parse` makes a list of them. What a driver writes beside it does no
/// harm; without such a line there are none.
pub fn parse_enum_output<F: Fn(&str) -> Option<Vec<GpuDevice>>>(raw: &str, parse: F) -> (r: Vec<
    GpuDevice,
>)
    requires
        forall|l: &str| parse.requires((l,)),
    ensures
        first_list(parse, text::lines(raw@), r),
{
    let c = text::chars_of(raw);
    let lines = text::lines_of(c.as_slice());
    let ghost all = text::lines(raw@);
    let mut i: usize = 0;
    assert(all.skip(0) == all);
    while i < lines.len()
        invariant
            forall|l: &str| parse.requires((l,)),
            i <= lines@.len(),
            all == text::lines(raw@),
            all == text::pieces(lines@),
            forall|r: Vec<GpuDevice>|
                first_list(parse, all.skip(i as int), r) ==> #[trigger] first_list(parse, all, r),
        decreases lines@.len() - i,
    {
        let ghost here = all.skip(i as int);
        assert(here[0] == lines@[i as int]@);
        assert(here.skip(1) == all.skip(i + 1));
        let t = text::trimmed(lines[i].as_slice());
        if t.len() > 0 {
            let line = text::string_of(t);
            if let Some(devices) = parse(line.as_str()) {
                assert(parses_to(parse, text::trim(here[0]), Some(devices)));
                assert(first_list(parse, here, devices));
                return devices;
            }
            assert(parses_to(parse, text::trim(here[0]), None));
        }
        assert forall|r: Vec<GpuDevice>| first_list(parse, all.skip(i + 1), r) implies #[trigger] first_list(
            parse,
            all,
            r,
        ) by {
            assert(first_list(parse, here, r));
        }
        i = i + 1;
    }
    let none: Vec<GpuDevice> = Vec::new();
    assert(first_list(parse, all.skip(i as int), none));
    none
}

// ---- which one serves -------------------------------------------------------

/// Whether the graphics processor may serve unless another is chosen: a discrete
/// one where there is one, else any.
pub open spec fn is_eligible(gpus: Seq<GpuDevice>, i: int) -> bool {
    0 <= i < gpus.len() && (has_discrete(gpus) ==> gpus[i].kind@ == "discrete"@)
}

/// Whether the processor `i` goes before `j`: more memory, or as much and a
/// number that is not higher.
pub open spec fn goes_before(gpus: Seq<GpuDevice>, i: int, j: int) -> bool {
    gpus[i].vram_bytes > gpus[j].vram_bytes || (gpus[i].vram_bytes == gpus[j].vram_bytes
        && gpus[i].index <= gpus[j].index)
}

/// Whether `r` is the number of the processor that serves unless another is
/// chosen.
pub open spec fn is_default(gpus: Seq<GpuDevice>, r: usize) -> bool {
    exists|i: int|
        #[trigger] is_eligible(gpus, i) && gpus[i].index == r && forall|j: int|
            #[trigger] is_eligible(gpus, j) ==> goes_before(gpus, i, j)
}

/// The number of the processor that serves unless another is chosen: of the
/// discrete ones, or of all where there is none, the one with the most memory,
/// and of those with as much the one with the lowest number. Nought without
/// processors.
pub fn default_gpu_index(gpus: &[GpuDevice]) -> (r: usize)
    ensures
        gpus@.len() == 0 ==> r == 0,
        gpus@.len() > 0 ==> is_default(gpus@, r),
{
    let only_discrete = any_discrete(gpus);
    let mut best: Option<usize> = None;
    for k in 0..gpus.len()
        invariant
            only_discrete == has_discrete(gpus@),
            match best {
                Some(b) => b < k && is_eligible(gpus@, b as int) && forall|j: int|
                    j < k && #[trigger] is_eligible(gpus@, j) ==> goes_before(gpus@, b as int, j),
                None => forall|j: int| j < k ==> !#[trigger] is_eligible(gpus@, j),
            },
    {
        if !only_discrete || text::str_eq(gpus[k].kind.as_str(), "discrete") {
            assert(is_eligible(gpus@, k as int));
            match best {
                Some(b) => {
                    if gpus[k].vram_bytes > gpus[b].vram_bytes || (gpus[k].vram_bytes
                        == gpus[b].vram_bytes && gpus[k].index < gpus[b].index) {
                        best = Some(k);
                    }
                },
                None => {
                    best = Some(k);
                },
            }
        }
    }
    match best {
        Some(b) => gpus[b].index,
        None => {
            proof {
                if gpus@.len() > 0 {
                    if has_discrete(gpus@) {
                        let i = choose|i: int|
                            0 <= i < gpus@.len() && (#[trigger] gpus@[i]).kind@ == "discrete"@;
                        assert(is_eligible(gpus@, i));
                    } else {
                        assert(is_eligible(gpus@, 0));
                    }
                }
            }
            0
        },
    }
}

/// Whether there is a processor with this number and this name.
pub open spec fn is_there(gpus: Seq<GpuDevice>, index: int, name: Seq<char>) -> bool {
    exists|i: int|
        0 <= i < gpus.len() && (#[trigger] gpus[i]).index == index && gpus[i].name@ == name
}

/// The first processor of this name.
pub open spec fn named(gpus: Seq<GpuDevice>, name: Seq<char>) -> Option<GpuDevice>
    decreases gpus.len(),
{
    if gpus.len() == 0 {
        None
    } else if gpus[0].name@ == name {
        Some(gpus[0])
    } else {
        named(gpus.skip(1), name)
    }
}

/// Whether the processor that was chosen is where it was.
pub open spec fn is_kept(index: Seq<char>, name: Seq<char>, gpus: Seq<GpuDevice>) -> bool {
    text::unsigned_of(text::trim(index), usize::MAX as int) matches Some(k) && is_there(
        gpus,
        k,
        name,
    )
}

/// The number of the processor that serves, by the number and the name of the
/// one that was chosen; and a note where it is not the one under that number.
/// Its name is followed to another number; where it is gone, the default
/// serves.
pub fn resolve_gpu_device(stored_index: &str, stored_name: &str, gpus: &[GpuDevice]) -> (r: (
    usize,
    Option<String>,
))
    ensures
        if gpus@.len() == 0 {
            r.0 == 0 && r.1 is None
        } else if stored_name@.len() == 0 {
            is_default(gpus@, r.0) && r.1 is None
        } else if is_kept(stored_index@, stored_name@, gpus@) {
            text::unsigned_of(text::trim(stored_index@), usize::MAX as int) == Some(r.0 as int)
                && r.1 is None
        } else {
            match named(gpus@, stored_name@) {
                Some(g) => r.0 == g.index && text::opt_text(r.1) == Some(
                    "gpu picker: '"@ + stored_name@ + "' moved to device index "@ + text::decimal(
                        g.index as nat,
                    ),
                ),
                None => is_default(gpus@, r.0) && text::opt_text(r.1) == Some(
                    "gpu picker: stored device '"@ + stored_name@
                        + "' is no longer present; using the default (index "@ + text::decimal(
                        r.0 as nat,
                    ) + ")"@,
                ),
            }
        },
{
    if gpus.len() == 0 {
        return (0, None);
    }
    if text::chars_of(stored_name).len() == 0 {
        return (default_gpu_index(gpus), None);
    }
    let c = text::chars_of(stored_index);
    if let Some(idx) = text::parse_usize(text::trimmed(c.as_slice())) {
        for i in 0..gpus.len()
            invariant
                gpus@.len() > 0,
                stored_name@.len() > 0,
                text::unsigned_of(text::trim(stored_index@), usize::MAX as int) == Some(idx as int),
                forall|j: int|
                    0 <= j < i ==> !((#[trigger] gpus@[j]).index == idx && gpus@[j].name@
                        == stored_name@),
        {
            if gpus[i].index == idx && text::str_eq(gpus[i].name.as_str(), stored_name) {
                assert(is_there(gpus@, idx as int, stored_name@));
                return (idx, None);
            }
        }
    }
    assert(!is_kept(stored_index@, stored_name@, gpus@));
    let mut i: usize = 0;
    assert(gpus@.skip(0) == gpus@);
    while i < gpus.len()
        invariant
            i <= gpus@.len(),
            gpus@.len() > 0,
            stored_name@.len() > 0,
            !is_kept(stored_index@, stored_name@, gpus@),
            named(gpus@, stored_name@) == named(gpus@.skip(i as int), stored_name@),
        decreases gpus@.len() - i,
    {
        assert(gpus@.skip(i as int)[0] == gpus@[i as int]);
        assert(gpus@.skip(i as int).skip(1) == gpus@.skip(i + 1));
        if text::str_eq(gpus[i].name.as_str(), stored_name) {
            let mut note = text::chars_of("gpu picker: '");
            text::extend_str(&mut note, stored_name);
            text::extend_str(&mut note, "' moved to device index ");
            let d = text::decimal_of(gpus[i].index as u64);
            text::extend(&mut note, d.as_slice());
            return (gpus[i].index, Some(text::string_of(note.as_slice())));
        }
        i = i + 1;
    }
    let fallback: usize = default_gpu_index(gpus);
    let mut note = text::chars_of("gpu picker: stored device '");
    text::extend_str(&mut note, stored_name);
    text::extend_str(&mut note, "' is no longer present; using the default (index ");
    let d = text::decimal_of(fallback as u64);
    text::extend(&mut note, d.as_slice());
    text::extend_str(&mut note, ")");
    (fallback, Some(text::string_of(note.as_slice())))
}

// ---- the policy -------------------------------------------------------------

/// Whether the machine counts as a desktop: it has no battery, or the user says
/// that it is to be treated as one.
pub fn is_desktop(battery_present: bool, treat_as_desktop: bool) -> (r: bool)
    ensures
        r == (!battery_present || treat_as_desktop),
{
    !battery_present || treat_as_desktop
}

/// What the user prefers.
#[derive(Clone, Copy, PartialEq, Eq, Structural, Debug)]
pub enum PowerPref {
    Auto,
    ForceCpu,
    ForceGpu,
}

/// What the configured device means; anything unknown is automatic.
pub open spec fn pref_of(dev: Seq<char>) -> PowerPref {
    if text::lowercase(dev) == "cpu"@ {
        PowerPref::ForceCpu
    } else if text::lowercase(dev) == "cuda"@ {
        PowerPref::ForceGpu
    } else {
        PowerPref::Auto
    }
}

impl PowerPref {
    /// What the configured device means; anything unknown is automatic.
    pub fn from_cfg(dev: &str) -> (r: PowerPref)
        ensures
            r == pref_of(dev@),
    {
        let d = text::to_lowercase(dev);
        if text::str_eq(d.as_str(), "cpu") {
            PowerPref::ForceCpu
        } else if text::str_eq(d.as_str(), "cuda") {
            PowerPref::ForceGpu
        } else {
            PowerPref::Auto
        }
    }
}

/// Which configured model serves.
#[derive(Clone, Copy, PartialEq, Eq, Structural, Debug)]
pub enum ModelSlot {
    /// The one model.
    Single,
    /// The model for mains power.
    Ac,
    /// The lighter model for battery.
    Battery,
}

/// Whether the GPU serves.
pub open spec fn uses_gpu(class: GpuClass, desktop: bool, on_ac: bool, pref: PowerPref) -> bool {
    match pref {
        PowerPref::ForceCpu => false,
        PowerPref::ForceGpu => true,
        PowerPref::Auto => match class {
            GpuClass::NoGpu => false,
            GpuClass::Integrated | GpuClass::Unified => true,
            GpuClass::Discrete => desktop || on_ac,
        },
    }
}

/// Which configured model serves.
pub open spec fn slot_of(desktop: bool, on_ac: bool, pref: PowerPref) -> ModelSlot {
    if pref != PowerPref::Auto || desktop {
        ModelSlot::Single
    } else if on_ac {
        ModelSlot::Ac
    } else {
        ModelSlot::Battery
    }
}

/// Which device and which model serve on a machine. A discrete processor of a
/// laptop sleeps on battery; an integrated one always serves; a desktop has one
/// model, and so has a device that was forced.
pub fn policy(class: GpuClass, desktop: bool, on_ac: bool, pref: PowerPref) -> (r: (
    &'static str,
    ModelSlot,
))
    ensures
        r.0@ == if uses_gpu(class, desktop, on_ac, pref) {
            "gpu"@
        } else {
            "cpu"@
        },
        r.1 == slot_of(desktop, on_ac, pref),
{
    match pref {
        PowerPref::ForceCpu => ("cpu", ModelSlot::Single),
        PowerPref::ForceGpu => ("gpu", ModelSlot::Single),
        PowerPref::Auto => {
            let slot = if desktop {
                ModelSlot::Single
            } else if on_ac {
                ModelSlot::Ac
            } else {
                ModelSlot::Battery
            };
            let device = match class {
                GpuClass::NoGpu => "cpu",
                GpuClass::Integrated | GpuClass::Unified => "gpu",
                GpuClass::Discrete => {
                    if desktop || on_ac {
                        "gpu"
                    } else {
                        "cpu"
                    }
                },
            };
            (device, slot)
        },
    }
}

// ---- laws -------------------------------------------------------------------

/// A forced device serves with the one model on every machine.
pub proof fn law_forced_devices_serve_everywhere(class: GpuClass, desktop: bool, on_ac: bool)
    ensures
        !uses_gpu(class, desktop, on_ac, PowerPref::ForceCpu),
        uses_gpu(class, desktop, on_ac, PowerPref::ForceGpu),
        slot_of(desktop, on_ac, PowerPref::ForceCpu) == ModelSlot::Single,
        slot_of(desktop, on_ac, PowerPref::ForceGpu) == ModelSlot::Single,
{
}

/// On a desktop the power supply makes no difference.
pub proof fn law_desktops_ignore_the_supply(class: GpuClass, pref: PowerPref)
    ensures
        uses_gpu(class, true, true, pref) == uses_gpu(class, true, false, pref),
        slot_of(true, true, pref) == slot_of(true, false, pref),
{
}

/// Left to itself, the discrete processor of a laptop serves exactly on mains
/// power.
pub proof fn law_discrete_processors_sleep_on_battery(on_ac: bool)
    ensures
        uses_gpu(GpuClass::Discrete, false, on_ac, PowerPref::Auto) == on_ac,
{
}

/// There is one default among the processors, and it is one of them.
pub proof fn law_the_default_is_one_of_them(gpus: Seq<GpuDevice>, a: usize, b: usize)
    requires
        is_default(gpus, a),
        is_default(gpus, b),
    ensures
        a == b,
        exists|i: int| 0 <= i < gpus.len() && (#[trigger] gpus[i]).index == a,
{
    let i = choose|i: int|
        #[trigger] is_eligible(gpus, i) && gpus[i].index == a && forall|j: int|
            #[trigger] is_eligible(gpus, j) ==> goes_before(gpus, i, j);
    let k = choose|k: int|
        #[trigger] is_eligible(gpus, k) && gpus[k].index == b && forall|j: int|
            #[trigger] is_eligible(gpus, j) ==> goes_before(gpus, k, j);
    assert(goes_before(gpus, i, k));
    assert(goes_before(gpus, k, i));
}

/// A discrete processor is never passed over for another kind.
pub proof fn law_discrete_processors_come_first(gpus: Seq<GpuDevice>, r: usize)
    requires
        has_discrete(gpus),
        is_default(gpus, r),
    ensures
        exists|i: int|
            0 <= i < gpus.len() && (#[trigger] gpus[i]).index == r && gpus[i].kind@ == "discrete"@,
{
}

/// A processor that is followed by its name is one of them.
pub proof fn law_names_lead_to_processors(gpus: Seq<GpuDevice>, name: Seq<char>)
    ensures
        match named(gpus, name) {
            Some(g) => g.name@ == name && gpus.contains(g),
            None => forall|i: int| 0 <= i < gpus.len() ==> (#[trigger] gpus[i]).name@ != name,
        },
    decreases gpus.len(),
{
    if gpus.len() > 0 && gpus[0].name@ != name {
        let rest = gpus.skip(1);
        law_names_lead_to_processors(rest, name);
        if let Some(g) = named(rest, name) {
            let i = choose|i: int| 0 <= i < rest.len() && rest[i] == g;
            assert(gpus[i + 1] == g);
        } else {
            assert forall|i: int| 0 <= i < gpus.len() implies (#[trigger] gpus[i]).name@ != name by {
                if i > 0 {
                    assert(rest[i - 1] == gpus[i]);
                }
            }
        }
    }
}

/// What runs where: a chosen device always, with the one model. Left to itself, a
/// machine without a GPU uses the CPU, one whose GPU shares its memory uses it always,
/// and one with a discrete GPU uses it unless it is a laptop on battery; a desktop has
/// the one model, and a laptop one for mains power and one for battery.
pub proof fn law_the_policy(class: GpuClass, desktop: bool, on_ac: bool, pref: PowerPref)
    ensures
        uses_gpu(class, desktop, on_ac, pref) <==> pref is ForceGpu || (pref is Auto && (
        class is Integrated || class is Unified || (class is Discrete && (desktop || on_ac)))),
        slot_of(desktop, on_ac, pref) is Single <==> desktop || pref is ForceCpu || pref is ForceGpu,
        slot_of(desktop, on_ac, pref) is Ac <==> pref is Auto && !desktop && on_ac,
        slot_of(desktop, on_ac, pref) is Battery <==> pref is Auto && !desktop && !on_ac,
{
}

/// What the configured device means: `cpu` and `cuda`, in any letter case, choose one,
/// and anything else leaves the machine to itself.
pub proof fn law_configured_devices(device: Seq<char>)
    ensures
        pref_of(device) is ForceCpu <==> text::lowercase(device) == seq!['c', 'p', 'u'],
        pref_of(device) is ForceGpu <==> text::lowercase(device) == seq!['c', 'u', 'd', 'a'],
{
    reveal_strlit("cpu");
    reveal_strlit("cuda");
    assert("cpu"@ == seq!['c', 'p', 'u']);
    assert("cuda"@ == seq!['c', 'u', 'd', 'a']);
    assert("cpu"@.len() == 3 && "cuda"@.len() == 4);
}

/// The class of a machine: wherever in the list a discrete processor stands, it has the
/// discrete class; without one, any that is unified makes it unified; any others make
/// it integrated, and none at all make it none.
pub proof fn law_one_processor_makes_the_class(a: Seq<GpuDevice>, g: GpuDevice, b: Seq<GpuDevice>)
    ensures
        ({
            let all = a.push(g) + b;
            &&& class_of(Seq::empty()) is NoGpu
            &&& !(class_of(all) is NoGpu)
            &&& g.kind@ == "discrete"@ ==> class_of(all) is Discrete
            &&& g.kind@ != "discrete"@ ==> (class_of(all) is Discrete <==> class_of(
                a + b,
            ) is Discrete)
            &&& g.kind@ == "unified"@ ==> class_of(all) is Discrete || class_of(all) is Unified
            &&& g.kind@ != "unified"@ && g.kind@ != "discrete"@ ==> (class_of(all) is Unified
                <==> class_of(a + b) is Unified)
        }),
{
    reveal_strlit("discrete");
    reveal_strlit("unified");
    assert("discrete"@[0] == 'd' && "unified"@[0] == 'u');
    let all = a.push(g) + b;
    let rest = a + b;
    assert(all[a.len() as int] == g);
    if has_discrete(rest) {
        let i = choose|i: int| 0 <= i < rest.len() && (#[trigger] rest[i]).kind@ == "discrete"@;
        assert(if i < a.len() {
            all[i] == rest[i]
        } else {
            all[i + 1] == rest[i]
        });
    }
    if has_unified(rest) {
        let i = choose|i: int| 0 <= i < rest.len() && (#[trigger] rest[i]).kind@ == "unified"@;
        assert(if i < a.len() {
            all[i] == rest[i]
        } else {
            all[i + 1] == rest[i]
        });
    }
    if has_discrete(all) && g.kind@ != "discrete"@ {
        let i = choose|i: int| 0 <= i < all.len() && (#[trigger] all[i]).kind@ == "discrete"@;
        assert(i != a.len());
        assert(if i < a.len() {
            rest[i] == all[i]
        } else {
            rest[i - 1] == all[i]
        });
    }
    if has_unified(all) && g.kind@ != "unified"@ {
        let i = choose|i: int| 0 <= i < all.len() && (#[trigger] all[i]).kind@ == "unified"@;
        assert(i != a.len());
        assert(if i < a.len() {
            rest[i] == all[i]
        } else {
            rest[i - 1] == all[i]
        });
    }
}

/// Of the processors that may be the default, that is the discrete ones where there are
/// any, the default has the most memory, and of those with as much the lowest number.
pub proof fn law_the_default_has_the_most_memory(gpus: Seq<GpuDevice>, r: usize, j: int)
    requires
        is_default(gpus, r),
        0 <= j < gpus.len(),
        (exists|k: int| 0 <= k < gpus.len() && (#[trigger] gpus[k]).kind@ == "discrete"@)
            ==> gpus[j].kind@ == "discrete"@,
    ensures
        exists|i: int|
            0 <= i < gpus.len() && (#[trigger] gpus[i]).index == r && gpus[i].vram_bytes
                >= gpus[j].vram_bytes && (gpus[i].vram_bytes == gpus[j].vram_bytes ==> r
                <= gpus[j].index),
{
    assert(is_eligible(gpus, j));
    let i = choose|i: int|
        #[trigger] is_eligible(gpus, i) && gpus[i].index == r && forall|k: int|
            #[trigger] is_eligible(gpus, k) ==> goes_before(gpus, i, k);
    assert(goes_before(gpus, i, j));
    assert(gpus[i].index == r);
}

/// What was listed keeps its order without what is no graphics processor, and is
/// numbered from nought: the last of the list is the last of the processors, where it is
/// one, and the others are those of the rest of the list.
pub proof fn law_processors_are_numbered_in_order(all: Seq<Listed>, r: Seq<GpuDevice>)
    requires
        is_numbered(all, r),
    ensures
        all.len() == 0 ==> r.len() == 0,
        all.len() > 0 && all.last().backend is Other ==> is_numbered(all.drop_last(), r),
        all.len() > 0 && !(all.last().backend is Other) ==> {
            &&& r.len() > 0
            &&& r.last().index == r.len() - 1
            &&& r.last().vram_bytes == all.last().vram_bytes
            &&& all.last().name matches Some(n) ==> r.last().name@ == n@
            &&& all.last().backend is Discrete ==> r.last().kind@ == "discrete"@
            &&& all.last().backend is Integrated ==> r.last().kind@ == "integrated"@
            &&& all.last().backend is Unified ==> r.last().kind@ == "unified"@
            &&& is_numbered(all.drop_last(), r.drop_last())
        },
{
    if all.len() > 0 {
        let front = all.drop_last();
        assert(all.take(all.len() - 1) == front);
        assert(all[all.len() - 1] == all.last());
        lemma_counts_grow(front);
        let q = if all.last().backend is Other {
            r
        } else {
            r.drop_last()
        };
        assert forall|i: int|
            #![trigger front[i]]
            0 <= i < front.len() && front[i].backend != Backend::Other implies {
            let g = q[gpu_count(front.take(i)) as int];
            &&& g.index == gpu_count(front.take(i))
            &&& g.kind@ == backend_kind(front[i].backend)
            &&& g.vram_bytes == front[i].vram_bytes
            &&& g.name@ == match front[i].name {
                Some(n) => n@,
                None => Seq::empty(),
            }
        } by {
            assert(all[i] == front[i]);
            assert(all.take(i) == front.take(i));
            lemma_counts_below(front, i);
        }
    }
}

/// The count of a list is not below that of its front.
proof fn lemma_counts_grow(all: Seq<Listed>)
    ensures
        forall|i: int| 0 <= i <= all.len() ==> gpu_count(#[trigger] all.take(i)) <= gpu_count(all),
    decreases all.len(),
{
    if all.len() > 0 {
        lemma_counts_grow(all.drop_last());
        assert forall|i: int| 0 <= i <= all.len() implies gpu_count(#[trigger] all.take(i))
            <= gpu_count(all) by {
            if i == all.len() {
                assert(all.take(i) == all);
            } else {
                assert(all.take(i) == all.drop_last().take(i));
            }
        }
    } else {
        assert(all.take(0) == all);
    }
}

/// In front of a processor there are fewer than in all.
proof fn lemma_counts_below(all: Seq<Listed>, i: int)
    requires
        0 <= i < all.len(),
        all[i].backend != Backend::Other,
    ensures
        gpu_count(all.take(i)) < gpu_count(all),
{
    lemma_counts_grow(all);
    assert(all.take(i + 1).drop_last() == all.take(i));
    assert(all.take(i + 1).last() == all[i]);
}

/// A stored choice is kept while the processor of that number has that name.
pub proof fn law_stored_choices(gpus: Seq<GpuDevice>, i: int, index: Seq<char>, n: nat, name: Seq<char>)
    requires
        0 <= i < gpus.len(),
    ensures
        is_kept(text::decimal(gpus[i].index as nat), gpus[i].name@, gpus),
        is_kept(text::decimal(n), name, gpus) ==> exists|j: int|
            0 <= j < gpus.len() && (#[trigger] gpus[j]).index == n && gpus[j].name@ == name,
        text::trim(index).len() == 0 ==> !is_kept(index, name, gpus),
{
    text::law_decimals(gpus[i].index as nat, usize::MAX as int);
    text::law_decimals(n, usize::MAX as int);
    lemma_decimals_are_tight(gpus[i].index as nat);
    lemma_decimals_are_tight(n);
}

/// A number has no white space round it.
proof fn lemma_decimals_are_tight(n: nat)
    ensures
        text::trim(text::decimal(n)) == text::decimal(n),
{
    text::lemma_decimal_value(n);
    let d = text::decimal(n);
    assert(text::is_digit(d[0]) && text::is_digit(d[d.len() - 1]));
    text::lemma_trim_tight(d);
}

/// The processors are those of the first line that lists any: blank lines and lines that
/// list none make no difference.
pub proof fn law_the_first_list_counts<F: Fn(&str) -> Option<Vec<GpuDevice>>>(
    parse: F,
    line: Seq<char>,
    rest: Seq<Seq<char>>,
    r: Vec<GpuDevice>,
)
    ensures
        first_list(parse, Seq::empty(), r) <==> r@.len() == 0,
        text::trim(line).len() == 0 ==> first_list(parse, seq![line] + rest, r) == first_list(
            parse,
            rest,
            r,
        ),
        text::trim(line).len() > 0 && parses_to(parse, text::trim(line), Some(r)) ==> first_list(
            parse,
            seq![line] + rest,
            r,
        ),
        text::trim(line).len() > 0 && !parses_to(parse, text::trim(line), Some(r)) && !parses_to(
            parse,
            text::trim(line),
            None,
        ) ==> !first_list(parse, seq![line] + rest, r),
{
    let all = seq![line] + rest;
    assert(all[0] == line);
    assert(all.skip(1) == rest);
}

} // verus!
