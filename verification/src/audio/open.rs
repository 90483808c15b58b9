//! Which devices to try for a take, and each way in which to try one.

use crate::audio::{
    all_inputs, default_first, plan, AudioError, Config, Device, Format, Input, InputView, Plan,
    PlanView, Source, SourceView,
};
use crate::{audio, text};
use vstd::prelude::*;

verus! {

/// Whether the name of an input holds `needle`, in any letter case.
pub open spec fn is_like(i: InputView, needle: Seq<char>) -> bool {
    text::has(text::lowercase(i.name), needle)
}

/// The inputs whose name holds `needle`, in order.
pub open spec fn alike(all: Seq<InputView>, needle: Seq<char>) -> Seq<InputView> {
    all.filter(|i: InputView| is_like(i, needle))
}

/// The inputs whose name does not hold `needle`, in order.
pub open spec fn unlike(all: Seq<InputView>, needle: Seq<char>) -> Seq<InputView> {
    all.filter(|i: InputView| !is_like(i, needle))
}

/// Whether there are inputs and all have one name.
pub open spec fn of_one_name(all: Seq<InputView>) -> bool {
    all.len() > 0 && forall|i: int| 0 <= i < all.len() ==> (#[trigger] all[i]).name == all[0].name
}

/// The inputs to try by name alone: those whose name holds the configured one,
/// or, where there are none, all of them, led by the default device.
pub open spec fn by_name(
    name: Seq<char>,
    all: Seq<InputView>,
    default: Option<Device>,
) -> Seq<InputView> {
    if name.len() > 0 && alike(all, text::lowercase(name)).len() > 0 {
        alike(all, text::lowercase(name))
    } else {
        audio::led_by_default(default, all)
    }
}

/// The inputs to try for a configured name, in order. What the desktop knows
/// goes first: the default source means the default device, any other one the
/// entries of its card, as long as they all have one name; a name that the
/// desktop does not know is looked for among the devices.
pub open spec fn candidates_of(
    name: Seq<char>,
    known: Option<(Seq<SourceView>, Option<Seq<char>>)>,
    all: Seq<InputView>,
    default: Option<Device>,
) -> Seq<InputView> {
    match known {
        Some((sources, default_name)) => match audio::plan_of(name, sources, default_name) {
            PlanView::SystemDefault => audio::led_by_default(default, all),
            PlanView::Card(card) => {
                let needle = text::lowercase(card);
                let matched = alike(all, needle);
                let rest = unlike(all, needle);
                if of_one_name(matched) {
                    matched + audio::led_by_default(default, rest)
                } else {
                    audio::led_by_default(default, matched + rest)
                }
            },
            PlanView::Legacy => by_name(name, all, default),
        },
        None => by_name(name, all, default),
    }
}

/// The inputs whose name holds `needle`, and the others.
fn part(all: Vec<Input>, needle: &[char]) -> (r: (Vec<Input>, Vec<Input>))
    ensures
        audio::inputs(r.0@) == alike(audio::inputs(all@), needle@),
        audio::inputs(r.1@) == unlike(audio::inputs(all@), needle@),
{
    let mut all = all;
    let ghost start = all@;
    let ghost v = audio::inputs(start);
    let mut matched: Vec<Input> = Vec::new();
    let mut rest: Vec<Input> = Vec::new();
    let ghost mut done: int = 0;
    proof {
        reveal(Seq::filter);
        assert(v.take(0) == Seq::<InputView>::empty());
        assert(audio::inputs(matched@) == alike(v.take(0), needle@));
        assert(audio::inputs(rest@) == unlike(v.take(0), needle@));
    }
    while all.len() > 0
        invariant
            0 <= done <= start.len(),
            all@ == start.skip(done),
            v == audio::inputs(start),
            audio::inputs(matched@) == alike(v.take(done), needle@),
            audio::inputs(rest@) == unlike(v.take(done), needle@),
        decreases all@.len(),
    {
        let i = all.remove(0);
        proof {
            reveal(Seq::filter);
            assert(i == start[done]);
            assert(v.take(done + 1).drop_last() == v.take(done));
            assert(v.take(done + 1).last() == i@);
            done = done + 1;
            assert(all@ == start.skip(done));
        }
        let ghost g = i@;
        let name = text::chars_of(text::to_lowercase(i.name.as_str()).as_str());
        if text::contains(name.as_slice(), needle) {
            let ghost was = matched@;
            matched.push(i);
            assert(audio::inputs(matched@) == audio::inputs(was).push(g));
        } else {
            let ghost was = rest@;
            rest.push(i);
            assert(audio::inputs(rest@) == audio::inputs(was).push(g));
        }
    }
    assert(v.take(done) == v);
    (matched, rest)
}

/// `a` with the inputs of `b` behind it.
fn append(a: Vec<Input>, b: Vec<Input>) -> (r: Vec<Input>)
    ensures
        audio::inputs(r@) == audio::inputs(a@) + audio::inputs(b@),
{
    let mut r = a;
    let mut b = b;
    let ghost first = r@;
    let ghost second = b@;
    r.append(&mut b);
    assert(audio::inputs(r@) == audio::inputs(first) + audio::inputs(second));
    r
}

/// Whether there are inputs and all have one name.
fn have_one_name(all: &Vec<Input>) -> (r: bool)
    ensures
        r == of_one_name(audio::inputs(all@)),
{
    let ghost v = audio::inputs(all@);
    if all.len() == 0 {
        return false;
    }
    for i in 0..all.len()
        invariant
            v == audio::inputs(all@),
            all@.len() > 0,
            forall|j: int| 0 <= j < i ==> (#[trigger] v[j]).name == v[0].name,
    {
        assert(v[i as int].name == all@[i as int].name@);
        assert(v[0].name == all@[0].name@);
        if !text::str_eq(all[i].name.as_str(), all[0].name.as_str()) {
            return false;
        }
    }
    true
}

/// The inputs to try by name alone.
fn candidates_by_name(name: &str, all: Vec<Input>, default: &Option<Device>) -> (r: Vec<Input>)
    ensures
        audio::inputs(r@) == by_name(name@, audio::inputs(all@), *default),
{
    let ghost v = audio::inputs(all@);
    if text::chars_of(name).len() == 0 {
        return default_first(default, all);
    }
    let needle = text::chars_of(text::to_lowercase(name).as_str());
    let (matched, rest) = part(all, needle.as_slice());
    if matched.len() > 0 {
        assert(audio::inputs(matched@).len() == matched@.len());
        return matched;
    }
    proof {
        assert(audio::inputs(matched@).len() == 0);
        lemma_none_alike(v, needle@);
    }
    default_first(default, rest)
}

/// Where no input is alike, the others are all of them.
proof fn lemma_none_alike(all: Seq<InputView>, needle: Seq<char>)
    requires
        alike(all, needle).len() == 0,
    ensures
        unlike(all, needle) == all,
    decreases all.len(),
{
    reveal(Seq::filter);
    if all.len() > 0 {
        lemma_none_alike(all.drop_last(), needle);
        assert(all == all.drop_last().push(all.last()));
    }
}

/// The inputs to try for a configured name, in order.
pub fn candidates(
    name_substr: &str,
    known: &Option<(Vec<Source>, Option<String>)>,
    devices: &Vec<Device>,
    default: &Option<Device>,
) -> (r: Vec<Input>)
    ensures
        audio::inputs(r@) == candidates_of(
            name_substr@,
            match known {
                Some((s, d)) => Some((audio::sources_view(s@), text::opt_text(*d))),
                None => None,
            },
            audio::inputs_of(devices@),
            *default,
        ),
{
    let all = all_inputs(devices);
    if let Some((sources, default_source)) = known {
        let default_name = match default_source {
            Some(n) => Some(n.as_str()),
            None => None,
        };
        match plan(name_substr, sources.as_slice(), default_name) {
            Plan::SystemDefault => {
                return default_first(default, all);
            },
            Plan::Card(card) => {
                let needle = text::chars_of(text::to_lowercase(card.as_str()).as_str());
                let (matched, rest) = part(all, needle.as_slice());
                if have_one_name(&matched) {
                    let others = default_first(default, rest);
                    return append(matched, others);
                }
                let both = append(matched, rest);
                return default_first(default, both);
            },
            Plan::Legacy => {},
        }
    }
    candidates_by_name(name_substr, all, default)
}

// ---- the ways to open one ---------------------------------------------------

/// The rates to try, in order: the device's own, then the usual ones.
pub open spec fn rates_of(config: Option<Config>) -> Seq<u32> {
    let own = match config {
        Some(c) => c.rate,
        None => 48_000,
    };
    seq![own] + seq![48_000u32, 44_100, 16_000].filter(|r: u32| r != own)
}

/// The numbers of channels to try, in order: one, then the device's own, or two
/// where it cannot be asked.
pub open spec fn channels_of(config: Option<Config>) -> Seq<u16> {
    match config {
        Some(c) => if c.channels == 1 {
            seq![1]
        } else {
            seq![1, c.channels]
        },
        None => seq![1, 2],
    }
}

/// The forms to try, in order: the device's own, then the others that can be
/// captured.
pub open spec fn formats_of(config: Option<Config>) -> Seq<Format> {
    let usual = seq![Format::F32, Format::I16, Format::I32, Format::U16];
    match config {
        Some(c) => if c.format == Format::Other {
            usual
        } else {
            seq![c.format] + usual.filter(|f: Format| f != c.format)
        },
        None => usual,
    }
}

/// The rates to try for a device, in order.
pub fn rate_chain(config: Option<Config>) -> (r: Vec<u32>)
    ensures
        r@ == rates_of(config),
{
    let own: u32 = match config {
        Some(c) => c.rate,
        None => 48_000,
    };
    let mut r: Vec<u32> = Vec::new();
    r.push(own);
    let usual: Vec<u32> = vec![48_000, 44_100, 16_000];
    let ghost all = seq![48_000u32, 44_100, 16_000];
    proof {
        reveal(Seq::filter);
        assert(usual@ == all);
        assert(all.take(0) == Seq::<u32>::empty());
        assert(r@ == seq![own] + all.take(0).filter(|x: u32| x != own));
    }
    for i in 0..usual.len()
        invariant
            usual@ == all,
            r@ == seq![own] + all.take(i as int).filter(|x: u32| x != own),
    {
        proof {
            reveal(Seq::filter);
            assert(all.take(i + 1).drop_last() == all.take(i as int));
        }
        if usual[i] != own {
            r.push(usual[i]);
        }
        assert(r@ == seq![own] + all.take(i + 1).filter(|x: u32| x != own));
    }
    assert(all.take(all.len() as int) == all);
    r
}

/// The numbers of channels to try for a device, in order.
pub fn channel_counts(config: Option<Config>) -> (r: Vec<u16>)
    ensures
        r@ == channels_of(config),
{
    let mut r: Vec<u16> = Vec::new();
    r.push(1);
    match config {
        Some(c) => {
            if c.channels != 1 {
                r.push(c.channels);
            }
        },
        None => r.push(2),
    }
    assert(r@ == channels_of(config));
    r
}

/// The forms to try for a device, in order.
pub fn format_order(config: Option<Config>) -> (r: Vec<Format>)
    ensures
        r@ == formats_of(config),
{
    let usual: Vec<Format> = vec![Format::F32, Format::I16, Format::I32, Format::U16];
    let ghost all = seq![Format::F32, Format::I16, Format::I32, Format::U16];
    assert(usual@ == all);
    let own = match config {
        Some(c) => c.format,
        None => Format::Other,
    };
    if own == Format::Other {
        return usual;
    }
    let mut r: Vec<Format> = Vec::new();
    r.push(own);
    proof {
        reveal(Seq::filter);
        assert(all.take(0) == Seq::<Format>::empty());
        assert(r@ == seq![own] + all.take(0).filter(|f: Format| f != own));
    }
    for i in 0..usual.len()
        invariant
            usual@ == all,
            r@ == seq![own] + all.take(i as int).filter(|f: Format| f != own),
    {
        proof {
            reveal(Seq::filter);
            assert(all.take(i + 1).drop_last() == all.take(i as int));
        }
        if usual[i] != own {
            r.push(usual[i]);
        }
        assert(r@ == seq![own] + all.take(i + 1).filter(|f: Format| f != own));
    }
    assert(all.take(all.len() as int) == all);
    r
}

/// One way to open one device.
#[derive(Debug, PartialEq, Eq)]
pub struct Attempt {
    pub handle: u64,
    pub name: String,
    pub rate: u32,
    pub channels: u16,
    pub format: Format,
}

/// What an [`Attempt`] holds.
pub struct AttemptView {
    pub handle: u64,
    pub name: Seq<char>,
    pub rate: u32,
    pub channels: u16,
    pub format: Format,
}

impl View for Attempt {
    type V = AttemptView;

    open spec fn view(&self) -> AttemptView {
        AttemptView {
            handle: self.handle,
            name: self.name@,
            rate: self.rate,
            channels: self.channels,
            format: self.format,
        }
    }
}

/// What each attempt of a list holds.
pub open spec fn attempts_view(v: Seq<Attempt>) -> Seq<AttemptView> {
    v.map_values(|a: Attempt| a@)
}

/// The attempts at one rate and one number of channels, one for each form.
pub open spec fn at_formats(
    i: InputView,
    rate: u32,
    channels: u16,
    formats: Seq<Format>,
) -> Seq<AttemptView> {
    formats.map_values(
        |f: Format|
            AttemptView { handle: i.handle, name: i.name, rate, channels, format: f },
    )
}

/// The attempts at one rate, for one number of channels after the other.
pub open spec fn at_channels(i: InputView, rate: u32, channels: Seq<u16>) -> Seq<AttemptView>
    decreases channels.len(),
{
    if channels.len() == 0 {
        Seq::empty()
    } else {
        at_channels(i, rate, channels.drop_last()) + at_formats(
            i,
            rate,
            channels.last(),
            formats_of(i.config),
        )
    }
}

/// The attempts at one device, for one rate after the other.
pub open spec fn at_rates(i: InputView, rates: Seq<u32>) -> Seq<AttemptView>
    decreases rates.len(),
{
    if rates.len() == 0 {
        Seq::empty()
    } else {
        at_rates(i, rates.drop_last()) + at_channels(i, rates.last(), channels_of(i.config))
    }
}

/// The attempts at the devices, one after the other.
pub open spec fn attempts_of(all: Seq<InputView>) -> Seq<AttemptView>
    decreases all.len(),
{
    if all.len() == 0 {
        Seq::empty()
    } else {
        attempts_of(all.drop_last()) + at_rates(all.last(), rates_of(all.last().config))
    }
}

/// Add the attempts at one rate and one number of channels.
fn add_formats(out: &mut Vec<Attempt>, i: &Input, rate: u32, channels: u16)
    ensures
        attempts_view(final(out)@) == attempts_view(old(out)@) + at_formats(
            i@,
            rate,
            channels,
            formats_of(i.config),
        ),
{
    let formats = format_order(i.config);
    let ghost start = attempts_view(out@);
    let ghost all = formats_of(i.config);
    assert(attempts_view(out@) == start + at_formats(i@, rate, channels, all.take(0)));
    for k in 0..formats.len()
        invariant
            formats@ == all,
            attempts_view(out@) == start + at_formats(i@, rate, channels, all.take(k as int)),
    {
        let ghost was = out@;
        let a = Attempt {
            handle: i.handle,
            name: i.name.clone(),
            rate,
            channels,
            format: formats[k],
        };
        let ghost g = a@;
        out.push(a);
        assert(attempts_view(out@) == attempts_view(was).push(g));
        assert(at_formats(i@, rate, channels, all.take(k + 1)) == at_formats(
            i@,
            rate,
            channels,
            all.take(k as int),
        ).push(g));
    }
    assert(all.take(all.len() as int) == all);
}

/// Add the attempts at one rate.
fn add_channels(out: &mut Vec<Attempt>, i: &Input, rate: u32)
    ensures
        attempts_view(final(out)@) == attempts_view(old(out)@) + at_channels(
            i@,
            rate,
            channels_of(i.config),
        ),
{
    let channels = channel_counts(i.config);
    let ghost start = attempts_view(out@);
    let ghost all = channels_of(i.config);
    assert(all.take(0) == Seq::<u16>::empty());
    assert(attempts_view(out@) == start + at_channels(i@, rate, all.take(0)));
    for k in 0..channels.len()
        invariant
            channels@ == all,
            attempts_view(out@) == start + at_channels(i@, rate, all.take(k as int)),
    {
        assert(all.take(k + 1).drop_last() == all.take(k as int));
        add_formats(out, i, rate, channels[k]);
        assert(attempts_view(out@) == start + at_channels(i@, rate, all.take(k + 1)));
    }
    assert(all.take(all.len() as int) == all);
}

/// Add the attempts at one device.
fn add_rates(out: &mut Vec<Attempt>, i: &Input)
    ensures
        attempts_view(final(out)@) == attempts_view(old(out)@) + at_rates(i@, rates_of(i.config)),
{
    let rates = rate_chain(i.config);
    let ghost start = attempts_view(out@);
    let ghost all = rates_of(i.config);
    assert(all.take(0) == Seq::<u32>::empty());
    assert(attempts_view(out@) == start + at_rates(i@, all.take(0)));
    for k in 0..rates.len()
        invariant
            rates@ == all,
            attempts_view(out@) == start + at_rates(i@, all.take(k as int)),
    {
        assert(all.take(k + 1).drop_last() == all.take(k as int));
        add_channels(out, i, rates[k]);
        assert(attempts_view(out@) == start + at_rates(i@, all.take(k + 1)));
    }
    assert(all.take(all.len() as int) == all);
}

/// Every way to open one of the devices, in the order in which to try.
pub fn attempts(candidates: &Vec<Input>) -> (r: Vec<Attempt>)
    ensures
        attempts_view(r@) == attempts_of(audio::inputs(candidates@)),
{
    let mut out: Vec<Attempt> = Vec::new();
    let ghost all = audio::inputs(candidates@);
    assert(all.take(0) == Seq::<InputView>::empty());
    assert(attempts_view(out@) == attempts_of(all.take(0)));
    for k in 0..candidates.len()
        invariant
            all == audio::inputs(candidates@),
            attempts_view(out@) == attempts_of(all.take(k as int)),
    {
        assert(all.take(k + 1).drop_last() == all.take(k as int));
        assert(all.take(k + 1).last() == candidates@[k as int]@);
        add_rates(&mut out, &candidates[k]);
    }
    assert(all.take(all.len() as int) == all);
    out
}

/// A walk along the attempts until one opens.
#[derive(Debug, PartialEq, Eq)]
pub struct Walk {
    pub attempts: Vec<Attempt>,
    /// The attempt that is next.
    pub at: usize,
    /// Why the last one failed.
    pub last_err: String,
}

impl Walk {
    /// Whether the place is one on the way or the end of it.
    pub open spec fn wf(&self) -> bool {
        self.at <= self.attempts@.len()
    }

    /// A walk along every way to open one of the devices.
    pub fn start(candidates: &Vec<Input>) -> (r: Walk)
        ensures
            r.wf(),
            r.at == 0,
            attempts_view(r.attempts@) == attempts_of(audio::inputs(candidates@)),
            r.last_err@ == "no input devices"@,
    {
        Walk { attempts: attempts(candidates), at: 0, last_err: "no input devices".to_string() }
    }

    /// The attempt to make now; none where all have failed.
    pub fn next(&self) -> (r: Option<&Attempt>)
        requires
            self.wf(),
        ensures
            match r {
                Some(a) => self.at < self.attempts@.len() && *a == self.attempts@[self.at as int],
                None => self.at == self.attempts@.len(),
            },
    {
        if self.at < self.attempts.len() {
            Some(&self.attempts[self.at])
        } else {
            None
        }
    }

    /// The attempt failed: go on to the next.
    pub fn failed(&mut self, err: String)
        requires
            old(self).wf(),
            old(self).at < old(self).attempts@.len(),
        ensures
            final(self).wf(),
            final(self).attempts == old(self).attempts,
            final(self).at == old(self).at + 1,
            final(self).last_err == err,
    {
        if self.at < self.attempts.len() {
            self.at = self.at + 1;
        }
        self.last_err = err;
    }

    /// Why no device could be opened: what the last attempt said.
    pub fn error(&self) -> (r: AudioError)
        ensures
            r.0@ == self.last_err@,
    {
        AudioError(self.last_err.clone())
    }
}

// ---- laws -------------------------------------------------------------------

/// A device that may be captured is tried at its own rate and in its own form
/// first, with one channel.
pub proof fn law_own_ways_come_first(i: InputView)
    ensures
        rates_of(i.config).len() > 0,
        channels_of(i.config)[0] == 1,
        formats_of(i.config).len() > 0,
        i.config matches Some(c) ==> rates_of(i.config)[0] == c.rate && (c.format != Format::Other
            ==> formats_of(i.config)[0] == c.format),
{
}

/// A form that cannot be captured is never tried.
pub proof fn law_every_form_tried_can_be_captured(config: Option<Config>)
    ensures
        forall|k: int|
            0 <= k < formats_of(config).len() ==> #[trigger] formats_of(config)[k] != Format::Other,
{
    let usual = seq![Format::F32, Format::I16, Format::I32, Format::U16];
    if let Some(c) = config {
        let p = |f: Format| f != c.format;
        let f = usual.filter(p);
        assert forall|k: int| 0 <= k < f.len() implies #[trigger] f[k] != Format::Other by {
            assert(f.contains(f[k]));
            usual.lemma_filter_contains_rev(p, f[k]);
        }
        assert(c.format != Format::Other ==> formats_of(config) == seq![c.format] + f);
    }
}

/// The rates that are tried: that of the device, and then 48, 44.1 and 16 kHz, each once.
pub proof fn law_the_rates(config: Option<Config>)
    ensures
        ({
            let r = rates_of(config);
            let own = match config {
                Some(c) => c.rate,
                None => 48_000,
            };
            &&& r[0] == own
            &&& own == 48_000 ==> r == seq![48_000u32, 44_100, 16_000]
            &&& own == 44_100 ==> r == seq![44_100u32, 48_000, 16_000]
            &&& own == 16_000 ==> r == seq![16_000u32, 48_000, 44_100]
            &&& own != 48_000 && own != 44_100 && own != 16_000 ==> r == seq![
                own,
                48_000,
                44_100,
                16_000,
            ]
        }),
{
    reveal(Seq::filter);
    let own = match config {
        Some(c) => c.rate,
        None => 48_000,
    };
    let f = |r: u32| r != own;
    let all = seq![48_000u32, 44_100, 16_000];
    let two = seq![48_000u32, 44_100];
    let one = seq![48_000u32];
    let none = Seq::<u32>::empty();
    assert(all.drop_last() == two && two.drop_last() == one && one.drop_last() == none);
    assert(none.filter(f) == none);
    assert(one.filter(f) == if own == 48_000 {
        none
    } else {
        one
    });
    assert(two.filter(f) == if own == 44_100 {
        one.filter(f)
    } else {
        one.filter(f).push(44_100)
    });
    assert(all.filter(f) == if own == 16_000 {
        two.filter(f)
    } else {
        two.filter(f).push(16_000)
    });
    assert(rates_of(config) == seq![own] + all.filter(f));
    if own == 48_000 {
        assert(rates_of(config) =~= seq![48_000u32, 44_100, 16_000]);
    } else if own == 44_100 {
        assert(rates_of(config) =~= seq![44_100u32, 48_000, 16_000]);
    } else if own == 16_000 {
        assert(rates_of(config) =~= seq![16_000u32, 48_000, 44_100]);
    } else {
        assert(rates_of(config) =~= seq![own, 48_000, 44_100, 16_000]);
    }
}

/// The channels that are tried: one, and then as many as the device has, or two where
/// that is not known.
pub proof fn law_the_channels(config: Option<Config>)
    ensures
        config is None ==> channels_of(config) == seq![1u16, 2],
        config matches Some(c) ==> channels_of(config) == if c.channels == 1 {
            seq![1u16]
        } else {
            seq![1u16, c.channels]
        },
{
}

/// The formats that are tried: that of the device, where it can be captured, and then
/// the others in their order, each once.
pub proof fn law_the_formats(config: Option<Config>)
    ensures
        config is None || config->0.format is Other ==> formats_of(config) == seq![
            Format::F32,
            Format::I16,
            Format::I32,
            Format::U16,
        ],
        config is Some && config->0.format is F32 ==> formats_of(config) == seq![
            Format::F32,
            Format::I16,
            Format::I32,
            Format::U16,
        ],
        config is Some && config->0.format is I16 ==> formats_of(config) == seq![
            Format::I16,
            Format::F32,
            Format::I32,
            Format::U16,
        ],
        config is Some && config->0.format is I32 ==> formats_of(config) == seq![
            Format::I32,
            Format::F32,
            Format::I16,
            Format::U16,
        ],
        config is Some && config->0.format is U16 ==> formats_of(config) == seq![
            Format::U16,
            Format::F32,
            Format::I16,
            Format::I32,
        ],
{
    reveal(Seq::filter);
    if let Some(c) = config {
        let f = |g: Format| g != c.format;
        let all = seq![Format::F32, Format::I16, Format::I32, Format::U16];
        let three = seq![Format::F32, Format::I16, Format::I32];
        let two = seq![Format::F32, Format::I16];
        let one = seq![Format::F32];
        let none = Seq::<Format>::empty();
        assert(all.drop_last() == three && three.drop_last() == two && two.drop_last() == one
            && one.drop_last() == none);
        assert(none.filter(f) == none);
        assert(one.filter(f) == if c.format is F32 {
            none
        } else {
            one
        });
        assert(two.filter(f) == if c.format is I16 {
            one.filter(f)
        } else {
            one.filter(f).push(Format::I16)
        });
        assert(three.filter(f) == if c.format is I32 {
            two.filter(f)
        } else {
            two.filter(f).push(Format::I32)
        });
        assert(all.filter(f) == if c.format is U16 {
            three.filter(f)
        } else {
            three.filter(f).push(Format::U16)
        });
        if !(c.format is Other) {
            assert(formats_of(config) == seq![c.format] + all.filter(f));
            if c.format is F32 {
                assert(formats_of(config) =~= all);
            } else if c.format is I16 {
                assert(formats_of(config) =~= seq![
                    Format::I16,
                    Format::F32,
                    Format::I32,
                    Format::U16,
                ]);
            } else if c.format is I32 {
                assert(formats_of(config) =~= seq![
                    Format::I32,
                    Format::F32,
                    Format::I16,
                    Format::U16,
                ]);
            } else {
                assert(formats_of(config) =~= seq![
                    Format::U16,
                    Format::F32,
                    Format::I16,
                    Format::I32,
                ]);
            }
        }
    }
}

/// Every input is tried in every way before the next one: at every rate in its turn, at
/// each of them with every number of channels, and with each of these in every format.
pub proof fn law_the_order_of_attempts(
    all: Seq<InputView>,
    i: InputView,
    rates: Seq<u32>,
    rate: u32,
    channels: Seq<u16>,
    n: u16,
    f: int,
)
    requires
        0 <= f < formats_of(i.config).len(),
    ensures
        attempts_of(Seq::empty()) == Seq::<AttemptView>::empty(),
        attempts_of(all.push(i)) == attempts_of(all) + at_rates(i, rates_of(i.config)),
        at_rates(i, Seq::empty()) == Seq::<AttemptView>::empty(),
        at_rates(i, rates.push(rate)) == at_rates(i, rates) + at_channels(
            i,
            rate,
            channels_of(i.config),
        ),
        at_channels(i, rate, Seq::empty()) == Seq::<AttemptView>::empty(),
        ({
            let before = at_channels(i, rate, channels);
            let now = at_channels(i, rate, channels.push(n));
            let a = now[before.len() + f];
            &&& now.len() == before.len() + formats_of(i.config).len()
            &&& now.take(before.len() as int) == before
            &&& a.handle == i.handle && a.name == i.name && a.rate == rate && a.channels == n
            &&& a.format == formats_of(i.config)[f]
        }),
{
    assert(all.push(i).drop_last() == all);
    assert(rates.push(rate).drop_last() == rates);
    assert(channels.push(n).drop_last() == channels);
    let before = at_channels(i, rate, channels);
    let now = at_channels(i, rate, channels.push(n));
    assert(now.take(before.len() as int) == before);
}

/// Which inputs are tried: without a name, and for a name that no device has, all of
/// them, led by the default; for a name that devices have, those alone; and for a card
/// that devices of one name have, those first.
pub proof fn law_which_inputs_are_tried(
    name: Seq<char>,
    sources: Seq<SourceView>,
    default_name: Option<Seq<char>>,
    all: Seq<InputView>,
    default: Option<Device>,
)
    ensures
        name.len() == 0 ==> candidates_of(name, None, all, default) == audio::led_by_default(
            default,
            all,
        ),
        name.len() > 0 ==> {
            let like = all.filter(
                |i: InputView| text::has(text::lowercase(i.name), text::lowercase(name)),
            );
            candidates_of(name, None, all, default) == if like.len() > 0 {
                like
            } else {
                audio::led_by_default(default, all)
            }
        },
        audio::plan_of(name, sources, default_name) is SystemDefault ==> candidates_of(
            name,
            Some((sources, default_name)),
            all,
            default,
        ) == audio::led_by_default(default, all),
        audio::plan_of(name, sources, default_name) is Legacy ==> candidates_of(
            name,
            Some((sources, default_name)),
            all,
            default,
        ) == candidates_of(name, None, all, default),
        audio::plan_of(name, sources, default_name) matches PlanView::Card(card) ==> {
            let like = all.filter(
                |i: InputView| text::has(text::lowercase(i.name), text::lowercase(card)),
            );
            let tried = candidates_of(name, Some((sources, default_name)), all, default);
            like.len() > 0 && (forall|i: int|
                0 <= i < like.len() ==> (#[trigger] like[i]).name == like[0].name) ==> tried.len()
                >= like.len() && tried.take(like.len() as int) == like
        },
{
    let f = |i: InputView| is_like(i, text::lowercase(name));
    let g = |i: InputView| text::has(text::lowercase(i.name), text::lowercase(name));
    lemma_filters_agree(all, f, g);
    if let PlanView::Card(card) = audio::plan_of(name, sources, default_name) {
        let needle = text::lowercase(card);
        let p = |i: InputView| is_like(i, needle);
        let q = |i: InputView| text::has(text::lowercase(i.name), text::lowercase(card));
        lemma_filters_agree(all, p, q);
        let like = alike(all, needle);
        let tried = candidates_of(name, Some((sources, default_name)), all, default);
        if of_one_name(like) {
            assert(tried.take(like.len() as int) == like);
        }
    }
}

/// Two conditions that agree keep the same.
proof fn lemma_filters_agree(
    all: Seq<InputView>,
    f: spec_fn(InputView) -> bool,
    g: spec_fn(InputView) -> bool,
)
    requires
        forall|i: InputView| #[trigger] f(i) == g(i),
    ensures
        all.filter(f) == all.filter(g),
    decreases all.len(),
{
    reveal(Seq::filter);
    if all.len() > 0 {
        lemma_filters_agree(all.drop_last(), f, g);
        assert(f(all.last()) == g(all.last()));
    }
}

/// An input is like a name that stands in its own, in any letter case; the others are not.
pub proof fn law_which_inputs_are_alike(all: Seq<InputView>, i: InputView, needle: Seq<char>)
    ensures
        alike(Seq::empty(), needle) == Seq::<InputView>::empty(),
        unlike(Seq::empty(), needle) == Seq::<InputView>::empty(),
        text::has(text::lowercase(i.name), needle) ==> alike(all.push(i), needle) == alike(
            all,
            needle,
        ).push(i) && unlike(all.push(i), needle) == unlike(all, needle),
        !text::has(text::lowercase(i.name), needle) ==> alike(all.push(i), needle) == alike(
            all,
            needle,
        ) && unlike(all.push(i), needle) == unlike(all, needle).push(i),
{
    reveal(Seq::filter);
    assert(all.push(i).drop_last() == all);
    assert(all.push(i).last() == i);
}

/// The inputs of the card of the source go first, and the others follow. Where those of the
/// card are of one name they stay ahead of the default as well.
pub proof fn law_the_inputs_of_a_card_lead(
    name: Seq<char>,
    sources: Seq<SourceView>,
    default_name: Option<Seq<char>>,
    card: Seq<char>,
    all: Seq<InputView>,
    default: Option<Device>,
)
    requires
        audio::plan_of(name, sources, default_name) == PlanView::Card(card),
    ensures
        ({
            let matched = alike(all, text::lowercase(card));
            let rest = unlike(all, text::lowercase(card));
            let tried = candidates_of(name, Some((sources, default_name)), all, default);
            let same = forall|k: int|
                0 <= k < matched.len() ==> (#[trigger] matched[k]).name == matched[0].name;
            &&& matched.len() > 0 && same ==> tried == matched + audio::led_by_default(default, rest)
            &&& matched.len() == 0 || !same ==> tried == audio::led_by_default(
                default,
                matched + rest,
            )
            &&& default is None ==> tried == matched + rest
        }),
{
}

} // verus!
