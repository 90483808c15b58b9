//! The microphone: which one to open and how, how much of a take to keep, and
//! where each sample of the resampled take comes from.
//!
//! The samples themselves are floating-point numbers, of which nothing is said
//! here: what mixes two of them is handed in.

pub mod open;
pub mod take;

pub use open::{
    attempts, candidates, channel_counts, format_order, rate_chain, Attempt, Walk,
};
pub use take::{append_capped, resample_to_16k, take_cap, too_short, LevelMeter};

use crate::json::{self, Field};
use crate::text;
use vstd::prelude::*;

verus! {

/// The rate of the takes that are transcribed, in samples per second.
pub const SAMPLE_RATE: u32 = 16_000;

/// The longest take, in seconds.
pub const MAX_TAKE_SECS: usize = 600;

/// How long a list of sources stays fresh, in nanoseconds.
pub const SOURCES_TTL_NS: u64 = 3_000_000_000;

/// What stands behind the name of the default source in the list.
pub const DEFAULT_SUFFIX: &'static str = " (system default)";

/// What went wrong with the microphone.
#[derive(Debug, PartialEq, Eq)]
pub struct AudioError(pub String);

impl AudioError {
    /// The message.
    pub fn message(&self) -> (r: &str)
        ensures
            r@ == self.0@,
    {
        self.0.as_str()
    }
}

// ---- devices ----------------------------------------------------------------

/// Whether a device is the one that swallows everything and gives silence: it
/// is no microphone.
pub open spec fn is_null(name: Seq<char>, driver: Option<Seq<char>>) -> bool {
    driver == Some("null"@) || text::starts(name, "Discard all samples"@)
}

/// Whether a device is the one that swallows everything and gives silence.
pub fn is_null_device(name: &str, driver: Option<&str>) -> (r: bool)
    ensures
        r == is_null(name@, text::opt_str(driver)),
{
    let by_driver = match driver {
        Some(d) => text::str_eq(d, "null"),
        None => false,
    };
    if by_driver {
        return true;
    }
    let c = text::chars_of(name);
    text::starts_with(c.as_slice(), "Discard all samples")
}

/// The form of a sample.
#[derive(Clone, Copy, PartialEq, Eq, Structural, Debug)]
pub enum Format {
    F32,
    I16,
    I32,
    U16,
    /// One that cannot be captured.
    Other,
}

/// The name of a form.
pub open spec fn label_of(format: Format) -> Seq<char> {
    match format {
        Format::F32 => "f32"@,
        Format::I16 => "i16"@,
        Format::I32 => "i32"@,
        Format::U16 => "u16"@,
        Format::Other => "?"@,
    }
}

/// The name of a form.
pub fn format_label(format: Format) -> (r: &'static str)
    ensures
        r@ == label_of(format),
{
    match format {
        Format::F32 => "f32",
        Format::I16 => "i16",
        Format::I32 => "i32",
        Format::U16 => "u16",
        Format::Other => "?",
    }
}

/// How a device captures unless told otherwise.
#[derive(Clone, Copy, PartialEq, Eq, Structural, Debug)]
pub struct Config {
    pub rate: u32,
    pub channels: u16,
    pub format: Format,
}

/// An input device, as the system describes it.
#[derive(Debug, PartialEq, Eq)]
pub struct Device {
    /// By which it is found again.
    pub handle: u64,
    /// What tells it from the others, where the system says.
    pub id: Option<String>,
    /// Its name, where the system gives one.
    pub name: Option<String>,
    pub driver: Option<String>,
    /// How it captures, where it can be asked.
    pub config: Option<Config>,
}

/// An input device that may be opened.
#[derive(Debug, PartialEq, Eq)]
pub struct Input {
    pub handle: u64,
    pub id: Option<String>,
    pub name: String,
    pub config: Option<Config>,
}

/// What an [`Input`] holds.
pub struct InputView {
    pub handle: u64,
    pub id: Option<Seq<char>>,
    pub name: Seq<char>,
    pub config: Option<Config>,
}

impl View for Input {
    type V = InputView;

    open spec fn view(&self) -> InputView {
        InputView {
            handle: self.handle,
            id: text::opt_text(self.id),
            name: self.name@,
            config: self.config,
        }
    }
}

/// What each input of a list holds.
pub open spec fn inputs(v: Seq<Input>) -> Seq<InputView> {
    v.map_values(|i: Input| i@)
}

/// A device as an input: one that has a name and is a microphone.
pub open spec fn input_of(d: Device) -> Option<InputView> {
    match d.name {
        Some(n) => if is_null(n@, text::opt_text(d.driver)) {
            None
        } else {
            Some(
                InputView {
                    handle: d.handle,
                    id: text::opt_text(d.id),
                    name: n@,
                    config: d.config,
                },
            )
        },
        None => None,
    }
}

/// The inputs among the devices, in order.
pub open spec fn inputs_of(devices: Seq<Device>) -> Seq<InputView>
    decreases devices.len(),
{
    if devices.len() == 0 {
        Seq::empty()
    } else {
        let before = inputs_of(devices.drop_last());
        match input_of(devices.last()) {
            Some(i) => before.push(i),
            None => before,
        }
    }
}

/// The names of the inputs, each once, in order.
pub open spec fn input_names(all: Seq<InputView>) -> Seq<Seq<char>>
    decreases all.len(),
{
    if all.len() == 0 {
        Seq::empty()
    } else {
        let before = input_names(all.drop_last());
        if before.contains(all.last().name) {
            before
        } else {
            before.push(all.last().name)
        }
    }
}

/// The default device as an input: it goes without a name, but never for one
/// that is no microphone.
pub open spec fn default_input(d: Device) -> Option<InputView> {
    match d.name {
        Some(_) => input_of(d),
        None => Some(
            InputView {
                handle: d.handle,
                id: text::opt_text(d.id),
                name: "system default"@,
                config: d.config,
            },
        ),
    }
}

/// The inputs without the one whose identity is `id`.
pub open spec fn without(all: Seq<InputView>, id: Option<Seq<char>>) -> Seq<InputView> {
    all.filter(|i: InputView| id is None || i.id != id)
}

/// The inputs with the default device in front, where it is a microphone.
pub open spec fn led_by_default(default: Option<Device>, all: Seq<InputView>) -> Seq<InputView> {
    match default {
        Some(d) => match default_input(d) {
            Some(i) => seq![i] + without(all, i.id),
            None => all,
        },
        None => all,
    }
}

/// A copy of an optional text.
fn copy_text(s: &Option<String>) -> (r: Option<String>)
    ensures
        text::opt_text(r) == text::opt_text(*s),
{
    match s {
        Some(t) => Some(t.clone()),
        None => None,
    }
}

/// A copy of an input.
fn copy_input(i: &Input) -> (r: Input)
    ensures
        r@ == i@,
{
    Input { handle: i.handle, id: copy_text(&i.id), name: i.name.clone(), config: i.config }
}

/// Whether two optional texts are the same.
fn same_text(a: &Option<String>, b: &Option<String>) -> (r: bool)
    ensures
        r == (text::opt_text(*a) == text::opt_text(*b)),
{
    match (a, b) {
        (Some(x), Some(y)) => text::str_eq(x.as_str(), y.as_str()),
        (None, None) => true,
        _ => false,
    }
}

/// A device as an input, where it is one.
fn read_input(d: &Device) -> (r: Option<Input>)
    ensures
        match r {
            Some(i) => input_of(*d) == Some(i@),
            None => input_of(*d) is None,
        },
{
    match &d.name {
        Some(n) => {
            let driver = match &d.driver {
                Some(s) => Some(s.as_str()),
                None => None,
            };
            if is_null_device(n.as_str(), driver) {
                None
            } else {
                Some(
                    Input {
                        handle: d.handle,
                        id: copy_text(&d.id),
                        name: n.clone(),
                        config: d.config,
                    },
                )
            }
        },
        None => None,
    }
}

/// The inputs among the devices, in order.
pub fn all_inputs(devices: &Vec<Device>) -> (r: Vec<Input>)
    ensures
        inputs(r@) == inputs_of(devices@),
{
    let mut out: Vec<Input> = Vec::new();
    assert(inputs(out@) == inputs_of(devices@.take(0)));
    for k in 0..devices.len()
        invariant
            inputs(out@) == inputs_of(devices@.take(k as int)),
    {
        assert(devices@.take(k + 1).drop_last() == devices@.take(k as int));
        if let Some(i) = read_input(&devices[k]) {
            let ghost was = out@;
            let ghost g = i@;
            out.push(i);
            assert(inputs(out@) == inputs(was).push(g));
        }
    }
    assert(devices@.take(devices@.len() as int) == devices@);
    out
}

/// Whether `name` is among `names`.
fn is_listed(names: &Vec<String>, name: &str) -> (r: bool)
    ensures
        r == text::texts(names@).contains(name@),
{
    for i in 0..names.len()
        invariant
            forall|j: int| 0 <= j < i ==> text::texts(names@)[j] != name@,
    {
        assert(text::texts(names@)[i as int] == names@[i as int]@);
        if text::str_eq(names[i].as_str(), name) {
            return true;
        }
    }
    assert(text::texts(names@).len() == names@.len());
    false
}

/// The names of the devices that are microphones, each once, in order.
pub fn cpal_mic_names(devices: &Vec<Device>) -> (r: Vec<String>)
    ensures
        text::texts(r@) == input_names(inputs_of(devices@)),
{
    let all = all_inputs(devices);
    let ghost v = inputs_of(devices@);
    let mut names: Vec<String> = Vec::new();
    assert(text::texts(names@) == input_names(v.take(0)));
    for k in 0..all.len()
        invariant
            inputs(all@) == v,
            text::texts(names@) == input_names(v.take(k as int)),
    {
        assert(v.take(k + 1).drop_last() == v.take(k as int));
        assert(v.take(k + 1).last() == all@[k as int]@);
        if !is_listed(&names, all[k].name.as_str()) {
            let ghost was = names@;
            names.push(all[k].name.clone());
            assert(text::texts(names@) == text::texts(was).push(all@[k as int].name@));
        }
    }
    assert(v.take(v.len() as int) == v);
    names
}

/// The inputs with the default device in front, where it is a microphone; the
/// other entry of the same device is left out.
pub fn default_first(default: &Option<Device>, all: Vec<Input>) -> (r: Vec<Input>)
    ensures
        inputs(r@) == led_by_default(*default, inputs(all@)),
{
    let lead = match default {
        Some(d) => match &d.name {
            Some(_) => read_input(d),
            None => Some(
                Input {
                    handle: d.handle,
                    id: copy_text(&d.id),
                    name: "system default".to_string(),
                    config: d.config,
                },
            ),
        },
        None => None,
    };
    let lead = match lead {
        Some(i) => i,
        None => {
            return all;
        },
    };
    let ghost v = inputs(all@);
    let ghost id = text::opt_text(lead.id);
    let ghost first = lead@;
    let lead_id = copy_text(&lead.id);
    let mut out: Vec<Input> = Vec::new();
    out.push(lead);
    proof {
        reveal(Seq::filter);
        assert(v.take(0) == Seq::<InputView>::empty());
        assert(inputs(out@) == seq![first] + without(v.take(0), id));
    }
    for k in 0..all.len()
        invariant
            v == inputs(all@),
            id == text::opt_text(lead_id),
            inputs(out@) == seq![first] + without(v.take(k as int), id),
    {
        proof {
            reveal(Seq::filter);
            assert(v.take(k + 1).drop_last() == v.take(k as int));
            assert(v.take(k + 1).last() == all@[k as int]@);
        }
        if lead_id.is_some() && same_text(&all[k].id, &lead_id) {
            assert(without(v.take(k + 1), id) == without(v.take(k as int), id));
        } else {
            let ghost was = out@;
            let i = copy_input(&all[k]);
            let ghost g = i@;
            out.push(i);
            assert(inputs(out@) == inputs(was).push(g));
            assert(without(v.take(k + 1), id) == without(v.take(k as int), id).push(g));
            assert(inputs(was).push(g) == seq![first] + without(v.take(k as int), id).push(g));
        }
    }
    assert(v.take(v.len() as int) == v);
    out
}

// ---- sources ----------------------------------------------------------------

/// A source of sound that the desktop knows.
#[derive(Debug, PartialEq, Eq)]
pub struct Source {
    /// Its name.
    pub name: String,
    /// What the desktop calls it.
    pub description: String,
    /// The name of its card, where it has one.
    pub card_name: Option<String>,
}

/// What a [`Source`] holds.
pub struct SourceView {
    pub name: Seq<char>,
    pub description: Seq<char>,
    pub card_name: Option<Seq<char>>,
}

impl View for Source {
    type V = SourceView;

    open spec fn view(&self) -> SourceView {
        SourceView {
            name: self.name@,
            description: self.description@,
            card_name: text::opt_text(self.card_name),
        }
    }
}

/// What each source of a list holds.
pub open spec fn sources_view(v: Seq<Source>) -> Seq<SourceView> {
    v.map_values(|s: Source| s@)
}

/// The source that an entry describes: one with a name and a description that
/// does not only listen to what is played.
pub open spec fn source_of(
    o: Seq<(Seq<char>, json::FieldView)>,
    props: Seq<(Seq<char>, json::FieldView)>,
) -> Option<SourceView> {
    match (json::string(o, "name"@), json::string(o, "description"@)) {
        (Some(name), Some(description)) => if text::ends(name, ".monitor"@) || json::string(
            props,
            "device.class"@,
        ) == Some("monitor"@) {
            None
        } else {
            Some(
                SourceView {
                    name,
                    description,
                    card_name: if json::has_key(props, "alsa.card_name"@) {
                        json::string(props, "alsa.card_name"@)
                    } else {
                        json::string(props, "alsa.long_card_name"@)
                    },
                },
            )
        },
        _ => None,
    }
}

/// The fields of the object that `s` spells, none where it spells none.
pub open spec fn fields_of(s: Seq<char>) -> Seq<(Seq<char>, json::FieldView)> {
    match json::object_of(vstd::utf8::encode_utf8(s)) {
        Ok(o) => o,
        Err(_) => Seq::empty(),
    }
}

/// The properties of an entry.
pub open spec fn properties_of(o: Seq<(Seq<char>, json::FieldView)>) -> Seq<
    (Seq<char>, json::FieldView),
> {
    match json::lookup(o, "properties"@) {
        json::FieldView::Object(s) => fields_of(s),
        _ => Seq::empty(),
    }
}

/// The sources among the entries, in order.
pub open spec fn sources_of(entries: Seq<Seq<char>>) -> Seq<SourceView>
    decreases entries.len(),
{
    if entries.len() == 0 {
        Seq::empty()
    } else {
        let before = sources_of(entries.drop_last());
        let o = fields_of(entries.last());
        match source_of(o, properties_of(o)) {
            Some(s) => before.push(s),
            None => before,
        }
    }
}

/// The sources in a listing; nothing where it is no list.
pub open spec fn listed_sources(listing: Seq<char>) -> Option<Seq<SourceView>> {
    match json::json_of(vstd::utf8::encode_utf8(listing)) {
        Ok(json::ShapeView::List(entries)) => Some(sources_of(entries)),
        _ => None,
    }
}

/// The source that the fields of an entry and those of its properties describe.
pub fn source_from(fields: &Vec<(String, Field)>, props: &Vec<(String, Field)>) -> (r: Option<
    Source,
>)
    ensures
        match r {
            Some(s) => source_of(json::fields_view(fields@), json::fields_view(props@)) == Some(
                s@,
            ),
            None => source_of(json::fields_view(fields@), json::fields_view(props@)) is None,
        },
{
    let name = match json::get_str(fields, "name") {
        Some(n) => n,
        None => {
            return None;
        },
    };
    let c = text::chars_of(name);
    if text::ends_with(c.as_slice(), ".monitor") {
        return None;
    }
    if let Some(class) = json::get_str(props, "device.class") {
        if text::str_eq(class, "monitor") {
            return None;
        }
    }
    let description = match json::get_str(fields, "description") {
        Some(d) => d,
        None => {
            return None;
        },
    };
    let card = if json::find(props, "alsa.card_name").is_some() {
        json::get_str(props, "alsa.card_name")
    } else {
        json::get_str(props, "alsa.long_card_name")
    };
    let card_name = match card {
        Some(s) => Some(s.to_string()),
        None => None,
    };
    Some(Source { name: name.to_string(), description: description.to_string(), card_name })
}

/// The fields of the object that `s` spells, none where it spells none.
fn read_fields(s: &str) -> (r: Vec<(String, Field)>)
    ensures
        json::fields_view(r@) == fields_of(s@),
{
    match json::read_object(s.as_bytes()) {
        Ok(o) => o,
        Err(_) => {
            let r: Vec<(String, Field)> = Vec::new();
            assert(json::fields_view(r@) == Seq::<(Seq<char>, json::FieldView)>::empty());
            r
        },
    }
}

/// The sources in a listing, in order; nothing where it is no list. Entries that
/// describe none are skipped.
pub fn parse_sources(listing: &str) -> (r: Option<Vec<Source>>)
    ensures
        match r {
            Some(v) => listed_sources(listing@) == Some(sources_view(v@)),
            None => listed_sources(listing@) is None,
        },
{
    let entries = match json::read_json(listing.as_bytes()) {
        Ok(json::Shape::List(v)) => v,
        _ => {
            return None;
        },
    };
    let ghost all = text::texts(entries@);
    let mut out: Vec<Source> = Vec::new();
    assert(sources_view(out@) == sources_of(all.take(0)));
    for i in 0..entries.len()
        invariant
            all == text::texts(entries@),
            sources_view(out@) == sources_of(all.take(i as int)),
    {
        assert(all.take(i + 1).drop_last() == all.take(i as int));
        assert(all.take(i + 1).last() == entries@[i as int]@);
        let fields = read_fields(entries[i].as_str());
        let props = match json::find(&fields, "properties") {
            Some(Field::Object(s)) => read_fields(s.as_str()),
            _ => {
                let none: Vec<(String, Field)> = Vec::new();
                assert(json::fields_view(none@) == Seq::<(Seq<char>, json::FieldView)>::empty());
                none
            },
        };
        if let Some(s) = source_from(&fields, &props) {
            let ghost was = out@;
            let ghost g = s@;
            out.push(s);
            assert(sources_view(out@) == sources_view(was).push(g));
        }
    }
    assert(all.take(all.len() as int) == all);
    Some(out)
}

/// The source whose name is `name`.
pub open spec fn source_named(all: Seq<SourceView>, name: Seq<char>) -> Option<SourceView>
    decreases all.len(),
{
    if all.len() == 0 {
        None
    } else if all[0].name == name {
        Some(all[0])
    } else {
        source_named(all.skip(1), name)
    }
}

/// `names` and then the descriptions of the sources but the default one, each
/// where it is not there yet.
pub open spec fn with_descriptions(
    names: Seq<Seq<char>>,
    all: Seq<SourceView>,
    default: Option<Seq<char>>,
) -> Seq<Seq<char>>
    decreases all.len(),
{
    if all.len() == 0 {
        names
    } else {
        let before = with_descriptions(names, all.drop_last(), default);
        let s = all.last();
        if Some(s.name) == default || before.contains(s.description) {
            before
        } else {
            before.push(s.description)
        }
    }
}

/// The rows of the list: the default source first, marked, then the others.
pub open spec fn rows(all: Seq<SourceView>, default: Option<Seq<char>>) -> Seq<Seq<char>> {
    let lead = match default {
        Some(d) => match source_named(all, d) {
            Some(s) => seq![s.description + DEFAULT_SUFFIX@],
            None => Seq::empty(),
        },
        None => Seq::empty(),
    };
    with_descriptions(lead, all, default)
}

/// The rows of the list of microphones: the default source first, marked as
/// such, then the descriptions of the others, each once, in order.
pub fn mic_names(sources: &[Source], default_name: Option<&str>) -> (r: Vec<String>)
    ensures
        text::texts(r@) == rows(sources_view(sources@), text::opt_str(default_name)),
{
    let ghost all = sources_view(sources@);
    let ghost default = text::opt_str(default_name);
    let mut names: Vec<String> = Vec::new();
    let ghost mut lead: Seq<Seq<char>> = Seq::empty();
    assert(text::texts(names@) == lead);
    if let Some(d) = default_name {
        let mut i: usize = 0;
        let mut found = false;
        assert(all.skip(0) == all);
        while i < sources.len() && !found
            invariant
                i <= sources@.len(),
                all == sources_view(sources@),
                !found ==> source_named(all, d@) == source_named(all.skip(i as int), d@)
                    && text::texts(names@) == Seq::<Seq<char>>::empty(),
                found ==> (source_named(all, d@) matches Some(s) && text::texts(names@) == seq![
                    s.description + DEFAULT_SUFFIX@,
                ]),
            decreases sources@.len() - i,
        {
            assert(all.skip(i as int)[0] == sources@[i as int]@);
            assert(all.skip(i as int).skip(1) == all.skip(i + 1));
            if text::str_eq(sources[i].name.as_str(), d) {
                let mut row = text::chars_of(sources[i].description.as_str());
                text::extend_str(&mut row, DEFAULT_SUFFIX);
                let row = text::string_of(row.as_slice());
                let ghost w = row@;
                names.push(row);
                assert(text::texts(names@) == seq![w]);
                found = true;
            }
            i = i + 1;
        }
        proof {
            lead = text::texts(names@);
        }
    }
    assert(with_descriptions(lead, all.take(0), default) == lead);
    for i in 0..sources.len()
        invariant
            all == sources_view(sources@),
            default == text::opt_str(default_name),
            text::texts(names@) == with_descriptions(lead, all.take(i as int), default),
    {
        assert(all.take(i + 1).drop_last() == all.take(i as int));
        assert(all.take(i + 1).last() == sources@[i as int]@);
        let is_default = match default_name {
            Some(d) => text::str_eq(sources[i].name.as_str(), d),
            None => false,
        };
        if !is_default && !is_listed(&names, sources[i].description.as_str()) {
            let ghost was = names@;
            names.push(sources[i].description.clone());
            assert(text::texts(names@) == text::texts(was).push(sources@[i as int].description@));
        }
    }
    assert(all.take(all.len() as int) == all);
    names
}

/// How to capture for a configured name.
#[derive(Debug, PartialEq, Eq)]
pub enum Plan {
    /// From the default device, which is shared with others.
    SystemDefault,
    /// From the card of this name.
    Card(String),
    /// From the devices whose name holds the configured one.
    Legacy,
}

/// What a [`Plan`] says.
pub enum PlanView {
    SystemDefault,
    Card(Seq<char>),
    Legacy,
}

impl View for Plan {
    type V = PlanView;

    open spec fn view(&self) -> PlanView {
        match self {
            Plan::SystemDefault => PlanView::SystemDefault,
            Plan::Card(c) => PlanView::Card(c@),
            Plan::Legacy => PlanView::Legacy,
        }
    }
}

/// The first source whose description holds `needle`, in any letter case.
pub open spec fn source_like(all: Seq<SourceView>, needle: Seq<char>) -> Option<SourceView>
    decreases all.len(),
{
    if all.len() == 0 {
        None
    } else if text::has(text::lowercase(all[0].description), needle) {
        Some(all[0])
    } else {
        source_like(all.skip(1), needle)
    }
}

/// How to capture for the configured name `mic`: an empty one, and one marked as
/// the default, follow the default device, and so does the default source itself
/// and one without a card.
pub open spec fn plan_of(
    mic: Seq<char>,
    all: Seq<SourceView>,
    default: Option<Seq<char>>,
) -> PlanView {
    let needle = text::lowercase(text::trim(mic));
    if needle.len() == 0 || text::ends(needle, text::lowercase(DEFAULT_SUFFIX@)) {
        PlanView::SystemDefault
    } else {
        match source_like(all, needle) {
            Some(s) => if Some(s.name) == default {
                PlanView::SystemDefault
            } else {
                match s.card_name {
                    Some(card) => PlanView::Card(card),
                    None => PlanView::SystemDefault,
                }
            },
            None => PlanView::Legacy,
        }
    }
}

/// How to capture for a configured name, given the sources that the desktop
/// knows and the name of its default one.
pub fn plan(mic_name: &str, sources: &[Source], default_name: Option<&str>) -> (r: Plan)
    ensures
        r@ == plan_of(mic_name@, sources_view(sources@), text::opt_str(default_name)),
{
    let c = text::chars_of(mic_name);
    let trimmed = text::string_of(text::trimmed(c.as_slice()));
    let needle = text::chars_of(text::to_lowercase(trimmed.as_str()).as_str());
    let suffix = text::to_lowercase(DEFAULT_SUFFIX);
    if needle.len() == 0 || text::ends_with(needle.as_slice(), suffix.as_str()) {
        return Plan::SystemDefault;
    }
    let ghost all = sources_view(sources@);
    let mut i: usize = 0;
    assert(all.skip(0) == all);
    while i < sources.len()
        invariant
            i <= sources@.len(),
            all == sources_view(sources@),
            needle@ == text::lowercase(text::trim(mic_name@)),
            needle@.len() > 0,
            !text::ends(needle@, text::lowercase(DEFAULT_SUFFIX@)),
            source_like(all, needle@) == source_like(all.skip(i as int), needle@),
        decreases sources@.len() - i,
    {
        assert(all.skip(i as int)[0] == sources@[i as int]@);
        assert(all.skip(i as int).skip(1) == all.skip(i + 1));
        let s = &sources[i];
        let d = text::chars_of(text::to_lowercase(s.description.as_str()).as_str());
        if text::contains(d.as_slice(), needle.as_slice()) {
            let is_default = match default_name {
                Some(n) => text::str_eq(s.name.as_str(), n),
                None => false,
            };
            if is_default {
                return Plan::SystemDefault;
            }
            return match &s.card_name {
                Some(card) => Plan::Card(card.clone()),
                None => Plan::SystemDefault,
            };
        }
        i = i + 1;
    }
    Plan::Legacy
}

/// Whether a list of sources made at `at` is still fresh at `now`, both in
/// nanoseconds.
pub fn is_fresh(at: u64, now: u64) -> (r: bool)
    ensures
        r == (now < at + SOURCES_TTL_NS),
{
    now < at || now - at < SOURCES_TTL_NS
}

/// The sources and the name of the default one, from what the desktop's tool
/// printed; nothing where it failed or knows no source.
pub fn snapshot(listing: Option<&str>, default_source: Option<&str>) -> (r: Option<
    (Vec<Source>, Option<String>),
>)
    ensures
        match r {
            Some((v, d)) => {
                &&& listing is Some
                &&& listed_sources(listing->0@) == Some(sources_view(v@))
                &&& v@.len() > 0
                &&& text::opt_text(d) == match default_source {
                    Some(s) if text::trim(s@).len() > 0 => Some(text::trim(s@)),
                    _ => None,
                }
            },
            None => listing is None || listed_sources(listing->0@) is None || listed_sources(
                listing->0@,
            ) == Some(Seq::<SourceView>::empty()),
        },
{
    let text_out = match listing {
        Some(l) => l,
        None => {
            return None;
        },
    };
    let v = match parse_sources(text_out) {
        Some(v) => v,
        None => {
            return None;
        },
    };
    if v.len() == 0 {
        assert(sources_view(v@) == Seq::<SourceView>::empty());
        return None;
    }
    let d = match default_source {
        Some(s) => {
            let c = text::chars_of(s);
            let t = text::trimmed(c.as_slice());
            if t.len() > 0 {
                Some(text::string_of(t))
            } else {
                None
            }
        },
        None => None,
    };
    Some((v, d))
}

/// The rows of the list of microphones: from the desktop's own sources where
/// they are known, else from the devices.
pub fn list_mic_names(
    known: &Option<(Vec<Source>, Option<String>)>,
    devices: &Vec<Device>,
) -> (r: Vec<String>)
    ensures
        text::texts(r@) == match known {
            Some((s, d)) => rows(sources_view(s@), text::opt_text(*d)),
            None => input_names(inputs_of(devices@)),
        },
{
    match known {
        Some((s, d)) => {
            let default = match d {
                Some(n) => Some(n.as_str()),
                None => None,
            };
            mic_names(s.as_slice(), default)
        },
        None => cpal_mic_names(devices),
    }
}

// ---- laws -------------------------------------------------------------------

/// A row is one of those that came first, or what the desktop calls a source that is
/// not the default one.
proof fn lemma_rows_are_descriptions(
    names: Seq<Seq<char>>,
    all: Seq<SourceView>,
    default: Option<Seq<char>>,
    row: Seq<char>,
)
    requires
        with_descriptions(names, all, default).contains(row),
    ensures
        names.contains(row) || exists|k: int|
            0 <= k < all.len() && (#[trigger] all[k]).description == row && Some(all[k].name)
                != default,
    decreases all.len(),
{
    if all.len() > 0 {
        let before = with_descriptions(names, all.drop_last(), default);
        let now = with_descriptions(names, all, default);
        let s = all.last();
        if before.contains(row) {
            lemma_rows_are_descriptions(names, all.drop_last(), default, row);
            if !names.contains(row) {
                let k = choose|k: int|
                    0 <= k < all.drop_last().len() && (#[trigger] all.drop_last()[k]).description
                        == row && Some(all.drop_last()[k].name) != default;
                assert(all[k] == all.drop_last()[k]);
            }
        } else {
            let i = choose|i: int| 0 <= i < now.len() && now[i] == row;
            assert(now == before.push(s.description));
            assert(i == before.len()) by {
                if i < before.len() {
                    assert(before[i] == row);
                }
            }
            assert(all[all.len() - 1] == s);
        }
    }
}

/// Where a source is called so that its description holds the text, one is found.
proof fn lemma_source_is_found(all: Seq<SourceView>, needle: Seq<char>, k: int)
    requires
        0 <= k < all.len(),
        text::has(text::lowercase(all[k].description), needle),
    ensures
        source_like(all, needle) is Some,
    decreases all.len(),
{
    if !text::has(text::lowercase(all[0].description), needle) {
        assert(all.skip(1)[k - 1] == all[k]);
        lemma_source_is_found(all.skip(1), needle, k - 1);
    }
}

/// A row that is marked as the default follows the default device, whatever sources
/// there are: what stands in front of the mark is not blank.
pub proof fn law_marked_rows_follow_the_default(
    front: Seq<char>,
    all: Seq<SourceView>,
    default: Option<Seq<char>>,
)
    requires
        text::trim(front).len() > 0,
    ensures
        plan_of(front + DEFAULT_SUFFIX@, all, default) == PlanView::SystemDefault,
{
    reveal_strlit(" (system default)");
    let mark = DEFAULT_SUFFIX@;
    let row = front + mark;
    let start = text::trim_start(front);
    assert(start.len() > 0);
    text::lemma_trim_start_front(front, mark);
    let kept = start + mark;
    assert(kept.last() == ')');
    assert(text::trim(row) == kept);
    let e = Seq::<char>::empty();
    let words = mark.skip(1);
    text::law_white_space_parts_letter_case(start, ' ', words);
    text::law_white_space_parts_letter_case(e, ' ', words);
    assert(start.push(' ') + words == kept);
    assert(e.push(' ') + words == mark);
    assert(text::lowercase(e) == e);
    let needle = text::lowercase(kept);
    let low = text::lowercase(mark);
    assert(needle == text::lowercase(start) + low);
    assert(needle.skip(needle.len() - low.len()) =~= low);
}

/// Every row that the list of microphones offers leads to a live route: none is left
/// to the devices whose name holds it, and one with the mark of the default behind
/// something follows the default device. The name of no source is blank.
pub proof fn law_every_row_has_a_route(
    all: Seq<SourceView>,
    default: Option<Seq<char>>,
    row: Seq<char>,
)
    requires
        forall|k: int| 0 <= k < all.len() ==> text::trim((#[trigger] all[k]).description).len() > 0,
        rows(all, default).contains(row),
    ensures
        plan_of(row, all, default) != PlanView::Legacy,
        forall|front: Seq<char>|
            row == #[trigger] (front + DEFAULT_SUFFIX@) && text::trim(front).len() > 0 ==> plan_of(
                row,
                all,
                default,
            ) == PlanView::SystemDefault,
{
    let lead = match default {
        Some(d) => match source_named(all, d) {
            Some(s) => seq![s.description + DEFAULT_SUFFIX@],
            None => Seq::empty(),
        },
        None => Seq::empty(),
    };
    lemma_rows_are_descriptions(lead, all, default, row);
    if lead.contains(row) {
        let s = source_named(all, default->0)->0;
        lemma_named_is_one(all, default->0);
        assert(row == lead[0]);
        law_marked_rows_follow_the_default(s.description, all, default);
    } else {
        let k = choose|k: int|
            0 <= k < all.len() && (#[trigger] all[k]).description == row && Some(all[k].name)
                != default;
        text::lemma_trimmed_in_lower_case(row);
        lemma_source_is_found(all, text::lowercase(text::trim(row)), k);
    }
    assert forall|front: Seq<char>|
        row == #[trigger] (front + DEFAULT_SUFFIX@) && text::trim(front).len() > 0 implies plan_of(
        row,
        all,
        default,
    ) == PlanView::SystemDefault by {
        law_marked_rows_follow_the_default(front, all, default);
    }
}

/// The source of a name is one of them.
proof fn lemma_named_is_one(all: Seq<SourceView>, name: Seq<char>)
    ensures
        source_named(all, name) matches Some(s) ==> exists|k: int|
            0 <= k < all.len() && #[trigger] all[k] == s,
    decreases all.len(),
{
    if all.len() > 0 {
        if all[0].name == name {
            assert(all[0] == source_named(all, name)->0);
        } else {
            lemma_named_is_one(all.skip(1), name);
            if let Some(s) = source_named(all.skip(1), name) {
                let k = choose|k: int| 0 <= k < all.skip(1).len() && #[trigger] all.skip(1)[k] == s;
                assert(all[k + 1] == s);
            }
        }
    }
}

/// A device that throws everything away is none: one of the null driver, and one that
/// says so.
pub proof fn law_null_devices(name: Seq<char>, driver: Option<Seq<char>>)
    ensures
        is_null(name, driver) <==> driver == Some("null"@) || (name.len() >= 19 && name.take(19)
            == "Discard all samples"@),
{
    reveal_strlit("Discard all samples");
    assert("Discard all samples"@.len() == 19);
}

/// The inputs are the devices in their order, each with its handle, its name and its
/// settings, without those that have no name or throw everything away.
pub proof fn law_inputs_are_the_devices(devices: Seq<Device>, d: Device)
    ensures
        inputs_of(Seq::empty()) == Seq::<InputView>::empty(),
        match d.name {
            Some(n) => if is_null(n@, text::opt_text(d.driver)) {
                inputs_of(devices.push(d)) == inputs_of(devices)
            } else {
                &&& inputs_of(devices.push(d)).drop_last() == inputs_of(devices)
                &&& inputs_of(devices.push(d)).len() == inputs_of(devices).len() + 1
                &&& inputs_of(devices.push(d)).last().handle == d.handle
                &&& inputs_of(devices.push(d)).last().name == n@
                &&& inputs_of(devices.push(d)).last().config == d.config
                &&& inputs_of(devices.push(d)).last().id == text::opt_text(d.id)
            },
            None => inputs_of(devices.push(d)) == inputs_of(devices),
        },
{
    assert(devices.push(d).drop_last() == devices);
    if let Some(i) = input_of(d) {
        assert(inputs_of(devices).push(i).drop_last() == inputs_of(devices));
    }
}

/// Every name is listed once, in the order of the first that has it.
pub proof fn law_names_are_listed_once(all: Seq<InputView>, i: InputView)
    ensures
        input_names(Seq::empty()) == Seq::<Seq<char>>::empty(),
        input_names(all).contains(i.name) ==> input_names(all.push(i)) == input_names(all),
        !input_names(all).contains(i.name) ==> input_names(all.push(i)) == input_names(all).push(
            i.name,
        ),
{
    assert(all.push(i).drop_last() == all);
}

/// The default device leads, and the others follow in their order, without it.
pub proof fn law_the_default_leads(d: Device, all: Seq<InputView>)
    requires
        d.name matches Some(n) ==> !is_null(n@, text::opt_text(d.driver)),
    ensures
        ({
            let led = led_by_default(Some(d), all);
            &&& led.len() > 0
            &&& led[0].handle == d.handle && led[0].config == d.config
            &&& d.name matches Some(n) ==> led[0].name == n@
            &&& d.name is None ==> led[0].name == "system default"@
            &&& d.id is None ==> led.skip(1) == all
            &&& d.id matches Some(id) ==> led.skip(1) == all.filter(
                |i: InputView| i.id != Some(id@),
            )
        }),
        led_by_default(None, all) == all,
{
    let i = default_input(d)->0;
    let led = led_by_default(Some(d), all);
    assert(led == seq![i] + without(all, i.id));
    assert(led.skip(1) == without(all, i.id));
    if d.id is None {
        lemma_all_pass(all, |i: InputView| true);
        lemma_same_filter(all, |j: InputView| i.id is None || j.id != i.id, |i: InputView| true);
    } else {
        let id = d.id->0;
        lemma_same_filter(
            all,
            |j: InputView| i.id is None || j.id != i.id,
            |i: InputView| i.id != Some(id@),
        );
    }
}

/// What lets everything pass keeps everything.
proof fn lemma_all_pass(all: Seq<InputView>, f: spec_fn(InputView) -> bool)
    requires
        forall|i: InputView| #[trigger] f(i),
    ensures
        all.filter(f) == all,
    decreases all.len(),
{
    reveal(Seq::filter);
    if all.len() > 0 {
        lemma_all_pass(all.drop_last(), f);
        assert(f(all.last()));
        assert(all.drop_last().push(all.last()) == all);
    }
}

/// Two conditions that agree keep the same.
proof fn lemma_same_filter(
    all: Seq<InputView>,
    f: spec_fn(InputView) -> bool,
    g: spec_fn(InputView) -> bool,
)
    requires
        forall|i: InputView| #[trigger] f(i) == g(i),
    ensures
        all.filter(f) == all.filter(g),
    decreases all.len(),
{
    reveal(Seq::filter);
    if all.len() > 0 {
        lemma_same_filter(all.drop_last(), f, g);
        assert(f(all.last()) == g(all.last()));
    }
}

/// A configured name leads to the first source whose description holds it, in any
/// letter case: to the default device where that source is the default or has no card,
/// else to its card. A name that no description holds is left to the devices.
pub proof fn law_names_lead_to_sources(
    mic: Seq<char>,
    a: Seq<SourceView>,
    s: SourceView,
    b: Seq<SourceView>,
    default: Option<Seq<char>>,
)
    requires
        ({
            let needle = text::lowercase(text::trim(mic));
            &&& needle.len() > 0
            &&& !text::ends(needle, " (system default)"@)
            &&& forall|i: int|
                0 <= i < a.len() ==> !text::has(text::lowercase((#[trigger] a[i]).description), needle)
        }),
    ensures
        ({
            let needle = text::lowercase(text::trim(mic));
            &&& text::has(text::lowercase(s.description), needle) ==> plan_of(
                mic,
                a.push(s) + b,
                default,
            ) == if Some(s.name) == default {
                PlanView::SystemDefault
            } else if let Some(card) = s.card_name {
                PlanView::Card(card)
            } else {
                PlanView::SystemDefault
            }
            &&& plan_of(mic, a, default) == PlanView::Legacy
        }),
{
    reveal_strlit(" (system default)");
    let needle = text::lowercase(text::trim(mic));
    assert(text::lowercase(DEFAULT_SUFFIX@) =~= " (system default)"@);
    lemma_first_like(a, s, b, needle);
}

/// The first source whose description holds the text is found.
proof fn lemma_first_like(a: Seq<SourceView>, s: SourceView, b: Seq<SourceView>, needle: Seq<char>)
    requires
        forall|i: int|
            0 <= i < a.len() ==> !text::has(text::lowercase((#[trigger] a[i]).description), needle),
    ensures
        text::has(text::lowercase(s.description), needle) ==> source_like(a.push(s) + b, needle)
            == Some(s),
        source_like(a, needle) is None,
    decreases a.len(),
{
    let all = a.push(s) + b;
    if a.len() > 0 {
        assert(all[0] == a[0]);
        assert(all.skip(1) == a.skip(1).push(s) + b);
        assert forall|i: int| 0 <= i < a.skip(1).len() implies !text::has(
            text::lowercase((#[trigger] a.skip(1)[i]).description),
            needle,
        ) by {
            assert(a.skip(1)[i] == a[i + 1]);
        }
        lemma_first_like(a.skip(1), s, b, needle);
    } else {
        assert(all[0] == s);
    }
}

/// A blank name, and none, follow the default device.
pub proof fn law_blank_names_follow_the_default(
    mic: Seq<char>,
    all: Seq<SourceView>,
    default: Option<Seq<char>>,
)
    requires
        text::trim(mic).len() == 0,
    ensures
        plan_of(mic, all, default) == PlanView::SystemDefault,
{
    assert(text::lowercase(text::trim(mic)).len() == 0);
}

/// What is a source: what has a name and a description and is no monitor; its card is
/// the one that ALSA names, by its long name where it has no other.
pub proof fn law_what_is_a_source(
    o: Seq<(Seq<char>, json::FieldView)>,
    props: Seq<(Seq<char>, json::FieldView)>,
)
    ensures
        source_of(o, props) is Some <==> json::string(o, "name"@) is Some && json::string(
            o,
            "description"@,
        ) is Some && !text::ends(json::string(o, "name"@)->0, ".monitor"@) && json::string(
            props,
            "device.class"@,
        ) != Some("monitor"@),
        source_of(o, props) matches Some(s) ==> {
            &&& json::string(o, "name"@) == Some(s.name)
            &&& json::string(o, "description"@) == Some(s.description)
            &&& json::has_key(props, "alsa.card_name"@) ==> s.card_name == json::string(
                props,
                "alsa.card_name"@,
            )
            &&& !json::has_key(props, "alsa.card_name"@) ==> s.card_name == json::string(
                props,
                "alsa.long_card_name"@,
            )
        },
{
}

/// The rows that are offered: the default source first, with its mark, and then every
/// other description once, in the order of the sources.
pub proof fn law_what_rows_are_offered(
    all: Seq<SourceView>,
    s: SourceView,
    default: Option<Seq<char>>,
)
    ensures
        rows(Seq::empty(), default) == Seq::<Seq<char>>::empty(),
        rows(all.push(s), None) == if rows(all, None).contains(s.description) {
            rows(all, None)
        } else {
            rows(all, None).push(s.description)
        },
        default == Some(s.name) && (forall|i: int|
            0 <= i < all.len() ==> (#[trigger] all[i]).name != s.name) ==> rows(all.push(s), default)[0]
            == s.description + " (system default)"@,
{
    assert(all.push(s).drop_last() == all);
    let e = Seq::<Seq<char>>::empty();
    if default == Some(s.name) && (forall|i: int|
        0 <= i < all.len() ==> (#[trigger] all[i]).name != s.name) {
        lemma_last_is_named(all, s);
        lemma_lead_stays(seq![s.description + DEFAULT_SUFFIX@], all.push(s), default);
    }
}

/// A source that comes last is found where no other has its name.
proof fn lemma_last_is_named(all: Seq<SourceView>, s: SourceView)
    requires
        forall|i: int| 0 <= i < all.len() ==> (#[trigger] all[i]).name != s.name,
    ensures
        source_named(all.push(s), s.name) == Some(s),
    decreases all.len(),
{
    let v = all.push(s);
    if all.len() > 0 {
        assert(v[0] == all[0]);
        assert(v.skip(1) == all.skip(1).push(s));
        assert forall|i: int| 0 <= i < all.skip(1).len() implies (#[trigger] all.skip(1)[i]).name
            != s.name by {
            assert(all.skip(1)[i] == all[i + 1]);
        }
        lemma_last_is_named(all.skip(1), s);
    }
}

/// What leads the rows stays in front.
proof fn lemma_lead_stays(names: Seq<Seq<char>>, all: Seq<SourceView>, default: Option<Seq<char>>)
    requires
        names.len() > 0,
    ensures
        with_descriptions(names, all, default).len() > 0,
        with_descriptions(names, all, default)[0] == names[0],
    decreases all.len(),
{
    if all.len() > 0 {
        lemma_lead_stays(names, all.drop_last(), default);
    }
}

/// The names of the sample formats.
pub proof fn law_format_names()
    ensures
        label_of(Format::F32) == "f32"@,
        label_of(Format::I16) == "i16"@,
        label_of(Format::I32) == "i32"@,
        label_of(Format::U16) == "u16"@,
        label_of(Format::Other) == "?"@,
{
}

/// The sources are those of the entries of the listing, in order: an entry that is none
/// makes no difference, and what is no listing has no sources.
pub proof fn law_listings_are_read_entry_by_entry(
    listing: Seq<char>,
    entries: Seq<Seq<char>>,
    entry: Seq<char>,
    o: Seq<(Seq<char>, json::FieldView)>,
    inner: Seq<char>,
    p: Seq<(Seq<char>, json::FieldView)>,
)
    requires
        json::object_of(vstd::utf8::encode_utf8(entry)) == Ok::<
            Seq<(Seq<char>, json::FieldView)>,
            Seq<char>,
        >(o),
        json::lookup(o, "properties"@) == json::FieldView::Object(inner),
        json::object_of(vstd::utf8::encode_utf8(inner)) == Ok::<
            Seq<(Seq<char>, json::FieldView)>,
            Seq<char>,
        >(p),
    ensures
        sources_of(Seq::empty()) == Seq::<SourceView>::empty(),
        sources_of(entries.push(entry)) == match source_of(o, p) {
            Some(s) => sources_of(entries).push(s),
            None => sources_of(entries),
        },
        match json::json_of(vstd::utf8::encode_utf8(listing)) {
            Ok(json::ShapeView::List(all)) => listed_sources(listing) == Some(sources_of(all)),
            _ => listed_sources(listing) is None,
        },
{
    assert(entries.push(entry).drop_last() == entries);
}

} // verus!
