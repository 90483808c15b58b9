//! The log of takes: one file of records and one of prose for each day, in the
//! vault, or in a fallback where the vault cannot be written to.

use crate::app_scope;
use crate::text;
use std::hash::Hasher;
use vstd::prelude::*;

verus! {

/// How many takes the panel shows.
pub const SHOWN_ENTRIES: usize = 200;

/// Where a number of seconds lies between two whole ones.
#[derive(Clone, Copy, PartialEq, Eq, Structural, Debug)]
pub enum Fraction {
    BelowHalf,
    Half,
    AboveHalf,
}

/// The length of a take: the whole seconds below it, and what is left.
#[derive(Clone, Copy, PartialEq, Eq, Structural, Debug)]
pub struct Seconds {
    pub whole: i64,
    pub rest: Fraction,
}

/// A take in the log.
#[derive(Debug, PartialEq, Eq)]
pub struct Rec {
    /// When it ended, as `YYYY-MM-DDTHH:MM:SS`.
    pub ts: String,
    /// As it was heard.
    pub text: String,
    /// As it was copied.
    pub clean: String,
    pub mic: String,
    pub model: String,
    pub device: String,
    pub secs: Seconds,
}

/// Where takes are logged: in the vault where it could be written to, else in
/// the fallback, which had to be made: it was, or why not.
pub fn log_dir(
    vault: &str,
    vault_writable: bool,
    fallback: &str,
    fallback_made: &Result<(), String>,
) -> (r: Result<(String, bool), String>)
    ensures
        if vault_writable {
            r matches Ok((dir, is_vault)) && dir@ == vault@ && is_vault
        } else {
            match fallback_made {
                Ok(()) => r matches Ok((dir, is_vault)) && dir@ == fallback@ && !is_vault,
                Err(e) => r matches Err(why) && why@ == e@,
            }
        },
{
    if vault_writable {
        return Ok((vault.to_string(), true));
    }
    match fallback_made {
        Ok(()) => Ok((fallback.to_string(), false)),
        Err(e) => Err(e.clone()),
    }
}

// ---- days and times ---------------------------------------------------------

/// A moment of a calendar day.
#[derive(Clone, Copy, PartialEq, Eq, Structural, Debug)]
pub struct Moment {
    pub year: u32,
    pub month: u32,
    pub day: u32,
    pub hour: u32,
    pub minute: u32,
    pub second: u32,
}

/// How many days the month has.
pub open spec fn days_in(year: int, month: int) -> int {
    if month == 2 {
        if year % 4 == 0 && (year % 100 != 0 || year % 400 == 0) {
            29
        } else {
            28
        }
    } else if month == 4 || month == 6 || month == 9 || month == 11 {
        30
    } else {
        31
    }
}

impl Moment {
    /// A moment that the calendar has, in a year of at most four digits.
    pub open spec fn wf(self) -> bool {
        &&& self.year <= 9999
        &&& 1 <= self.month <= 12
        &&& 1 <= self.day <= days_in(self.year as int, self.month as int)
        &&& self.hour < 24
        &&& self.minute < 60
        &&& self.second < 60
    }
}

/// `n` in at least two digits.
pub open spec fn two(n: nat) -> Seq<char> {
    if n < 10 {
        "0"@ + text::decimal(n)
    } else {
        text::decimal(n)
    }
}

/// `n` in at least four digits.
pub open spec fn four(n: nat) -> Seq<char> {
    if n < 10 {
        "000"@ + text::decimal(n)
    } else if n < 100 {
        "00"@ + text::decimal(n)
    } else if n < 1000 {
        "0"@ + text::decimal(n)
    } else {
        text::decimal(n)
    }
}

/// The day, as `YYYY-MM-DD`.
pub open spec fn day_of(m: Moment) -> Seq<char> {
    four(m.year as nat) + "-"@ + two(m.month as nat) + "-"@ + two(m.day as nat)
}

/// The time of day, as `HH:MM`.
pub open spec fn clock_of(m: Moment) -> Seq<char> {
    two(m.hour as nat) + ":"@ + two(m.minute as nat)
}

/// The day and the time, as `YYYY-MM-DDTHH:MM:SS`.
pub open spec fn stamp_of(m: Moment) -> Seq<char> {
    day_of(m) + "T"@ + clock_of(m) + ":"@ + two(m.second as nat)
}

/// Append `n` in at least two digits.
fn push_two(out: &mut Vec<char>, n: u64)
    ensures
        final(out)@ == old(out)@ + two(n as nat),
{
    if n < 10 {
        text::extend_str(out, "0");
    }
    let d = text::decimal_of(n);
    text::extend(out, d.as_slice());
    assert(out@ == old(out)@ + two(n as nat));
}

/// Append `n` in at least four digits.
fn push_four(out: &mut Vec<char>, n: u64)
    ensures
        final(out)@ == old(out)@ + four(n as nat),
{
    if n < 10 {
        text::extend_str(out, "000");
    } else if n < 100 {
        text::extend_str(out, "00");
    } else if n < 1000 {
        text::extend_str(out, "0");
    }
    let d = text::decimal_of(n);
    text::extend(out, d.as_slice());
    assert(out@ == old(out)@ + four(n as nat));
}

impl Moment {
    /// The day, as `YYYY-MM-DD`: it names the files of the day.
    pub fn day_text(&self) -> (r: String)
        ensures
            r@ == day_of(*self),
    {
        let mut out: Vec<char> = Vec::new();
        push_four(&mut out, self.year as u64);
        text::extend_str(&mut out, "-");
        push_two(&mut out, self.month as u64);
        text::extend_str(&mut out, "-");
        push_two(&mut out, self.day as u64);
        assert(out@ == day_of(*self));
        text::string_of(out.as_slice())
    }

    /// The time of day, as `HH:MM`: it stands in front of a line of prose.
    pub fn clock_text(&self) -> (r: String)
        ensures
            r@ == clock_of(*self),
    {
        let mut out: Vec<char> = Vec::new();
        push_two(&mut out, self.hour as u64);
        text::extend_str(&mut out, ":");
        push_two(&mut out, self.minute as u64);
        assert(out@ == clock_of(*self));
        text::string_of(out.as_slice())
    }

    /// The day and the time, as `YYYY-MM-DDTHH:MM:SS`: the stamp of a record.
    pub fn stamp(&self) -> (r: String)
        ensures
            r@ == stamp_of(*self),
    {
        let day = self.day_text();
        let clock = self.clock_text();
        let mut out = text::chars_of(day.as_str());
        text::extend_str(&mut out, "T");
        text::extend_str(&mut out, clock.as_str());
        text::extend_str(&mut out, ":");
        push_two(&mut out, self.second as u64);
        assert(out@ == stamp_of(*self));
        text::string_of(out.as_slice())
    }
}

// ---- writing ----------------------------------------------------------------

/// What the prose of a day opens with.
pub open spec fn header_of(day: Seq<char>) -> Seq<char> {
    "# Tiro — "@ + day
        + "\n\nVerbatim dictation capture (raw layer; the refine-transcript pipeline cleans this later). One line per utterance.\n\n"@
}

/// What the prose of a day opens with.
pub fn markdown_header(day: &str) -> (r: String)
    ensures
        r@ == header_of(day@),
{
    let mut out = text::chars_of("# Tiro — ");
    text::extend_str(&mut out, day);
    text::extend_str(
        &mut out,
        "\n\nVerbatim dictation capture (raw layer; the refine-transcript pipeline cleans this later). One line per utterance.\n\n",
    );
    text::string_of(out.as_slice())
}

/// What a take adds to the prose of its day.
pub open spec fn prose_of(
    fresh: bool,
    day: Seq<char>,
    clock: Seq<char>,
    verbatim: Seq<char>,
) -> Seq<char> {
    let line = "- **"@ + clock + "** — "@ + verbatim + "\n"@;
    if fresh {
        header_of(day) + line
    } else {
        line
    }
}

/// What a take adds to the prose of its day: a line with the time and the take
/// as it was heard, behind the opening where the file is a fresh one.
pub fn markdown_entry(fresh: bool, day: &str, clock: &str, verbatim: &str) -> (r: String)
    ensures
        r@ == prose_of(fresh, day@, clock@, verbatim@),
{
    let mut out: Vec<char> = Vec::new();
    if fresh {
        let header = markdown_header(day);
        text::extend_str(&mut out, header.as_str());
    }
    let ghost head = out@;
    text::extend_str(&mut out, "- **");
    text::extend_str(&mut out, clock);
    text::extend_str(&mut out, "** — ");
    text::extend_str(&mut out, verbatim);
    text::extend_str(&mut out, "\n");
    proof {
        let line = "- **"@ + clock@ + "** — "@ + verbatim@ + "\n"@;
        assert(out@ == head + line);
    }
    text::string_of(out.as_slice())
}

/// The names of the two files of a day: of the records and of the prose.
pub fn log_files(day: &str) -> (r: (String, String))
    ensures
        r.0@ == day@ + ".jsonl"@,
        r.1@ == day@ + ".md"@,
{
    let mut records = text::chars_of(day);
    text::extend_str(&mut records, ".jsonl");
    let mut prose = text::chars_of(day);
    text::extend_str(&mut prose, ".md");
    (text::string_of(records.as_slice()), text::string_of(prose.as_slice()))
}

/// What is to be written of a take, and where.
#[derive(Debug, PartialEq, Eq)]
pub struct Logged {
    /// Whether it goes to the vault.
    pub in_vault: bool,
    pub rec: Rec,
    /// The file to which the record is to be added as one line.
    pub records: String,
    /// The file to which the prose is to be added, once the record is.
    pub prose: String,
}

/// What is to be written of a take that ended at `now`, in the directory that
/// takes are logged in. Its text is the take as it was heard.
pub fn write_log(
    dir: &Result<(String, bool), String>,
    verbatim: &str,
    clean: &str,
    mic: &str,
    model: &str,
    device: &str,
    secs: Seconds,
    now: &Moment,
) -> (r: Result<Logged, String>)
    ensures
        match dir {
            Ok(d) => r matches Ok(l) && {
                &&& l.in_vault == d.1
                &&& l.records@ == app_scope::path_join(d.0@, day_of(*now) + ".jsonl"@)
                &&& l.prose@ == app_scope::path_join(d.0@, day_of(*now) + ".md"@)
                &&& l.rec.ts@ == stamp_of(*now)
                &&& l.rec.text@ == verbatim@
                &&& l.rec.clean@ == clean@
                &&& l.rec.mic@ == mic@
                &&& l.rec.model@ == model@
                &&& l.rec.device@ == device@
                &&& l.rec.secs == secs
            },
            Err(e) => r matches Err(why) && why@ == e@,
        },
{
    match dir {
        Ok(d) => {
            let day = now.day_text();
            let (records, prose) = log_files(day.as_str());
            let rec = Rec {
                ts: now.stamp(),
                text: verbatim.to_string(),
                clean: clean.to_string(),
                mic: mic.to_string(),
                model: model.to_string(),
                device: device.to_string(),
                secs,
            };
            Ok(
                Logged {
                    in_vault: d.1,
                    rec,
                    records: app_scope::join_path(d.0.as_str(), records.as_str()),
                    prose: app_scope::join_path(d.0.as_str(), prose.as_str()),
                },
            )
        },
        Err(e) => Err(e.clone()),
    }
}

// ---- reading back -----------------------------------------------------------

/// The last `limit` of `all`, the last one first.
pub open spec fn newest<T>(all: Seq<T>, limit: int) -> Seq<T> {
    Seq::new(
        if all.len() <= limit {
            all.len()
        } else {
            limit as nat
        },
        |i: int| all[all.len() - 1 - i],
    )
}

/// The last `limit` of `all`, the last one first.
pub fn newest_first<T>(all: Vec<T>, limit: usize) -> (r: Vec<T>)
    ensures
        r@ == newest(all@, limit as int),
{
    let mut all = all;
    let ghost start = all@;
    let mut r: Vec<T> = Vec::new();
    while r.len() < limit && all.len() > 0
        invariant
            r@.len() <= limit,
            r@.len() + all@.len() == start.len(),
            all@ == start.take(all@.len() as int),
            forall|i: int| 0 <= i < r@.len() ==> #[trigger] r@[i] == start[start.len() - 1 - i],
        decreases all@.len(),
    {
        let ghost n = all@.len();
        let item = all.pop();
        match item {
            Some(t) => {
                assert(all@ == start.take(all@.len() as int));
                r.push(t);
            },
            None => {},
        }
    }
    assert(r@ == newest(start, limit as int));
    r
}

/// Whether `answer` may be what `parse` makes of the text `line`.
pub open spec fn parses_to<T, F: Fn(&str) -> Option<T>>(
    parse: F,
    line: Seq<char>,
    answer: Option<T>,
) -> bool {
    exists|l: &str| l@ == line && #[trigger] parse.ensures((l,), answer)
}

/// Whether `all` may be what `parse` makes of the lines: of each that is not
/// blank one item, where it makes out one.
pub open spec fn is_parsed<T, F: Fn(&str) -> Option<T>>(
    parse: F,
    lines: Seq<Seq<char>>,
    all: Seq<T>,
) -> bool
    decreases lines.len(),
{
    if lines.len() == 0 {
        all.len() == 0
    } else {
        let line = lines.last();
        let before = lines.drop_last();
        ||| (text::trim(line).len() == 0 || parses_to(parse, line, None)) && is_parsed(
            parse,
            before,
            all,
        )
        ||| text::trim(line).len() > 0 && all.len() > 0 && parses_to(parse, line, Some(all.last()))
            && is_parsed(parse, before, all.drop_last())
    }
}

/// The takes that were logged today, the newest first, not more than `limit`,
/// from the contents of the file of records; none where there is no such file.
/// Lines of which `parse` makes out nothing are skipped.
pub fn read_today_entries<T, F: Fn(&str) -> Option<T>>(
    raw: Option<&str>,
    limit: usize,
    parse: F,
) -> (r: Vec<T>)
    requires
        forall|l: &str| parse.requires((l,)),
    ensures
        match raw {
            Some(raw) => exists|all: Seq<T>| #[trigger]
                is_parsed(parse, text::lines(raw@), all) && r@ == newest(all, limit as int),
            None => r@.len() == 0,
        },
{
    let raw = match raw {
        Some(raw) => raw,
        None => {
            return Vec::new();
        },
    };
    let c = text::chars_of(raw);
    let lines = text::lines_of(c.as_slice());
    let ghost every = text::lines(raw@);
    let mut all: Vec<T> = Vec::new();
    assert(is_parsed(parse, every.take(0), all@));
    for i in 0..lines.len()
        invariant
            forall|l: &str| parse.requires((l,)),
            every == text::pieces(lines@),
            is_parsed(parse, every.take(i as int), all@),
    {
        assert(every.take(i + 1).drop_last() == every.take(i as int));
        assert(every.take(i + 1).last() == lines@[i as int]@);
        let l = lines[i].as_slice();
        if text::trimmed(l).len() > 0 {
            let line = text::string_of(l);
            match parse(line.as_str()) {
                Some(t) => {
                    assert(parses_to(parse, lines@[i as int]@, Some(t)));
                    let ghost was = all@;
                    all.push(t);
                    assert(all@.drop_last() == was);
                },
                None => {
                    assert(parses_to(parse, lines@[i as int]@, None::<T>));
                },
            }
        }
    }
    assert(every.take(every.len() as int) == every);
    newest_first(all, limit)
}

// ---- an entry of the panel --------------------------------------------------

/// The form of the stamp of a record.
pub const STAMP: &'static str = "%Y-%m-%dT%H:%M:%S";

/// The hour and the minute that a time of the given form tells; nothing where
/// the text does not have that form.
pub uninterp spec fn time_of(ts: Seq<char>, form: Seq<char>) -> Option<(u32, u32)>;

/// `chrono::NaiveDateTime::parse_from_str`, with the hour and the minute of what
/// it gives: a function of the text and the form, with an hour below 24 and a
/// minute below 60. A stamp of a moment that the calendar has tells the hour and
/// the minute of that moment.
#[verifier::external_body]
fn parse_time(ts: &str, form: &str) -> (r: Option<(u32, u32)>)
    ensures
        r == time_of(ts@, form@),
        r matches Some((h, m)) ==> h < 24 && m < 60,
        forall|at: Moment|
            at.wf() && ts@ == #[trigger] stamp_of(at) && form@ == STAMP@ ==> r == Some(
                (at.hour, at.minute),
            ),
{
    match chrono::NaiveDateTime::parse_from_str(ts, form) {
        Ok(t) => Some((chrono::Timelike::hour(&t), chrono::Timelike::minute(&t))),
        Err(_) => None,
    }
}

/// The time on a clock of twelve hours, such as `3:42 PM`.
pub open spec fn twelve_hours(hour: int, minute: int) -> Seq<char> {
    text::decimal(
        if hour % 12 == 0 {
            12
        } else {
            (hour % 12) as nat
        },
    ) + ":"@ + two(minute as nat) + " "@ + if hour < 12 {
        "AM"@
    } else {
        "PM"@
    }
}

/// The time on a clock of twelve hours, such as `3:42 PM`.
pub fn clock(hour: u32, minute: u32) -> (r: String)
    ensures
        r@ == twelve_hours(hour as int, minute as int),
{
    let h: u32 = if hour % 12 == 0 {
        12
    } else {
        hour % 12
    };
    let mut out = text::decimal_of(h as u64);
    text::extend_str(&mut out, ":");
    push_two(&mut out, minute as u64);
    text::extend_str(&mut out, " ");
    if hour < 12 {
        text::extend_str(&mut out, "AM");
    } else {
        text::extend_str(&mut out, "PM");
    }
    assert(out@ == twelve_hours(hour as int, minute as int));
    text::string_of(out.as_slice())
}

/// The hour and the minute of a stamp, or `now` where it is not one.
pub open spec fn time_or(ts: Seq<char>, now: (u32, u32)) -> (u32, u32) {
    match time_of(ts, STAMP@) {
        Some(t) => t,
        None => now,
    }
}

/// The time of a stamp on a clock of twelve hours; `now`, an hour and a minute,
/// where it is not a stamp. A take that was logged shows the time at which it was.
pub fn fmt_clock(ts: &str, now: (u32, u32)) -> (r: String)
    ensures
        r@ == twelve_hours(time_or(ts@, now).0 as int, time_or(ts@, now).1 as int),
        forall|at: Moment|
            at.wf() && ts@ == #[trigger] stamp_of(at) ==> r@ == twelve_hours(
                at.hour as int,
                at.minute as int,
            ),
{
    match parse_time(ts, STAMP) {
        Some((hour, minute)) => clock(hour, minute),
        None => clock(now.0, now.1),
    }
}

/// The nearest whole number of seconds, the even one of two that are equally
/// near; not below zero, nor above what 64 bits hold.
pub open spec fn rounded(secs: Seconds) -> int {
    let up = match secs.rest {
        Fraction::BelowHalf => false,
        Fraction::Half => secs.whole % 2 != 0,
        Fraction::AboveHalf => true,
    };
    let nearest = if up && secs.whole < i64::MAX {
        secs.whole + 1
    } else {
        secs.whole as int
    };
    if nearest < 0 {
        0
    } else {
        nearest
    }
}

/// The length of a take, as minutes and seconds.
pub open spec fn minutes(secs: Seconds) -> Seq<char> {
    text::decimal((rounded(secs) / 60) as nat) + ":"@ + two((rounded(secs) % 60) as nat)
}

/// The length of a take, as minutes and seconds, such as `0:08`.
pub fn fmt_dur(secs: Seconds) -> (r: String)
    ensures
        r@ == minutes(secs),
{
    let whole: u64 = if secs.whole < 0 {
        0
    } else {
        secs.whole as u64
    };
    let up = match secs.rest {
        Fraction::BelowHalf => false,
        Fraction::Half => whole % 2 != 0,
        Fraction::AboveHalf => true,
    };
    let s: u64 = if up && 0 <= secs.whole && secs.whole < i64::MAX {
        whole + 1
    } else {
        whole
    };
    assert(s == rounded(secs));
    let mut out = text::decimal_of(s / 60);
    text::extend_str(&mut out, ":");
    push_two(&mut out, s % 60);
    assert(out@ == minutes(secs));
    text::string_of(out.as_slice())
}

/// The number of a text, as the standard hasher gives it: the bytes of the text
/// and one byte that no text holds.
pub open spec fn hash_of(s: Seq<char>) -> u64 {
    <std::hash::DefaultHasher as vstd::std_specs::hash::DefaultHasherAdditionalSpecFns>::spec_finish(
        seq![vstd::utf8::encode_utf8(s), seq![0xffu8]],
    )
}

/// The number of a text, as the standard hasher gives it.
fn text_hash(s: &str) -> (r: u64)
    ensures
        r == hash_of(s@),
{
    let mut hasher = std::hash::DefaultHasher::new();
    hasher.write(s.as_bytes());
    let end: Vec<u8> = vec![0xffu8];
    hasher.write(end.as_slice());
    assert(end@ == seq![0xffu8]);
    assert(hasher@ == seq![vstd::utf8::encode_utf8(s@), seq![0xffu8]]);
    hasher.finish()
}

/// A take as the panel shows it.
#[derive(Debug, PartialEq, Eq)]
pub struct Entry {
    pub id: String,
    pub clock: String,
    pub dur: String,
    pub text: String,
    pub device: String,
    pub model: String,
    pub mic: String,
}

/// `a`, or `b` where `a` is empty.
pub open spec fn or_else(a: Seq<char>, b: Seq<char>) -> Seq<char> {
    if a.len() == 0 {
        b
    } else {
        a
    }
}

/// `a`, or `b` where `a` is empty.
fn pick(a: &str, b: &str) -> (r: String)
    ensures
        r@ == or_else(a@, b@),
{
    if text::chars_of(a).len() == 0 {
        b.to_string()
    } else {
        a.to_string()
    }
}

/// What is shown of a take: its text as it was copied, or as it was heard where
/// nothing was copied.
pub open spec fn shown(rec: Rec) -> Seq<char> {
    or_else(rec.clean@, rec.text@)
}

/// A take as the panel shows it. `model` and `mic` are the configured ones, for
/// a record that names none; `now` is the time for one that has no stamp.
pub fn entry_from_rec(rec: &Rec, model: &str, mic: &str, now: (u32, u32)) -> (r: Entry)
    ensures
        r.id@ == rec.ts@ + "|"@ + text::decimal((hash_of(shown(*rec)) % 100_000) as nat),
        r.clock@ == twelve_hours(time_or(rec.ts@, now).0 as int, time_or(rec.ts@, now).1 as int),
        forall|at: Moment|
            at.wf() && rec.ts@ == #[trigger] stamp_of(at) ==> r.clock@ == twelve_hours(
                at.hour as int,
                at.minute as int,
            ),
        r.dur@ == minutes(rec.secs),
        r.text@ == shown(*rec),
        r.device@ == if text::lowercase(rec.device@) == "cuda"@ || text::lowercase(rec.device@)
            == "gpu"@ {
            "GPU"@
        } else {
            "CPU"@
        },
        r.model@ == or_else(rec.model@, model@),
        r.mic@ == or_else(rec.mic@, mic@),
{
    let text = pick(rec.clean.as_str(), rec.text.as_str());
    let mut id = text::chars_of(rec.ts.as_str());
    text::extend_str(&mut id, "|");
    let n = text::decimal_of(text_hash(text.as_str()) % 100_000);
    text::extend(&mut id, n.as_slice());
    let lower = text::to_lowercase(rec.device.as_str());
    let on_gpu = text::str_eq(lower.as_str(), "cuda") || text::str_eq(lower.as_str(), "gpu");
    Entry {
        id: text::string_of(id.as_slice()),
        clock: fmt_clock(rec.ts.as_str(), now),
        dur: fmt_dur(rec.secs),
        text,
        device: if on_gpu {
            "GPU".to_string()
        } else {
            "CPU".to_string()
        },
        model: pick(rec.model.as_str(), model),
        mic: pick(rec.mic.as_str(), mic),
    }
}

// ---- laws -------------------------------------------------------------------

/// The panel shows at most as many takes as it has room for, the newest first:
/// of two that it shows, the one further up was logged later, and none that it
/// leaves out was logged after one that it shows.
pub proof fn law_newest_come_first<T>(all: Seq<T>, limit: nat)
    ensures
        newest(all, limit as int).len() == if all.len() <= limit {
            all.len()
        } else {
            limit
        },
        newest(all, limit as int).reverse() == all.skip(
            all.len() - newest(all, limit as int).len(),
        ),
{
    assert(newest(all, limit as int).reverse() =~= all.skip(
        all.len() - newest(all, limit as int).len(),
    ));
}

/// Numbers of two and of four digits: they have so many digits, and are the number.
pub proof fn law_padded_numbers(n: nat)
    ensures
        n < 100 ==> two(n).len() == 2 && text::all_digits(two(n)) && text::value(two(n)) == n,
        n < 10_000 ==> four(n).len() == 4 && text::all_digits(four(n)) && text::value(four(n)) == n,
{
    reveal_strlit("0");
    reveal_strlit("00");
    reveal_strlit("000");
    text::lemma_decimal_value(n);
    let d = text::decimal(n);
    reveal_with_fuel(text::decimal, 5);
    reveal_with_fuel(text::value, 6);
    if n < 10 {
        assert(d.len() == 1);
        assert("0"@ + d == seq!['0', d[0]]);
        assert(seq!['0', d[0]].drop_last() == seq!['0']);
        assert(seq!['0'].drop_last() == Seq::<char>::empty());
        assert(d.drop_last() == Seq::<char>::empty());
        assert("000"@ + d == seq!['0', '0', '0', d[0]]);
        assert(seq!['0', '0', '0', d[0]].drop_last() == seq!['0', '0', '0']);
        assert(seq!['0', '0', '0'].drop_last() == seq!['0', '0']);
        assert(seq!['0', '0'].drop_last() == seq!['0']);
        assert(text::is_digit(d[0]));
    } else if n < 100 {
        assert(d.len() == 2);
        lemma_zeros_in_front("00"@, d);
    } else if n < 1000 {
        assert(d.len() == 3);
        lemma_zeros_in_front("0"@, d);
    } else if n < 10_000 {
        assert(d.len() == 4);
    }
}

/// Noughts in front make no difference to a number.
proof fn lemma_zeros_in_front(z: Seq<char>, d: Seq<char>)
    requires
        forall|i: int| 0 <= i < z.len() ==> #[trigger] z[i] == '0',
        text::all_digits(d),
    ensures
        text::all_digits(z + d),
        text::value(z + d) == text::value(d),
    decreases d.len(),
{
    assert forall|i: int| 0 <= i < (z + d).len() implies text::is_digit(#[trigger] (z + d)[i]) by {
        if i >= z.len() {
            assert((z + d)[i] == d[i - z.len()]);
        }
    }
    let front = d.drop_last();
    assert((z + d).drop_last() == z + front);
    assert((z + d).last() == d.last());
    if front.len() == 0 {
        assert(z + front == z);
        lemma_zeros_are_nought(z);
        assert(text::value(front) == 0);
    } else {
        assert forall|i: int| 0 <= i < front.len() implies text::is_digit(#[trigger] front[i]) by {
            assert(front[i] == d[i]);
        }
        lemma_zeros_in_front(z, front);
    }
}

/// Noughts are nought.
proof fn lemma_zeros_are_nought(z: Seq<char>)
    requires
        forall|i: int| 0 <= i < z.len() ==> #[trigger] z[i] == '0',
    ensures
        text::value(z) == 0,
    decreases z.len(),
{
    if z.len() > 0 {
        assert(z.last() == '0');
        lemma_zeros_are_nought(z.drop_last());
    }
}

/// A stamp is the day, a T and the time of the day to the second, each number at its
/// place; the day and the clock of a take are parts of it.
pub proof fn law_stamps(m: Moment)
    requires
        m.wf(),
    ensures
        ({
            let s = stamp_of(m);
            &&& s.len() == 19
            &&& s[4] == '-' && s[7] == '-' && s[10] == 'T' && s[13] == ':' && s[16] == ':'
            &&& text::value(s.subrange(0, 4)) == m.year
            &&& text::value(s.subrange(5, 7)) == m.month
            &&& text::value(s.subrange(8, 10)) == m.day
            &&& text::value(s.subrange(11, 13)) == m.hour
            &&& text::value(s.subrange(14, 16)) == m.minute
            &&& text::value(s.subrange(17, 19)) == m.second
            &&& day_of(m) == s.subrange(0, 10)
            &&& clock_of(m) == s.subrange(11, 16)
        }),
{
    reveal_strlit("-");
    reveal_strlit("T");
    reveal_strlit(":");
    law_padded_numbers(m.year as nat);
    law_padded_numbers(m.month as nat);
    law_padded_numbers(m.day as nat);
    law_padded_numbers(m.hour as nat);
    law_padded_numbers(m.minute as nat);
    law_padded_numbers(m.second as nat);
    let s = stamp_of(m);
    assert(s.subrange(0, 4) == four(m.year as nat));
    assert(s.subrange(5, 7) == two(m.month as nat));
    assert(s.subrange(8, 10) == two(m.day as nat));
    assert(s.subrange(11, 13) == two(m.hour as nat));
    assert(s.subrange(14, 16) == two(m.minute as nat));
    assert(s.subrange(17, 19) == two(m.second as nat));
    assert(s.subrange(0, 10) == day_of(m));
    assert(s.subrange(11, 16) == clock_of(m));
}

/// The clock of twelve hours: noon and midnight are twelve, the hours before noon are
/// AM and the others PM.
pub proof fn law_clocks_have_twelve_hours(hour: int, pm: bool, minute: int)
    requires
        1 <= hour <= 12,
        0 <= minute < 60,
    ensures
        twelve_hours(
            hour % 12 + if pm {
                12int
            } else {
                0
            },
            minute,
        ) == text::decimal(hour as nat) + seq![':'] + two(minute as nat) + if pm {
            seq![' ', 'P', 'M']
        } else {
            seq![' ', 'A', 'M']
        },
{
    reveal_strlit(":");
    reveal_strlit(" ");
    reveal_strlit("AM");
    reveal_strlit("PM");
    assert(":"@ == seq![':']);
    let head = text::decimal(hour as nat) + ":"@ + two(minute as nat);
    assert(head + " "@ + "AM"@ == head + seq![' ', 'A', 'M']);
    assert(head + " "@ + "PM"@ == head + seq![' ', 'P', 'M']);
}

/// A length is shown in the nearest whole seconds, between two in the even ones and
/// never below nought: the minutes, a colon and the seconds that are left.
pub proof fn law_lengths_are_the_nearest(secs: Seconds, m: nat, s: nat)
    requires
        0 <= secs.whole < i64::MAX,
    ensures
        secs.rest is BelowHalf ==> rounded(secs) == secs.whole,
        secs.rest is AboveHalf ==> rounded(secs) == secs.whole + 1,
        secs.rest is Half ==> rounded(secs) % 2 == 0 && (rounded(secs) == secs.whole || rounded(secs)
            == secs.whole + 1),
        s < 60 && rounded(secs) == 60 * m + s ==> minutes(secs) == text::decimal(m) + seq![':'] + two(
            s,
        ),
{
    reveal_strlit(":");
    assert(":"@ == seq![':']);
    if s < 60 && rounded(secs) == 60 * m + s {
        assert(rounded(secs) / 60 == m && rounded(secs) % 60 == s);
    }
}

/// The prose of a take is one line with its time and what was heard, word for word, and
/// the first of a day has the header of the day in front.
pub proof fn law_prose_is_verbatim(day: Seq<char>, clock: Seq<char>, verbatim: Seq<char>)
    ensures
        prose_of(false, day, clock, verbatim) == "- **"@ + clock + "** — "@ + verbatim + "\n"@,
        prose_of(true, day, clock, verbatim) == header_of(day) + prose_of(
            false,
            day,
            clock,
            verbatim,
        ),
        text::starts(header_of(day), "# Tiro — "@ + day + "\n\n"@),
        text::ends(header_of(day), "\n\n"@),
{
    reveal_strlit("# Tiro — ");
    reveal_strlit(
        "\n\nVerbatim dictation capture (raw layer; the refine-transcript pipeline cleans this later). One line per utterance.\n\n",
    );
    reveal_strlit("\n\n");
    let h = header_of(day);
    let front = "# Tiro — "@ + day + "\n\n"@;
    assert(h.take(front.len() as int) =~= front);
    assert(h.skip(h.len() - 2) =~= "\n\n"@);
}

/// What is shown of a take is its copy, and what was heard where there is none.
pub proof fn law_what_is_shown(rec: Rec)
    ensures
        rec.clean@.len() > 0 ==> shown(rec) == rec.clean@,
        rec.clean@.len() == 0 ==> shown(rec) == rec.text@,
{
}

/// The time of an entry is the one that its stamp says, and the present one where it says
/// none; a text that is missing gives way to the other one.
pub proof fn law_what_stands_in(ts: Seq<char>, now: (u32, u32), a: Seq<char>, b: Seq<char>)
    ensures
        match time_of(ts, "%Y-%m-%dT%H:%M:%S"@) {
            Some(t) => time_or(ts, now) == t,
            None => time_or(ts, now) == now,
        },
        or_else(Seq::empty(), b) == b,
        a.len() > 0 ==> or_else(a, b) == a,
{
}

} // verus!
