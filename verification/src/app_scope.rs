//! The name under which the desktop's portal knows this process.
//!
//! The portal reads it from the name of the systemd unit that the process runs
//! in, `app-<id>-<random>.scope` or `app-<id>@<random>.service`, and wants a
//! desktop file of that name whose program can be run.

use crate::text;
use vstd::prelude::*;

verus! {

/// The two forms of unit names that carry an identifier.
#[derive(Clone, Copy, PartialEq, Eq, Structural, Debug)]
pub enum UnitForm {
    /// A scope or a slice: the identifier is followed by a dash and letters and
    /// digits.
    Scope,
    /// A service: the identifier may be followed by an at sign and letters and
    /// digits, or by `-autostart`.
    Service,
}

/// Whether `s` holds ASCII letters and digits alone.
pub open spec fn all_alnum(s: Seq<char>) -> bool {
    forall|i: int| 0 <= i < s.len() ==> text::is_alnum(#[trigger] s[i])
}

/// How many ASCII letters and digits `s` begins with.
pub open spec fn alnum_run(s: Seq<char>) -> nat
    decreases s.len(),
{
    if s.len() > 0 && text::is_alnum(s[0]) {
        1 + alnum_run(s.skip(1))
    } else {
        0
    }
}

/// Whether `tail` may follow an identifier in a unit name of this form.
pub open spec fn is_tail(form: UnitForm, tail: Seq<char>) -> bool {
    match form {
        UnitForm::Scope => tail.len() > 0 && tail[0] == '-' && all_alnum(tail.skip(1)),
        UnitForm::Service => tail.len() == 0 || (tail[0] == '@' && all_alnum(tail.skip(1))) || tail
            == "-autostart"@,
    }
}

/// The first place at or behind `i` at which an identifier may end.
pub open spec fn id_end(form: UnitForm, s: Seq<char>, i: int) -> Option<int>
    decreases s.len() + 1 - i,
{
    if i > s.len() {
        None
    } else if is_tail(form, s.skip(i)) {
        Some(i)
    } else {
        id_end(form, s, i + 1)
    }
}

/// The identifier at the front of `s`: as short as it can be, but not empty.
pub open spec fn lazy_id(form: UnitForm, s: Seq<char>) -> Option<Seq<char>> {
    match id_end(form, s, 1) {
        Some(i) => Some(s.take(i)),
        None => None,
    }
}

/// What follows the launcher in `body`, where it begins with one: letters and
/// digits, then a dash.
pub open spec fn after_launcher(body: Seq<char>) -> Option<Seq<char>> {
    let run = alnum_run(body) as int;
    if run > 0 && run < body.len() && body[run] == '-' {
        Some(body.skip(run + 1))
    } else {
        None
    }
}

/// The identifier in `body`, behind the launcher where one stands there and an
/// identifier follows it.
pub open spec fn id_in(form: UnitForm, body: Seq<char>) -> Option<Seq<char>> {
    match after_launcher(body) {
        Some(rest) => match lazy_id(form, rest) {
            Some(id) => Some(id),
            None => lazy_id(form, body),
        },
        None => lazy_id(form, body),
    }
}

/// The value of a hexadecimal digit.
pub open spec fn hex_value(b: u8) -> Option<u8> {
    if 48 <= b <= 57 {
        Some((b - 48) as u8)
    } else if 97 <= b <= 102 {
        Some((b - 97 + 10) as u8)
    } else if 65 <= b <= 70 {
        Some((b - 65 + 10) as u8)
    } else {
        None
    }
}

/// Whether `b` begins with a backslash, an `x` and two hexadecimal digits.
pub open spec fn begins_with_escape(b: Seq<u8>) -> bool {
    b.len() >= 4 && b[0] == 92 && b[1] == 120 && hex_value(b[2]) is Some && hex_value(b[3]) is Some
}

/// `b` with each escape replaced by the byte it stands for. What is no escape
/// stays as it is.
pub open spec fn unescape(b: Seq<u8>) -> Seq<u8>
    decreases b.len(),
{
    if begins_with_escape(b) {
        seq![(hex_value(b[2])->0 * 16 + hex_value(b[3])->0) as u8] + unescape(b.skip(4))
    } else if b.len() > 0 {
        seq![b[0]] + unescape(b.skip(1))
    } else {
        Seq::empty()
    }
}

/// What `String::from_utf8_lossy` makes of bytes that are not UTF-8.
pub uninterp spec fn lossy_text(b: Seq<u8>) -> Seq<char>;

/// The text of `b`: what it encodes where it is UTF-8, else with replacement
/// characters in it.
pub open spec fn text_of_bytes(b: Seq<u8>) -> Seq<char> {
    if vstd::utf8::valid_utf8(b) {
        vstd::utf8::decode_utf8(b)
    } else {
        lossy_text(b)
    }
}

/// `String::from_utf8_lossy`. Of bytes that are UTF-8 it gives the text that
/// they encode; what it makes of others is a function of those bytes.
#[verifier::external_body]
fn from_utf8_lossy(b: &Vec<u8>) -> (r: String)
    ensures
        vstd::utf8::valid_utf8(b@) ==> r@ == vstd::utf8::decode_utf8(b@),
        !vstd::utf8::valid_utf8(b@) ==> r@ == lossy_text(b@),
{
    String::from_utf8_lossy(b).into_owned()
}

/// The value of a hexadecimal digit.
fn hex(b: u8) -> (r: Option<u8>)
    ensures
        r == hex_value(b),
{
    if 48 <= b && b <= 57 {
        Some(b - 48)
    } else if 97 <= b && b <= 102 {
        Some(b - 97 + 10)
    } else if 65 <= b && b <= 70 {
        Some(b - 65 + 10)
    } else {
        None
    }
}

/// A unit name with its escapes (`\x2d` for a dash) undone; what is no escape
/// passes through.
pub fn cunescape_relax(s: &str) -> (r: String)
    ensures
        r@ == text_of_bytes(unescape(vstd::utf8::encode_utf8(s@))),
{
    let b = s.as_bytes();
    let mut out: Vec<u8> = Vec::new();
    let mut i: usize = 0;
    assert(b@.skip(0) == b@);
    while i < b.len()
        invariant
            i <= b@.len(),
            out@ + unescape(b@.skip(i as int)) == unescape(b@),
        decreases b@.len() - i,
    {
        let ghost here = b@.skip(i as int);
        let mut step: usize = 1;
        let mut byte: u8 = b[i];
        if b[i] == 92 && b.len() - i > 3 && b[i + 1] == 120 {
            if let (Some(hi), Some(lo)) = (hex(b[i + 2]), hex(b[i + 3])) {
                step = 4;
                byte = hi * 16 + lo;
                assert(begins_with_escape(here));
            }
        }
        proof {
            assert(here.skip(step as int) == b@.skip(i + step));
            assert(unescape(here) == seq![byte] + unescape(here.skip(step as int)));
            assert(out@.push(byte) + unescape(here.skip(step as int)) == out@ + unescape(here));
        }
        out.push(byte);
        i = i + step;
    }
    assert(b@.skip(i as int) == Seq::<u8>::empty());
    assert(out@ == unescape(b@));
    from_utf8_lossy(&out)
}

/// Whether `s` holds ASCII letters and digits alone.
fn is_all_alnum(s: &[char]) -> (r: bool)
    ensures
        r == all_alnum(s@),
{
    for i in 0..s.len()
        invariant
            forall|j: int| 0 <= j < i ==> text::is_alnum(#[trigger] s@[j]),
    {
        if !text::alnum(s[i]) {
            return false;
        }
    }
    true
}

/// Whether `tail` may follow an identifier in a unit name of this form.
fn may_follow(form: UnitForm, tail: &[char]) -> (r: bool)
    ensures
        r == is_tail(form, tail@),
{
    match form {
        UnitForm::Scope => tail.len() > 0 && tail[0] == '-' && is_all_alnum(text::rest(tail, 1)),
        UnitForm::Service => tail.len() == 0 || (tail[0] == '@' && is_all_alnum(
            text::rest(tail, 1),
        )) || text::is_lit(tail, "-autostart"),
    }
}

/// The identifier at the front of `s`: as short as it can be, but not empty.
fn shortest_id(form: UnitForm, s: &[char]) -> (r: Option<&[char]>)
    ensures
        match r {
            Some(id) => lazy_id(form, s@) == Some(id@),
            None => lazy_id(form, s@) is None,
        },
{
    let mut i: usize = 1;
    while i <= s.len()
        invariant
            1 <= i,
            id_end(form, s@, 1) == id_end(form, s@, i as int),
        decreases s@.len() + 1 - i,
    {
        if may_follow(form, text::rest(s, i)) {
            return Some(text::first(s, i));
        }
        if i == s.len() {
            assert(id_end(form, s@, i + 1) is None);
            return None;
        }
        i = i + 1;
    }
    None
}

/// The identifier at the front of the body of a scope or slice name: it ends at
/// the first dash that only letters and digits follow.
pub fn lazy_id_scope(s: &str) -> (r: Option<String>)
    ensures
        text::opt_text(r) == lazy_id(UnitForm::Scope, s@),
{
    let c = text::chars_of(s);
    match shortest_id(UnitForm::Scope, c.as_slice()) {
        Some(id) => Some(text::string_of(id)),
        None => None,
    }
}

/// The identifier at the front of the body of a service name: it ends where an
/// at sign with letters and digits, `-autostart`, or nothing follows.
pub fn lazy_id_service(s: &str) -> (r: Option<String>)
    ensures
        text::opt_text(r) == lazy_id(UnitForm::Service, s@),
{
    let c = text::chars_of(s);
    match shortest_id(UnitForm::Service, c.as_slice()) {
        Some(id) => Some(text::string_of(id)),
        None => None,
    }
}

/// How many ASCII letters and digits `s` begins with.
fn count_alnum(s: &[char]) -> (r: usize)
    ensures
        r == alnum_run(s@),
        r <= s@.len(),
{
    let mut n: usize = 0;
    assert(s@.skip(0) == s@);
    while n < s.len() && text::alnum(s[n])
        invariant
            n <= s@.len(),
            n + alnum_run(s@.skip(n as int)) == alnum_run(s@),
        decreases s@.len() - n,
    {
        assert(s@.skip(n as int).skip(1) == s@.skip(n + 1));
        n = n + 1;
    }
    n
}

/// The identifier in the body of a unit name, tried first behind a launcher
/// (letters, digits and a dash), then from the front.
pub fn with_optional_launcher(form: UnitForm, body: &str) -> (r: Option<String>)
    ensures
        text::opt_text(r) == id_in(form, body@),
{
    let c = text::chars_of(body);
    let run: usize = count_alnum(c.as_slice());
    if run > 0 && run < c.len() && c[run] == '-' {
        if let Some(id) = shortest_id(form, text::rest(c.as_slice(), run + 1)) {
            return Some(text::string_of(id));
        }
    }
    match shortest_id(form, c.as_slice()) {
        Some(id) => Some(text::string_of(id)),
        None => None,
    }
}

/// The body of a unit name and its form: what stands between `app-` and the
/// suffix that tells the form.
pub open spec fn unit_body(unit: Seq<char>) -> Option<(UnitForm, Seq<char>)> {
    if !text::starts(unit, "app-"@) {
        None
    } else {
        let rest = unit.skip("app-"@.len() as int);
        if text::ends(rest, ".scope"@) {
            Some((UnitForm::Scope, rest.take(rest.len() - ".scope"@.len())))
        } else if text::ends(rest, ".slice"@) {
            Some((UnitForm::Scope, rest.take(rest.len() - ".slice"@.len())))
        } else if text::ends(rest, ".service"@) {
            Some((UnitForm::Service, rest.take(rest.len() - ".service"@.len())))
        } else {
            None
        }
    }
}

/// The identifier that the portal reads from a unit name.
pub open spec fn app_id_of(unit: Seq<char>) -> Option<Seq<char>> {
    match unit_body(unit) {
        Some((form, body)) => match id_in(form, body) {
            Some(raw) => {
                let id = text_of_bytes(unescape(vstd::utf8::encode_utf8(raw)));
                if id.len() == 0 {
                    None
                } else {
                    Some(id)
                }
            },
            None => None,
        },
        None => None,
    }
}

/// The identifier that the portal would read from the unit name `unit`.
pub fn parse_app_id_from_unit(unit: &str) -> (r: Option<String>)
    ensures
        text::opt_text(r) == app_id_of(unit@),
{
    let c = text::chars_of(unit);
    let rest = match text::strip_prefix(c.as_slice(), "app-") {
        Some(rest) => rest,
        None => return None,
    };
    let (form, body) = match text::strip_suffix(rest, ".scope") {
        Some(body) => (UnitForm::Scope, body),
        None => match text::strip_suffix(rest, ".slice") {
            Some(body) => (UnitForm::Scope, body),
            None => match text::strip_suffix(rest, ".service") {
                Some(body) => (UnitForm::Service, body),
                None => return None,
            },
        },
    };
    let raw = match with_optional_launcher(form, text::string_of(body).as_str()) {
        Some(raw) => raw,
        None => return None,
    };
    let id = cunescape_relax(raw.as_str());
    if text::chars_of(id.as_str()).len() == 0 {
        None
    } else {
        Some(id)
    }
}

/// Whether a scope of our own is needed: always, unless the unit that we run in
/// already gives our identifier.
pub open spec fn must_migrate(unit: Option<Seq<char>>, app_id: Seq<char>) -> bool {
    !(unit matches Some(u) && app_id_of(u) == Some(app_id))
}

/// Whether a scope of our own is needed: always, unless the unit that we run in
/// already gives our identifier.
pub fn should_migrate(current_unit: Option<&str>, app_id: &str) -> (r: bool)
    ensures
        r == must_migrate(text::opt_str(current_unit), app_id@),
{
    match current_unit {
        Some(unit) => match parse_app_id_from_unit(unit) {
            Some(id) => !text::str_eq(id.as_str(), app_id),
            None => true,
        },
        None => true,
    }
}

/// The name of the scope of the process `pid`.
pub open spec fn scope_of(app_id: Seq<char>, pid: u32) -> Seq<char> {
    "app-"@ + app_id + "-"@ + text::decimal(pid as nat) + ".scope"@
}

/// The name of the scope of the process `pid`: `app-<id>-<pid>.scope`.
pub fn scope_name(app_id: &str, pid: u32) -> (r: String)
    ensures
        r@ == scope_of(app_id@, pid),
{
    let mut out: Vec<char> = Vec::new();
    text::extend_str(&mut out, "app-");
    text::extend_str(&mut out, app_id);
    text::extend_str(&mut out, "-");
    let d = text::decimal_of(pid as u64);
    text::extend(&mut out, d.as_slice());
    text::extend_str(&mut out, ".scope");
    text::string_of(out.as_slice())
}

// ---- the process and its unit -----------------------------------------------

/// The last part of the path on the first line that begins with `0::`.
pub open spec fn unit_line(lines: Seq<Seq<char>>) -> Option<Seq<char>>
    decreases lines.len(),
{
    if lines.len() == 0 {
        None
    } else if text::starts(lines[0], "0::"@) {
        Some(lines[0].skip("0::"@.len() as int))
    } else {
        unit_line(lines.skip(1))
    }
}

/// The unit that a cgroup listing names.
pub open spec fn unit_of(cgroup: Seq<char>) -> Option<Seq<char>> {
    match unit_line(text::lines(cgroup)) {
        Some(path) => {
            let leaf = text::trim(text::split(text::trim(path), '/').last());
            if leaf.len() == 0 {
                None
            } else {
                Some(leaf)
            }
        },
        None => None,
    }
}

/// The unit that this process runs in, read from the contents of its cgroup
/// file: the last part of the path on the line of the unified hierarchy.
pub fn current_unit(cgroup: &str) -> (r: Option<String>)
    ensures
        text::opt_text(r) == unit_of(cgroup@),
{
    let c = text::chars_of(cgroup);
    let lines = text::lines_of(c.as_slice());
    let ghost all = text::lines(cgroup@);
    let mut i: usize = 0;
    assert(all.skip(0) == all);
    while i < lines.len()
        invariant
            i <= lines@.len(),
            all == text::lines(cgroup@),
            text::pieces(lines@) == all,
            unit_line(all) == unit_line(all.skip(i as int)),
        decreases lines@.len() - i,
    {
        assert(all.skip(i as int)[0] == lines@[i as int]@);
        assert(all.skip(i as int).skip(1) == all.skip(i + 1));
        if let Some(path) = text::strip_prefix(lines[i].as_slice(), "0::") {
            let parts = text::split_on(text::trimmed(path), '/');
            proof {
                text::lemma_split_some(text::trim(path@), '/');
                assert(text::pieces(parts@).len() == parts@.len());
                assert(text::pieces(parts@).last() == parts@.last()@);
            }
            let leaf = text::trimmed(parts[parts.len() - 1].as_slice());
            return if leaf.len() == 0 {
                None
            } else {
                Some(text::string_of(leaf))
            };
        }
        i = i + 1;
    }
    None
}

/// What to do about the scope.
#[derive(Debug, PartialEq, Eq)]
pub enum ScopeStep {
    /// Nothing: the portal is not used in this session.
    Skip,
    /// Nothing: we run in this unit, which already gives our identifier.
    AlreadyOurs(String),
    /// Move into the scope of this name.
    Migrate(String),
}

/// What to do about the scope of the process `pid`, in a session that is a
/// Wayland one or not, running in `unit`.
pub fn ensure_app_scope(wayland: bool, unit: Option<String>, app_id: &str, pid: u32) -> (r:
    ScopeStep)
    ensures
        match r {
            ScopeStep::Skip => !wayland,
            ScopeStep::AlreadyOurs(u) => wayland && text::opt_text(unit) == Some(u@)
                && !must_migrate(Some(u@), app_id@),
            ScopeStep::Migrate(scope) => wayland && must_migrate(text::opt_text(unit), app_id@)
                && scope@ == scope_of(app_id@, pid),
        },
{
    if !wayland {
        return ScopeStep::Skip;
    }
    if let Some(u) = unit {
        if !should_migrate(Some(u.as_str()), app_id) {
            return ScopeStep::AlreadyOurs(u);
        }
    }
    ScopeStep::Migrate(scope_name(app_id, pid))
}

/// How long to wait for the session bus before giving up, in seconds.
pub const DBUS_TIMEOUT_SECS: u64 = 5;

/// How often to look whether the move has happened.
pub const MIGRATION_POLLS: u32 = 50;

/// How long to wait between two looks, in milliseconds.
pub const MIGRATION_POLL_MS: u64 = 20;

/// What a look at our own unit says of the move.
#[derive(Clone, Copy, PartialEq, Eq, Structural, Debug)]
pub enum Migration {
    /// We are in the scope.
    Arrived,
    /// Not yet: wait and look again.
    Wait,
    /// Not in all the looks there were.
    GaveUp,
}

/// What the look number `poll`, counted from nought, says of the move into
/// `scope`, with `unit` the unit that we run in.
pub fn wait_for_migration(poll: u32, unit: Option<&str>, scope: &str) -> (r: Migration)
    ensures
        r == if poll >= MIGRATION_POLLS {
            Migration::GaveUp
        } else if text::opt_str(unit) == Some(scope@) {
            Migration::Arrived
        } else {
            Migration::Wait
        },
{
    if poll >= MIGRATION_POLLS {
        return Migration::GaveUp;
    }
    match unit {
        Some(u) => if text::str_eq(u, scope) {
            Migration::Arrived
        } else {
            Migration::Wait
        },
        None => Migration::Wait,
    }
}

// ---- the desktop file -------------------------------------------------------

/// The group that a line opens: what stands between its brackets.
pub open spec fn group_of(line: Seq<char>) -> Option<Seq<char>> {
    if line.len() >= 2 && line[0] == '[' && line.last() == ']' {
        Some(line.subrange(1, line.len() - 1))
    } else {
        None
    }
}

/// The program of a command line: its first token, in double quotes or up to
/// the first white space.
pub open spec fn program_of(value: Seq<char>) -> Seq<char> {
    if value.len() > 0 && value[0] == '"' {
        text::split(value.skip(1), '"')[0]
    } else if text::words(value).len() > 0 {
        text::words(value)[0]
    } else {
        Seq::empty()
    }
}

/// What the line `line` of the entry group says of the program: nothing where
/// it is a comment or sets another key.
pub open spec fn exec_value(line: Seq<char>) -> Option<Seq<char>> {
    if text::starts(line, "#"@) {
        None
    } else {
        match text::index_of(line, '=') {
            Some(k) => if text::trim(line.take(k)) == "Exec"@ {
                Some(text::trim(line.skip(k + 1)))
            } else {
                None
            },
            None => None,
        }
    }
}

/// The first `Exec` value among `lines` in a group `Desktop Entry`; `in_entry`
/// says whether the first line stands in one.
pub open spec fn entry_exec(lines: Seq<Seq<char>>, in_entry: bool) -> Option<Seq<char>>
    decreases lines.len(),
{
    if lines.len() == 0 {
        None
    } else {
        let line = text::trim(lines[0]);
        match group_of(line) {
            Some(g) => entry_exec(lines.skip(1), g == "Desktop Entry"@),
            None => if in_entry && exec_value(line) is Some {
                exec_value(line)
            } else {
                entry_exec(lines.skip(1), in_entry)
            },
        }
    }
}

/// The program that a desktop file runs.
pub open spec fn argv0_of(content: Seq<char>) -> Option<Seq<char>> {
    match entry_exec(text::lines(content), false) {
        Some(value) => if program_of(value).len() > 0 {
            Some(program_of(value))
        } else {
            None
        },
        None => None,
    }
}

/// The group that a line opens.
fn read_group(line: &[char]) -> (r: Option<&[char]>)
    ensures
        match r {
            Some(g) => group_of(line@) == Some(g@),
            None => group_of(line@) is None,
        },
{
    if line.len() >= 2 && line[0] == '[' && line[line.len() - 1] == ']' {
        Some(vstd::slice::slice_subrange(line, 1, line.len() - 1))
    } else {
        None
    }
}

/// What a line of the entry group says of the program.
fn read_exec(line: &[char]) -> (r: Option<&[char]>)
    ensures
        match r {
            Some(v) => exec_value(line@) == Some(v@),
            None => exec_value(line@) is None,
        },
{
    if text::starts_with(line, "#") {
        return None;
    }
    let n: usize = line.len();
    match text::position_of(line, '=') {
        Some(k) => {
            assert(k < n);
            if text::is_lit(text::trimmed(text::first(line, k)), "Exec") {
                Some(text::trimmed(text::rest(line, k + 1)))
            } else {
                None
            }
        },
        None => None,
    }
}

/// The program of a command line.
fn read_program(value: &[char]) -> (r: Vec<char>)
    ensures
        r@ == program_of(value@),
{
    if value.len() > 0 && value[0] == '"' {
        let parts = text::split_on(text::rest(value, 1), '"');
        proof {
            text::lemma_split_some(value@.skip(1), '"');
            assert(text::pieces(parts@).len() == parts@.len());
            assert(text::pieces(parts@)[0] == parts@[0]@);
        }
        text::to_vec(parts[0].as_slice())
    } else {
        let words = text::words_of(value);
        assert(text::pieces(words@).len() == words@.len());
        if words.len() > 0 {
            assert(text::pieces(words@)[0] == words@[0]@);
            text::to_vec(words[0].as_slice())
        } else {
            Vec::new()
        }
    }
}

/// The program that a desktop file runs: the first token of the first `Exec`
/// key in its `Desktop Entry` group.
pub fn exec_argv0(content: &str) -> (r: Option<String>)
    ensures
        text::opt_text(r) == argv0_of(content@),
{
    let c = text::chars_of(content);
    let lines = text::lines_of(c.as_slice());
    let ghost all = text::lines(content@);
    let mut in_entry = false;
    let mut i: usize = 0;
    assert(all.skip(0) == all);
    while i < lines.len()
        invariant
            i <= lines@.len(),
            all == text::lines(content@),
            text::pieces(lines@) == all,
            entry_exec(all, false) == entry_exec(all.skip(i as int), in_entry),
        decreases lines@.len() - i,
    {
        assert(all.skip(i as int)[0] == lines@[i as int]@);
        assert(all.skip(i as int).skip(1) == all.skip(i + 1));
        let line = text::trimmed(lines[i].as_slice());
        if let Some(group) = read_group(line) {
            in_entry = text::is_lit(group, "Desktop Entry");
        } else if in_entry {
            if let Some(value) = read_exec(line) {
                let argv0 = read_program(value);
                return if argv0.len() == 0 {
                    None
                } else {
                    Some(text::string_of(argv0.as_slice()))
                };
            }
        }
        i = i + 1;
    }
    None
}

/// `name` in the directory `dir`.
pub open spec fn path_join(dir: Seq<char>, name: Seq<char>) -> Seq<char> {
    if dir.len() == 0 {
        name
    } else if dir.last() == '/' {
        dir + name
    } else {
        dir + "/"@ + name
    }
}

/// `name`, a relative path, in the directory `dir`.
pub fn join_path(dir: &str, name: &str) -> (r: String)
    ensures
        r@ == path_join(dir@, name@),
{
    let mut out = text::chars_of(dir);
    if out.len() > 0 && out[out.len() - 1] != '/' {
        text::extend_str(&mut out, "/");
    }
    text::extend_str(&mut out, name);
    text::string_of(out.as_slice())
}

/// Where the program `argv0` may lie: at its own path where it names one, else
/// in each of the directories.
pub open spec fn program_paths(argv0: Seq<char>, dirs: Seq<Seq<char>>) -> Seq<Seq<char>> {
    if argv0.contains('/') {
        seq![argv0]
    } else {
        dirs.map_values(|d: Seq<char>| path_join(d, argv0))
    }
}

/// Where the program `argv0` may lie, in the order in which to look.
pub fn program_candidates(argv0: &str, dirs: &[String]) -> (r: Vec<String>)
    ensures
        text::texts(r@) == program_paths(argv0@, text::texts(dirs@)),
{
    let c = text::chars_of(argv0);
    let mut out: Vec<String> = Vec::new();
    if text::position_of(c.as_slice(), '/').is_some() {
        assert(argv0@.contains('/'));
        out.push(argv0.to_string());
        assert(text::texts(out@) == seq![argv0@]);
        return out;
    }
    for i in 0..dirs.len()
        invariant
            text::texts(out@) == text::texts(dirs@.take(i as int)).map_values(
                |d: Seq<char>| path_join(d, argv0@),
            ),
    {
        let ghost was = out@;
        let p = join_path(dirs[i].as_str(), argv0);
        let ghost w = p@;
        out.push(p);
        assert(text::texts(out@) == text::texts(was).push(w));
        assert(text::texts(dirs@.take(i + 1)) == text::texts(dirs@.take(i as int)).push(
            dirs@[i as int]@,
        ));
    }
    assert(dirs@.take(dirs@.len() as int) == dirs@);
    out
}

/// Why a desktop file without a program is refused.
pub open spec fn no_exec() -> Seq<char> {
    "no Exec key in its [Desktop Entry] group (GLib rejects the file)"@
}

/// Why a desktop file is refused whose program cannot be run.
pub open spec fn unresolved(argv0: Seq<char>) -> Seq<char> {
    "its Exec argv0 '"@ + argv0
        + "' does not resolve to an executable, so GLib rejects the file (and the portal the app id)"@
}

/// Whether `answer` may be what `f` gives for the text `path`.
pub open spec fn says<F: Fn(&str) -> bool>(f: F, path: Seq<char>, answer: bool) -> bool {
    exists|p: &str| p@ == path && #[trigger] f.ensures((p,), answer)
}

/// Whether `ok` may be what comes out when `f` is asked of each of the paths
/// until it says yes.
pub open spec fn first_yes<F: Fn(&str) -> bool>(f: F, paths: Seq<Seq<char>>, ok: bool) -> bool {
    if ok {
        exists|i: int| 0 <= i < paths.len() && says(f, #[trigger] paths[i], true)
    } else {
        forall|i: int| 0 <= i < paths.len() ==> says(f, #[trigger] paths[i], false)
    }
}

/// Whether `ok` may be what comes out when `f` is asked of each path at which
/// the program of a desktop file may lie, until it says yes.
pub open spec fn runs<F: Fn(&str) -> bool>(
    f: F,
    content: Seq<char>,
    dirs: Seq<Seq<char>>,
    ok: bool,
) -> bool {
    match argv0_of(content) {
        None => !ok,
        Some(argv0) => first_yes(f, program_paths(argv0, dirs), ok),
    }
}

/// Why a desktop file is refused.
pub open spec fn refusal(content: Seq<char>) -> Seq<char> {
    match argv0_of(content) {
        None => no_exec(),
        Some(argv0) => unresolved(argv0),
    }
}

/// Whether the program of a desktop file can be run: `is_executable` is asked
/// of each path at which it may lie, until one is. Otherwise says why not.
pub fn exec_resolves<F: Fn(&str) -> bool>(
    content: &str,
    path_dirs: &[String],
    is_executable: F,
) -> (r: Result<(), String>)
    requires
        forall|p: &str| is_executable.requires((p,)),
    ensures
        runs(is_executable, content@, text::texts(path_dirs@), r is Ok),
        r matches Err(why) ==> why@ == refusal(content@),
{
    let argv0 = match exec_argv0(content) {
        Some(a) => a,
        None => {
            return Err(
                "no Exec key in its [Desktop Entry] group (GLib rejects the file)".to_string(),
            );
        },
    };
    let paths = program_candidates(argv0.as_str(), path_dirs);
    let ghost all = program_paths(argv0@, text::texts(path_dirs@));
    assert(all.len() == paths@.len());
    for i in 0..paths.len()
        invariant
            forall|p: &str| is_executable.requires((p,)),
            argv0_of(content@) == Some(argv0@),
            all == program_paths(argv0@, text::texts(path_dirs@)),
            all == text::texts(paths@),
            forall|j: int|
                0 <= j < i ==> says(is_executable, #[trigger] all[j], false),
    {
        assert(all[i as int] == paths@[i as int]@);
        let p = paths[i].as_str();
        if is_executable(p) {
            assert(0 <= i < all.len() && says(is_executable, all[i as int], true));
            assert(first_yes(is_executable, all, true));
            return Ok(());
        }
        assert(says(is_executable, all[i as int], false));
    }
    let mut why: Vec<char> = Vec::new();
    text::extend_str(&mut why, "its Exec argv0 '");
    text::extend_str(&mut why, argv0.as_str());
    text::extend_str(
        &mut why,
        "' does not resolve to an executable, so GLib rejects the file (and the portal the app id)",
    );
    Err(text::string_of(why.as_slice()))
}

/// The directories in which desktop files lie: our own first, then the
/// system's.
pub open spec fn data_dirs(
    data_home: Option<Seq<char>>,
    home: Option<Seq<char>>,
    data_dirs: Option<Seq<char>>,
) -> Seq<Seq<char>> {
    let own = match data_home {
        Some(h) if h.len() > 0 => seq![h],
        _ => match home {
            Some(h) => seq![path_join(h, ".local/share"@)],
            None => Seq::empty(),
        },
    };
    let system = match data_dirs {
        Some(list) if list.len() > 0 => text::non_empty(text::split(list, ':')),
        _ => seq!["/usr/local/share"@, "/usr/share"@],
    };
    own + system
}

/// The directories in which desktop files lie, from the values of
/// `XDG_DATA_HOME`, `HOME` and `XDG_DATA_DIRS`.
pub fn xdg_data_dirs(
    data_home: Option<&str>,
    home: Option<&str>,
    system_dirs: Option<&str>,
) -> (r: Vec<String>)
    ensures
        text::texts(r@) == data_dirs(
            text::opt_str(data_home),
            text::opt_str(home),
            text::opt_str(system_dirs),
        ),
{
    let mut dirs: Vec<String> = Vec::new();
    let ghost mut own: Seq<Seq<char>> = Seq::empty();
    let mut given = false;
    if let Some(h) = data_home {
        if text::chars_of(h).len() > 0 {
            given = true;
            dirs.push(h.to_string());
            proof {
                own = seq![h@];
                assert(text::texts(dirs@) == own);
            }
        }
    }
    if !given {
        if let Some(h) = home {
            let d = join_path(h, ".local/share");
            proof {
                own = seq![d@];
            }
            dirs.push(d);
            assert(text::texts(dirs@) == own);
        }
    }
    assert(text::texts(dirs@) == own);
    let mut listed = false;
    if let Some(list) = system_dirs {
        let c = text::chars_of(list);
        if c.len() > 0 {
            listed = true;
            let parts = text::split_on(c.as_slice(), ':');
            let ghost all = text::split(list@, ':');
            proof {
                reveal(Seq::filter);
                assert(all.take(0) == Seq::<Seq<char>>::empty());
                assert(text::texts(dirs@) == own + text::non_empty(all.take(0)));
            }
            for i in 0..parts.len()
                invariant
                    text::pieces(parts@) == all,
                    text::texts(dirs@) == own + text::non_empty(all.take(i as int)),
            {
                proof {
                    assert(all[i as int] == parts@[i as int]@);
                    assert(all.take(i + 1) == all.take(i as int).push(parts@[i as int]@));
                    text::lemma_non_empty_push(all.take(i as int), parts@[i as int]@);
                }
                if parts[i].len() > 0 {
                    let ghost was = dirs@;
                    let d = text::string_of(parts[i].as_slice());
                    let ghost w = d@;
                    dirs.push(d);
                    assert(text::texts(dirs@) == text::texts(was).push(w));
                }
            }
            assert(all.take(all.len() as int) == all);
        }
    }
    if !listed {
        let ghost was = dirs@;
        dirs.push("/usr/local/share".to_string());
        dirs.push("/usr/share".to_string());
        assert(text::texts(dirs@) == text::texts(was) + seq!["/usr/local/share"@, "/usr/share"@]);
    }
    dirs
}

/// Where the desktop file of `id` may lie, in the order in which to look.
pub fn desktop_candidates(dirs: &[String], id: &str) -> (r: Vec<String>)
    ensures
        text::texts(r@) == text::texts(dirs@).map_values(
            |d: Seq<char>| path_join(path_join(d, "applications"@), id@ + ".desktop"@),
        ),
{
    let mut name = text::chars_of(id);
    text::extend_str(&mut name, ".desktop");
    let name = text::string_of(name.as_slice());
    let mut out: Vec<String> = Vec::new();
    for i in 0..dirs.len()
        invariant
            name@ == id@ + ".desktop"@,
            text::texts(out@) == text::texts(dirs@.take(i as int)).map_values(
                |d: Seq<char>| path_join(path_join(d, "applications"@), id@ + ".desktop"@),
            ),
    {
        let ghost was = out@;
        let apps = join_path(dirs[i].as_str(), "applications");
        let p = join_path(apps.as_str(), name.as_str());
        let ghost w = p@;
        out.push(p);
        assert(text::texts(out@) == text::texts(was).push(w));
        assert(text::texts(dirs@.take(i + 1)) == text::texts(dirs@.take(i as int)).push(
            dirs@[i as int]@,
        ));
    }
    assert(dirs@.take(dirs@.len() as int) == dirs@);
    out
}

/// Whether the portal would accept the identifier `id`: `file` is the desktop
/// file that was found with its contents, or why it could not be read. Gives
/// the path of the file, or what is wrong.
pub fn desktop_file_status<F: Fn(&str) -> bool>(
    id: &str,
    file: Option<(String, Result<String, String>)>,
    path_dirs: &[String],
    is_executable: F,
) -> (r: Result<String, String>)
    requires
        forall|p: &str| is_executable.requires((p,)),
    ensures
        match file {
            None => r matches Err(why) && why@ == "no "@ + id@
                + ".desktop in the XDG applications dirs"@,
            Some((path, Err(e))) => r matches Err(why) && why@ == path@ + " is unreadable: "@ + e@,
            Some((path, Ok(content))) => {
                &&& runs(is_executable, content@, text::texts(path_dirs@), r is Ok)
                &&& match r {
                    Ok(p) => p@ == path@,
                    Err(why) => why@ == path@ + ": "@ + refusal(content@),
                }
            },
        },
{
    match file {
        None => {
            let mut why = text::chars_of("no ");
            text::extend_str(&mut why, id);
            text::extend_str(&mut why, ".desktop in the XDG applications dirs");
            Err(text::string_of(why.as_slice()))
        },
        Some((path, Err(e))) => {
            let mut why = text::chars_of(path.as_str());
            text::extend_str(&mut why, " is unreadable: ");
            text::extend_str(&mut why, e.as_str());
            Err(text::string_of(why.as_slice()))
        },
        Some((path, Ok(content))) => match exec_resolves(
            content.as_str(),
            path_dirs,
            is_executable,
        ) {
            Ok(()) => Ok(path),
            Err(e) => {
                let mut why = text::chars_of(path.as_str());
                text::extend_str(&mut why, ": ");
                text::extend_str(&mut why, e.as_str());
                Err(text::string_of(why.as_slice()))
            },
        },
    }
}

// ---- laws -------------------------------------------------------------------

/// The place that a search for the end of an identifier gives is the first one.
proof fn lemma_id_end(form: UnitForm, s: Seq<char>, i: int, k: int)
    requires
        0 <= i <= k <= s.len(),
        is_tail(form, s.skip(k)),
        forall|j: int| i <= j < k ==> !is_tail(form, #[trigger] s.skip(j)),
    ensures
        id_end(form, s, i) == Some(k),
    decreases k - i,
{
    if i < k {
        assert(!is_tail(form, s.skip(i)));
        lemma_id_end(form, s, i + 1, k);
    }
}

/// Where nothing may follow, no identifier ends.
proof fn lemma_no_id_end(form: UnitForm, s: Seq<char>, i: int)
    requires
        0 <= i,
        forall|j: int| i <= j <= s.len() ==> !is_tail(form, #[trigger] s.skip(j)),
    ensures
        id_end(form, s, i) is None,
    decreases s.len() + 1 - i,
{
    if i <= s.len() {
        assert(!is_tail(form, s.skip(i)));
        lemma_no_id_end(form, s, i + 1);
    }
}

/// How far the letters and digits at the front go.
proof fn lemma_alnum_run(s: Seq<char>, k: int)
    requires
        0 <= k <= s.len(),
        forall|i: int| 0 <= i < k ==> text::is_alnum(#[trigger] s[i]),
        k < s.len() ==> !text::is_alnum(s[k]),
    ensures
        alnum_run(s) == k,
    decreases k,
{
    if k > 0 {
        assert(text::is_alnum(s[0]));
        assert forall|i: int| 0 <= i < k - 1 implies text::is_alnum(#[trigger] s.skip(1)[i]) by {
            assert(text::is_alnum(s[i + 1]));
        }
        lemma_alnum_run(s.skip(1), k - 1);
    }
}

/// What stands in front of the place where the letters and digits end.
proof fn lemma_alnum_run_is(s: Seq<char>)
    ensures
        alnum_run(s) <= s.len(),
        forall|i: int| 0 <= i < alnum_run(s) ==> text::is_alnum(#[trigger] s[i]),
        alnum_run(s) < s.len() ==> !text::is_alnum(s[alnum_run(s) as int]),
    decreases s.len(),
{
    if s.len() > 0 && text::is_alnum(s[0]) {
        lemma_alnum_run_is(s.skip(1));
        assert forall|i: int| 0 <= i < alnum_run(s) implies text::is_alnum(#[trigger] s[i]) by {
            if i > 0 {
                assert(text::is_alnum(s.skip(1)[i - 1]));
            }
        }
    }
}

/// The body of the name of our own scope.
proof fn lemma_scope_body(id: Seq<char>, pid: u32)
    ensures
        unit_body(scope_of(id, pid)) == Some(
            (UnitForm::Scope, id + seq!['-'] + text::decimal(pid as nat)),
        ),
{
    let unit = scope_of(id, pid);
    let body = id + seq!['-'] + text::decimal(pid as nat);
    reveal_strlit("app-");
    reveal_strlit("-");
    reveal_strlit(".scope");
    assert("-"@ == seq!['-']);
    assert(unit.take(4) == "app-"@);
    let rest = unit.skip(4);
    assert(rest == body + ".scope"@);
    assert(rest.skip(rest.len() - 6) == ".scope"@);
    assert(rest.take(rest.len() - 6) == body);
}

/// An identifier, a dash and digits: the identifier ends at that dash.
proof fn lemma_lazy_scope_id(id: Seq<char>, dec: Seq<char>)
    requires
        id.len() > 0,
        text::all_digits(dec),
    ensures
        lazy_id(UnitForm::Scope, id + seq!['-'] + dec) == Some(id),
{
    let body = id + seq!['-'] + dec;
    let n = id.len() as int;
    assert(body[n] == '-');
    assert(body.skip(n).skip(1) == dec);
    assert(is_tail(UnitForm::Scope, body.skip(n)));
    assert forall|j: int| 1 <= j < n implies !is_tail(UnitForm::Scope, #[trigger] body.skip(j)) by {
        assert(body.skip(j).skip(1)[n - j - 1] == body[n]);
    }
    lemma_id_end(UnitForm::Scope, body, 1, n);
    assert(body.take(n) == id);
}

/// No identifier ends in what holds no dash behind its first character.
proof fn lemma_no_scope_id(s: Seq<char>)
    requires
        forall|i: int| 1 <= i < s.len() ==> #[trigger] s[i] != '-',
    ensures
        lazy_id(UnitForm::Scope, s) is None,
{
    assert forall|j: int| 1 <= j <= s.len() implies !is_tail(UnitForm::Scope, #[trigger] s.skip(j)) by {
        if j < s.len() {
            assert(s.skip(j)[0] == s[j]);
        }
    }
    lemma_no_id_end(UnitForm::Scope, s, 1);
}

/// The identifier in an identifier, a dash and digits, whatever a launcher in
/// front of it might look like.
proof fn lemma_scope_id(id: Seq<char>, dec: Seq<char>)
    requires
        id.len() > 0,
        text::all_digits(dec),
        !(after_launcher(id) matches Some(rest) && rest.len() > 0),
    ensures
        id_in(UnitForm::Scope, id + seq!['-'] + dec) == Some(id),
{
    let body = id + seq!['-'] + dec;
    let n = id.len() as int;
    lemma_lazy_scope_id(id, dec);
    lemma_alnum_run_is(body);
    let run = alnum_run(body) as int;
    assert(body[n] == '-');
    assert(run <= n) by {
        if run > n {
            assert(text::is_alnum(body[n]));
        }
    }
    if after_launcher(body) is Some {
        let tail = body.skip(run + 1);
        if run < n {
            assert forall|i: int| 0 <= i < run implies text::is_alnum(#[trigger] id[i]) by {
                assert(body[i] == id[i]);
            }
            assert(body[run] == id[run]);
            lemma_alnum_run(id, run);
            assert(run + 1 == n);
        }
        assert forall|i: int| 1 <= i < tail.len() implies #[trigger] tail[i] != '-' by {
            assert(tail[i] == dec[run + 1 + i - n - 1]);
            assert(text::is_digit(dec[run + 1 + i - n - 1]));
        }
        lemma_no_scope_id(tail);
    }
}

/// A process in its own scope is known by its own identifier: the name of the
/// scope reads back as it. Left out are an empty identifier, one that holds an
/// escape, and one whose front reads as a launcher (`a-b`).
pub proof fn law_own_scope_reads_back(id: Seq<char>, pid: u32)
    requires
        id.len() > 0,
        unescape(vstd::utf8::encode_utf8(id)) == vstd::utf8::encode_utf8(id),
        !(after_launcher(id) matches Some(rest) && rest.len() > 0),
    ensures
        app_id_of(scope_of(id, pid)) == Some(id),
{
    lemma_scope_body(id, pid);
    text::lemma_decimal_value(pid as nat);
    lemma_scope_id(id, text::decimal(pid as nat));
    vstd::utf8::encode_utf8_valid_utf8(id);
    vstd::utf8::encode_utf8_decode_utf8(id);
}

/// A process in its own scope never moves again.
pub proof fn law_own_scope_never_migrates(id: Seq<char>, pid: u32)
    requires
        id.len() > 0,
        unescape(vstd::utf8::encode_utf8(id)) == vstd::utf8::encode_utf8(id),
        !(after_launcher(id) matches Some(rest) && rest.len() > 0),
    ensures
        !must_migrate(Some(scope_of(id, pid)), id),
{
    law_own_scope_reads_back(id, pid);
}

/// Without a backslash there is no escape to undo.
pub proof fn law_plain_bytes_are_not_changed(b: Seq<u8>)
    requires
        !b.contains(92),
    ensures
        unescape(b) == b,
    decreases b.len(),
{
    if b.len() > 0 {
        assert(b[0] != 92);
        assert forall|i: int| 0 <= i < b.skip(1).len() implies b.skip(1)[i] != 92 by {
            assert(b[i + 1] != 92);
        }
        law_plain_bytes_are_not_changed(b.skip(1));
        assert(seq![b[0]] + b.skip(1) == b);
    }
}

/// A name in a directory stands behind it and one slash.
pub proof fn law_paths(dir: Seq<char>, name: Seq<char>)
    ensures
        path_join(Seq::empty(), name) == name,
        dir.len() > 0 && dir.last() == '/' ==> path_join(dir, name) == dir + name,
        dir.len() > 0 && dir.last() != '/' ==> path_join(dir, name) == dir.push('/') + name,
{
    reveal_strlit("/");
    assert(dir + "/"@ + name == dir.push('/') + name);
}

/// An escape is a backslash, an x and two digits to the base of sixteen, and stands for
/// the byte of that number; any other byte stands for itself.
pub proof fn law_escapes(high: u8, low: u8, b: u8, rest: Seq<u8>)
    requires
        48 <= high <= 57 || 97 <= high <= 102,
        48 <= low <= 57 || 97 <= low <= 102,
        b != 92,
    ensures
        ({
            let value = |d: u8|
                if d <= 57 {
                    d - 48
                } else {
                    d - 87
                };
            unescape(seq![92u8, 120, high, low] + rest) == seq![
                (16 * value(high) + value(low)) as u8,
            ] + unescape(rest)
        }),
        unescape(seq![b] + rest) == seq![b] + unescape(rest),
        unescape(Seq::empty()) == Seq::<u8>::empty(),
{
    let s = seq![92u8, 120, high, low] + rest;
    assert(s[0] == 92 && s[1] == 120 && s[2] == high && s[3] == low);
    assert(s.skip(4) == rest);
    assert((seq![b] + rest).skip(1) == rest);
}

/// A unit of a launcher tells the application: `app-`, the launcher, a dash, the
/// identifier, a dash, and letters or digits, as a scope or a slice.
pub proof fn law_launched_units_are_read(
    launcher: Seq<char>,
    id: Seq<char>,
    tail: Seq<char>,
    slice: bool,
)
    requires
        launcher.len() > 0,
        forall|i: int| 0 <= i < launcher.len() ==> text::is_alnum(#[trigger] launcher[i]),
        id.len() > 0,
        forall|i: int| 0 <= i < id.len() ==> #[trigger] id[i] != '-',
        forall|i: int| 0 <= i < tail.len() ==> text::is_alnum(#[trigger] tail[i]),
        !vstd::utf8::encode_utf8(id).contains(92),
    ensures
        app_id_of(
            "app-"@ + launcher + seq!['-'] + id + seq!['-'] + tail + if slice {
                ".slice"@
            } else {
                ".scope"@
            },
        ) == Some(id),
{
    reveal_strlit("app-");
    reveal_strlit(".scope");
    reveal_strlit(".slice");
    let end = if slice {
        ".slice"@
    } else {
        ".scope"@
    };
    assert(".scope"@[2] == 'c' && ".slice"@[2] == 'l');
    let unit = "app-"@ + launcher + seq!['-'] + id + seq!['-'] + tail + end;
    let rest = id + seq!['-'] + tail;
    let body = launcher + seq!['-'] + rest;
    assert(unit.take(4) == "app-"@);
    assert(unit.skip(4) == body + end);
    let after = unit.skip(4);
    assert(after.skip(after.len() - 6) == end);
    assert(after.take(after.len() - 6) == body);
    assert(unit_body(unit) == Some((UnitForm::Scope, body)));
    let k = launcher.len() as int;
    assert(body[k] == '-');
    assert forall|i: int| 0 <= i < k implies text::is_alnum(#[trigger] body[i]) by {
        assert(body[i] == launcher[i]);
    }
    lemma_alnum_run(body, k);
    assert(body.skip(k + 1) == rest);
    assert(after_launcher(body) == Some(rest));
    let n = id.len() as int;
    assert(rest[n] == '-');
    assert(rest.skip(n).skip(1) == tail);
    assert(rest.skip(n)[0] == '-');
    assert(is_tail(UnitForm::Scope, rest.skip(n)));
    assert forall|j: int| 1 <= j < n implies !is_tail(UnitForm::Scope, #[trigger] rest.skip(j)) by {
        assert(rest.skip(j)[0] == id[j]);
    }
    lemma_id_end(UnitForm::Scope, rest, 1, n);
    assert(rest.take(n) == id);
    assert(id_in(UnitForm::Scope, body) == Some(id));
    law_plain_bytes_are_not_changed(vstd::utf8::encode_utf8(id));
    vstd::utf8::encode_utf8_valid_utf8(id);
    vstd::utf8::encode_utf8_decode_utf8(id);
}

/// A process moves unless its unit is one of its own application; one without a unit
/// moves.
pub proof fn law_who_moves(unit: Seq<char>, id: Seq<char>)
    ensures
        must_migrate(None, id),
        must_migrate(Some(unit), id) <==> app_id_of(unit) != Some(id),
{
}

/// The name of a scope of our own.
pub proof fn law_the_name_of_our_scope(id: Seq<char>, pid: u32)
    ensures
        scope_of(id, pid) == seq!['a', 'p', 'p', '-'] + id + seq!['-'] + text::decimal(pid as nat)
            + seq!['.', 's', 'c', 'o', 'p', 'e'],
{
    reveal_strlit("app-");
    reveal_strlit("-");
    reveal_strlit(".scope");
    assert("app-"@ == seq!['a', 'p', 'p', '-']);
    assert("-"@ == seq!['-']);
    assert(".scope"@ == seq!['.', 's', 'c', 'o', 'p', 'e']);
}

/// The unit of a process is the last name in the path of its `0::` line; other lines make
/// no difference.
pub proof fn law_the_unit_is_the_leaf(path: Seq<char>, leaf: Seq<char>, rest: Seq<char>, other: Seq<char>)
    requires
        !path.contains('\n'),
        path.len() == 0 || !text::is_white(path[0]),
        text::is_word(leaf),
        !leaf.contains('\n'),
        !leaf.contains('/'),
        !other.contains('\n'),
        other.len() > 0,
        other[0] != '0',
    ensures
        unit_of(seq!['0', ':', ':'] + path + seq!['/'] + leaf + seq!['\n'] + rest) == Some(leaf),
        unit_of(other + seq!['\n'] + rest) == unit_of(rest),
{
    reveal_strlit("0::");
    let zero = seq!['0', ':', ':'];
    assert("0::"@ == zero);
    let p = path + seq!['/'] + leaf;
    let line = zero + p;
    assert(!line.contains('\n')) by {
        if line.contains('\n') {
            let i = choose|i: int| 0 <= i < line.len() && line[i] == '\n';
            if i >= 3 && i < 3 + path.len() {
                assert(path[i - 3] == '\n');
            } else if i > 3 + path.len() {
                assert(leaf[i - 4 - path.len()] == '\n');
            }
        }
    }
    text::law_lines(line, rest);
    let all = seq!['0', ':', ':'] + path + seq!['/'] + leaf + seq!['\n'] + rest;
    assert(all == line.push('\n') + rest);
    assert(line.last() == leaf[leaf.len() - 1]);
    assert(!text::is_white(leaf[leaf.len() - 1]));
    assert(line.last() != '\r');
    let ls = seq![line] + text::lines(rest);
    assert(text::lines(all) == ls);
    assert(ls[0] == line);
    assert(line.take(3) == zero);
    assert(line.skip(3) == p);
    assert(p.last() == leaf[leaf.len() - 1]);
    assert(path.len() > 0 ==> p[0] == path[0]);
    text::lemma_trim_tight(p);
    assert(text::trim(p) == p);
    text::lemma_split_between(path, leaf, '/');
    assert(path.push('/') + leaf == p);
    let e = Seq::<char>::empty();
    text::lemma_split_append(e, leaf, '/');
    assert(e + leaf == leaf);
    assert(text::split(e, '/') == seq![e]);
    assert(text::split(leaf, '/') == seq![leaf]);
    assert(text::split(p, '/').last() == leaf);
    assert(!text::is_white(leaf[0]));
    text::lemma_trim_tight(leaf);
    text::law_lines(other, rest);
    let o = if other.last() == '\r' {
        other.drop_last()
    } else {
        other
    };
    assert(other + seq!['\n'] + rest == other.push('\n') + rest);
    let os = seq![o] + text::lines(rest);
    assert(os[0] == o);
    assert(os.skip(1) == text::lines(rest));
    assert(!text::starts(o, "0::"@)) by {
        if text::starts(o, "0::"@) {
            assert(o.take(3)[0] == o[0]);
            assert(o[0] == other[0]);
        }
    }
}

/// The program of a desktop entry: the first word of its command, or what stands in
/// quotation marks at its front.
pub proof fn law_programs(p: Seq<char>, rest: Seq<char>)
    requires
        p.len() > 0,
    ensures
        !p.contains('"') ==> program_of(seq!['"'] + p + seq!['"'] + rest) == p,
        text::is_word(p) && p[0] != '"' ==> program_of(p + seq![' '] + rest) == p && program_of(p) == p,
        program_of(Seq::empty()) == Seq::<char>::empty(),
{
    let q = seq!['"'] + p + seq!['"'] + rest;
    let e = Seq::<char>::empty();
    if !p.contains('"') {
        assert(q[0] == '"');
        assert(q.skip(1) == p.push('"') + rest);
        text::lemma_split_between(p, rest, '"');
        text::lemma_split_append(e, p, '"');
        assert(e + p == p);
        assert(text::split(e, '"') == seq![e]);
        assert(text::split(p, '"') == seq![p]);
    }
    if text::is_word(p) && p[0] != '"' {
        let s = p + seq![' '] + rest;
        assert(s[0] == p[0]);
        crate::clipboard::tidy::lemma_words_between(p, ' ', rest);
        assert(s == p.push(' ') + rest);
        text::lemma_words_push(e, p);
        assert(text::words(p) == seq![p]);
        assert(text::words(s)[0] == p);
    }
    crate::clipboard::tidy::lemma_tidy_stays(e);
    assert(text::words(e).len() == 0) by {
        text::lemma_words_join(Seq::empty());
        assert(text::join(Seq::<Seq<char>>::empty(), seq![' ']) == e);
    }
}

/// The command of a desktop entry is that of its first `Exec` key in the group
/// `[Desktop Entry]`: a group decides for the lines behind it, and lines that are neither
/// make no difference.
pub proof fn law_the_command_of_an_entry(line: Seq<char>, rest: Seq<Seq<char>>, in_entry: bool)
    ensures
        entry_exec(Seq::empty(), in_entry) is None,
        text::trim(line) == "[Desktop Entry]"@ ==> entry_exec(seq![line] + rest, in_entry)
            == entry_exec(rest, true),
        group_of(text::trim(line)) matches Some(g) ==> (g != "Desktop Entry"@ ==> entry_exec(
            seq![line] + rest,
            in_entry,
        ) == entry_exec(rest, false)),
        group_of(text::trim(line)) is None && exec_value(text::trim(line)) is None ==> entry_exec(
            seq![line] + rest,
            in_entry,
        ) == entry_exec(rest, in_entry),
        group_of(text::trim(line)) is None && exec_value(text::trim(line)) is Some ==> entry_exec(
            seq![line] + rest,
            in_entry,
        ) == if in_entry {
            exec_value(text::trim(line))
        } else {
            entry_exec(rest, in_entry)
        },
{
    let all = seq![line] + rest;
    assert(all[0] == line);
    assert(all.skip(1) == rest);
    reveal_strlit("[Desktop Entry]");
    reveal_strlit("Desktop Entry");
    if text::trim(line) == "[Desktop Entry]"@ {
        let t = text::trim(line);
        assert(t[0] == '[' && t.last() == ']');
        assert(t.subrange(1, t.len() - 1) =~= "Desktop Entry"@);
    }
}

/// A key and a value have an equals sign between them, and a comment is neither.
pub proof fn law_exec_lines(value: Seq<char>, line: Seq<char>)
    ensures
        exec_value(seq!['E', 'x', 'e', 'c', '='] + value) == Some(text::trim(value)),
        line.len() > 0 && line[0] == '#' ==> exec_value(line) is None,
        !line.contains('=') ==> exec_value(line) is None,
{
    reveal_strlit("#");
    reveal_strlit("Exec");
    let key = seq!['E', 'x', 'e', 'c'];
    let l = seq!['E', 'x', 'e', 'c', '='] + value;
    assert("Exec"@ == key);
    assert("#"@ == seq!['#']);
    assert(l == key + seq!['='] + value);
    assert(l[0] == 'E');
    assert(!text::starts(l, "#"@)) by {
        if text::starts(l, "#"@) {
            assert(l.take(1)[0] == l[0]);
        }
    }
    text::lemma_index_of(key, '=', value);
    assert(l.take(4) == key);
    assert(l.skip(5) == value);
    text::lemma_trim_tight(key);
    if line.len() > 0 && line[0] == '#' {
        assert(line.take(1) == "#"@);
    }
    if !line.contains('=') {
        text::law_the_first_is_found(line, seq!['=']);
        if let Some(k) = text::index_of(line, '=') {
            assert(line.subrange(k, k + 1)[0] == line[k]);
            assert(line.contains('='));
        }
    }
}

/// A program with a slash is looked for there alone, and any other in every directory, in
/// their order.
pub proof fn law_where_programs_are_looked_for(argv0: Seq<char>, dirs: Seq<Seq<char>>)
    ensures
        argv0.contains('/') ==> program_paths(argv0, dirs) == seq![argv0],
        !argv0.contains('/') ==> program_paths(argv0, dirs).len() == dirs.len() && forall|i: int|
            0 <= i < dirs.len() ==> #[trigger] program_paths(argv0, dirs)[i] == path_join(
                dirs[i],
                argv0,
            ),
{
}

/// Where desktop entries are: in the user's directory, or the one below the home, and
/// then in those of the system, or the two usual ones.
pub proof fn law_where_entries_are(home: Seq<char>, own: Seq<char>, a: Seq<char>, b: Seq<char>)
    requires
        own.len() > 0,
        a.len() > 0,
        b.len() > 0,
        !a.contains(':'),
        !b.contains(':'),
    ensures
        data_dirs(Some(own), Some(home), None) == seq![own, "/usr/local/share"@, "/usr/share"@],
        data_dirs(None, Some(home), None) == seq![
            path_join(home, ".local/share"@),
            "/usr/local/share"@,
            "/usr/share"@,
        ],
        data_dirs(None, None, None) == seq!["/usr/local/share"@, "/usr/share"@],
        data_dirs(Some(own), None, Some(a.push(':') + b)) == seq![own, a, b],
{
    let e = Seq::<char>::empty();
    text::lemma_split_between(a, b, ':');
    text::lemma_split_append(e, a, ':');
    text::lemma_split_append(e, b, ':');
    assert(e + a == a && e + b == b);
    assert(text::split(e, ':') == seq![e]);
    assert(text::split(a, ':') == seq![a]);
    assert(text::split(b, ':') == seq![b]);
    let p = seq![a] + seq![b];
    reveal(Seq::filter);
    assert(p.drop_last() == seq![a]);
    assert(seq![a].drop_last() == Seq::<Seq<char>>::empty());
    assert(text::non_empty(Seq::<Seq<char>>::empty()) == Seq::<Seq<char>>::empty());
    assert(text::non_empty(seq![a]) == seq![a]);
    assert(text::non_empty(p) == seq![a, b]);
    assert(data_dirs(Some(own), None, Some(a.push(':') + b)) =~= seq![own, a, b]);
    assert(data_dirs(Some(own), Some(home), None) =~= seq![
        own,
        "/usr/local/share"@,
        "/usr/share"@,
    ]);
    assert(data_dirs(None, Some(home), None) =~= seq![
        path_join(home, ".local/share"@),
        "/usr/local/share"@,
        "/usr/share"@,
    ]);
    assert(data_dirs(None, None, None) =~= seq!["/usr/local/share"@, "/usr/share"@]);
}

/// The program of an entry is that of its command, where there is one.
pub proof fn law_the_program_of_an_entry(content: Seq<char>)
    ensures
        match entry_exec(text::lines(content), false) {
            Some(v) => (program_of(v).len() > 0 ==> argv0_of(content) == Some(program_of(v))) && (
            program_of(v).len() == 0 ==> argv0_of(content) is None),
            None => argv0_of(content) is None,
        },
        argv0_of(content) is None ==> refusal(content)
            == "no Exec key in its [Desktop Entry] group (GLib rejects the file)"@,
        argv0_of(content) matches Some(p) ==> refusal(content) == "its Exec argv0 '"@ + p
            + "' does not resolve to an executable, so GLib rejects the file (and the portal the app id)"@,
{
}

/// Bytes that are a text are read as that text.
pub proof fn law_bytes_of_a_text(s: Seq<char>)
    ensures
        text_of_bytes(vstd::utf8::encode_utf8(s)) == s,
{
    vstd::utf8::encode_utf8_valid_utf8(s);
    vstd::utf8::encode_utf8_decode_utf8(s);
}

/// A service of a launcher tells the application as well: the identifier stands behind the
/// launcher and a dash, and nothing, an instance or `-autostart` follows it.
pub proof fn law_launched_services_are_read(launcher: Seq<char>, id: Seq<char>, end: Seq<char>)
    requires
        launcher.len() > 0,
        forall|i: int| 0 <= i < launcher.len() ==> text::is_alnum(#[trigger] launcher[i]),
        id.len() > 0,
        forall|i: int| 0 <= i < id.len() ==> #[trigger] id[i] != '-' && id[i] != '@',
        end.len() == 0 || end == "-autostart"@ || (end[0] == '@' && forall|i: int|
            1 <= i < end.len() ==> text::is_alnum(#[trigger] end[i])),
        !vstd::utf8::encode_utf8(id).contains(92),
    ensures
        app_id_of("app-"@ + launcher + seq!['-'] + id + end + ".service"@) == Some(id),
{
    reveal_strlit("app-");
    reveal_strlit(".scope");
    reveal_strlit(".slice");
    reveal_strlit(".service");
    reveal_strlit("-autostart");
    let unit = "app-"@ + launcher + seq!['-'] + id + end + ".service"@;
    let rest = id + end;
    let body = launcher + seq!['-'] + rest;
    assert(unit.take(4) == "app-"@);
    assert(unit.skip(4) == body + ".service"@);
    let after = unit.skip(4);
    assert(after.skip(after.len() - 6)[0] == 'e');
    assert(!text::ends(after, ".scope"@) && !text::ends(after, ".slice"@));
    assert(after.skip(after.len() - 8) == ".service"@);
    assert(after.take(after.len() - 8) == body);
    assert(unit_body(unit) == Some((UnitForm::Service, body)));
    let k = launcher.len() as int;
    assert(body[k] == '-');
    assert forall|i: int| 0 <= i < k implies text::is_alnum(#[trigger] body[i]) by {
        assert(body[i] == launcher[i]);
    }
    lemma_alnum_run(body, k);
    assert(body.skip(k + 1) == rest);
    assert(after_launcher(body) == Some(rest));
    let n = id.len() as int;
    assert(rest.skip(n) == end);
    assert(is_tail(UnitForm::Service, end)) by {
        if end.len() > 0 && end[0] == '@' {
            assert forall|i: int| 0 <= i < end.skip(1).len() implies text::is_alnum(
                #[trigger] end.skip(1)[i],
            ) by {
                assert(end.skip(1)[i] == end[i + 1]);
            }
        }
    }
    assert forall|j: int| 1 <= j < n implies !is_tail(UnitForm::Service, #[trigger] rest.skip(j)) by {
        assert(rest.skip(j)[0] == id[j]);
    }
    lemma_id_end(UnitForm::Service, rest, 1, n);
    assert(rest.take(n) == id);
    assert(id_in(UnitForm::Service, body) == Some(id));
    law_plain_bytes_are_not_changed(vstd::utf8::encode_utf8(id));
    law_bytes_of_a_text(id);
}

} // verus!
