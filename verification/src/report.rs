//! What is left of a panic in the log.

use crate::text;
use vstd::prelude::*;

verus! {

/// The payload of a panic as text: it carries a literal or an owned text, or
/// something that cannot be read.
pub fn payload_str<'a>(literal: Option<&'a str>, owned: Option<&'a str>) -> (r: &'a str)
    ensures
        r@ == match (literal, owned) {
            (Some(s), _) => s@,
            (None, Some(s)) => s@,
            (None, None) => "<non-string panic payload>"@,
        },
{
    match literal {
        Some(s) => s,
        None => match owned {
            Some(s) => s,
            None => "<non-string panic payload>",
        },
    }
}

/// Where a panic happened.
#[derive(Debug, PartialEq, Eq)]
pub struct Location {
    pub file: String,
    pub line: u32,
    pub column: u32,
}

/// A place in the source, as a text.
pub open spec fn place(at: Option<Location>) -> Seq<char> {
    match at {
        Some(l) => l.file@ + ":"@ + text::decimal(l.line as nat) + ":"@ + text::decimal(
            l.column as nat,
        ),
        None => "<unknown location>"@,
    }
}

/// The line that a panic leaves in the log.
pub fn panic_line(time: &str, at: &Option<Location>, message: &str) -> (r: String)
    ensures
        r@ == "PANIC "@ + time@ + " at "@ + place(*at) + ": "@ + message@,
{
    let mut out = text::chars_of("PANIC ");
    text::extend_str(&mut out, time);
    text::extend_str(&mut out, " at ");
    let ghost head = out@;
    match at {
        Some(l) => {
            text::extend_str(&mut out, l.file.as_str());
            text::extend_str(&mut out, ":");
            let line = text::decimal_of(l.line as u64);
            text::extend(&mut out, line.as_slice());
            text::extend_str(&mut out, ":");
            let column = text::decimal_of(l.column as u64);
            text::extend(&mut out, column.as_slice());
        },
        None => {
            text::extend_str(&mut out, "<unknown location>");
        },
    }
    assert(out@ == head + place(*at));
    text::extend_str(&mut out, ": ");
    text::extend_str(&mut out, message);
    text::string_of(out.as_slice())
}

// ---- laws -------------------------------------------------------------------

/// A place is the file, the line and the column, with colons between them.
pub proof fn law_places(l: Location)
    ensures
        place(Some(l)) == l.file@ + seq![':'] + text::decimal(l.line as nat) + seq![':']
            + text::decimal(l.column as nat),
        place(None) == "<unknown location>"@,
{
    reveal_strlit(":");
    assert(":"@ == seq![':']);
}

} // verus!
