//! What a panic leaves in the log.

use std::any::Any;
use tiro::report::{panic_line, payload_str, Location};

fn read(payload: &dyn Any) -> &str {
    payload_str(
        payload.downcast_ref::<&str>().copied(),
        payload.downcast_ref::<String>().map(String::as_str),
    )
}

#[test]
fn payload_str_covers_panic_shapes() {
    let s: Box<dyn Any> = Box::new("boom");
    assert_eq!(read(s.as_ref()), "boom");
    let s: Box<dyn Any> = Box::new(String::from("boom 42"));
    assert_eq!(read(s.as_ref()), "boom 42");
    let s: Box<dyn Any> = Box::new(42_u32);
    assert_eq!(read(s.as_ref()), "<non-string panic payload>");
}

#[test]
fn a_panic_leaves_a_line() {
    let at = Some(Location {
        file: "src/a.rs".to_string(),
        line: 12,
        column: 5,
    });
    assert_eq!(
        panic_line("2026-07-27 10:00:00", &at, "boom"),
        "PANIC 2026-07-27 10:00:00 at src/a.rs:12:5: boom"
    );
    assert_eq!(
        panic_line("now", &None, "boom"),
        "PANIC now at <unknown location>: boom"
    );
}
