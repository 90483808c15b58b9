//! The parent's side of the GPU worker: what it is started with, the frames
//! that go back and forth, and what each answer means.
//!
//! A frame is its length in four bytes, the lowest first, and its payload. A
//! request carries a JSON header as its payload, and the samples follow it.

use crate::json::{self, Field};
use crate::text;
use vstd::prelude::*;

verus! {

/// How long a worker whose model is there may take to be ready, in seconds.
pub const READY_TIMEOUT_CACHED: u64 = 30;

/// How long a worker that may have to download its model may take to be ready,
/// in seconds.
pub const READY_TIMEOUT_DOWNLOAD: u64 = 120;

/// How long a worker may take to leave by itself, in nanoseconds.
pub const STOP_GRACE_NS: u64 = 3_000_000_000;

/// How long to wait between two looks at a leaving worker, in milliseconds.
pub const STOP_POLL_MS: u64 = 50;

// ---- bytes ------------------------------------------------------------------

/// The four bytes of `n`, the lowest first.
pub open spec fn le32(n: u32) -> Seq<u8> {
    seq![
        (n % 256) as u8,
        (n / 256 % 256) as u8,
        (n / 65536 % 256) as u8,
        (n / 16777216 % 256) as u8,
    ]
}

/// The number of which `b` holds the four bytes, the lowest first.
pub open spec fn from_le32(b: Seq<u8>) -> int {
    b[0] + 256 * b[1] + 65536 * b[2] + 16777216 * b[3]
}

/// A number's four bytes give it back.
pub proof fn law_le32_reads_back(n: u32)
    ensures
        le32(n).len() == 4,
        from_le32(le32(n)) == n,
{
}

/// The four bytes of `n`, the lowest first.
pub fn u32_bytes(n: u32) -> (r: Vec<u8>)
    ensures
        r@ == le32(n),
{
    let mut r: Vec<u8> = Vec::new();
    r.push((n % 256) as u8);
    r.push((n / 256 % 256) as u8);
    r.push((n / 65536 % 256) as u8);
    r.push((n / 16777216 % 256) as u8);
    assert(r@ == le32(n));
    r
}

/// The number of which `b` holds the four bytes, the lowest first.
pub fn bytes_u32(b: &[u8]) -> (r: u32)
    requires
        b@.len() == 4,
    ensures
        r == from_le32(b@),
{
    b[0] as u32 + 256 * b[1] as u32 + 65536 * b[2] as u32 + 16777216 * b[3] as u32
}

/// The payload with its length in front.
pub open spec fn framed(payload: Seq<u8>) -> Seq<u8> {
    le32(payload.len() as u32) + payload
}

/// The payload with its length in front; only the lowest four bytes of the
/// length count.
pub fn frame(payload: &Vec<u8>) -> (r: Vec<u8>)
    ensures
        r@ == framed(payload@),
{
    let mut r = u32_bytes(payload.len() as u32);
    for i in 0..payload.len()
        invariant
            r@ == le32(payload@.len() as u32) + payload@.take(i as int),
    {
        r.push(payload[i]);
        assert(payload@.take(i + 1) == payload@.take(i as int).push(payload@[i as int]));
    }
    assert(payload@.take(payload@.len() as int) == payload@);
    r
}

/// The bytes of samples, each given by the 32 bits of its number, the lowest
/// byte first.
pub open spec fn pcm(samples: Seq<u32>) -> Seq<u8>
    decreases samples.len(),
{
    if samples.len() == 0 {
        Seq::empty()
    } else {
        pcm(samples.drop_last()) + le32(samples.last())
    }
}

/// The bytes of samples, each given by the 32 bits of its number.
pub fn pcm_bytes(samples: &[u32]) -> (r: Vec<u8>)
    ensures
        r@ == pcm(samples@),
{
    let mut r: Vec<u8> = Vec::new();
    for i in 0..samples.len()
        invariant
            r@ == pcm(samples@.take(i as int)),
    {
        assert(samples@.take(i + 1).drop_last() == samples@.take(i as int));
        let n: u32 = samples[i];
        r.push((n % 256) as u8);
        r.push((n / 256 % 256) as u8);
        r.push((n / 65536 % 256) as u8);
        r.push((n / 16777216 % 256) as u8);
        assert(r@ == pcm(samples@.take(i as int)) + le32(n));
    }
    assert(samples@.take(samples@.len() as int) == samples@);
    r
}

/// The samples of which `b` holds the bytes; what is left over behind the last
/// whole sample does not count.
pub open spec fn samples_in(b: Seq<u8>) -> Seq<u32> {
    Seq::new(b.len() / 4, |i: int| from_le32(b.subrange(4 * i, 4 * i + 4)) as u32)
}

/// The samples of which `b` holds the bytes, each given by the 32 bits of its
/// number.
pub fn pcm_samples(b: &[u8]) -> (r: Vec<u32>)
    ensures
        r@ == samples_in(b@),
{
    let mut r: Vec<u32> = Vec::new();
    let len: usize = b.len();
    let n: usize = len / 4;
    for i in 0..n
        invariant
            len == b@.len(),
            n == len / 4,
            r@ == samples_in(b@).take(i as int),
    {
        let part = vstd::slice::slice_subrange(b, 4 * i, 4 * i + 4);
        r.push(bytes_u32(part));
        assert(samples_in(b@).take(i + 1) == samples_in(b@).take(i as int).push(
            samples_in(b@)[i as int],
        ));
    }
    assert(samples_in(b@).take(n as int) == samples_in(b@));
    r
}

// ---- starting ---------------------------------------------------------------

/// What the worker is started with.
pub open spec fn worker_argv(
    model: Seq<char>,
    models_dir: Seq<char>,
    compute_type: Seq<char>,
    device: Seq<char>,
) -> Seq<Seq<char>> {
    seq![
        "--gpu-worker"@,
        "--model"@,
        model,
        "--models-dir"@,
        models_dir,
        "--compute-type"@,
        compute_type,
        "--device"@,
        device,
    ]
}

/// What the worker is started with.
pub fn worker_args(model: &str, models_dir: &str, compute_type: &str, device: &str) -> (r: Vec<
    String,
>)
    ensures
        text::texts(r@) == worker_argv(model@, models_dir@, compute_type@, device@),
{
    let mut r: Vec<String> = Vec::new();
    r.push("--gpu-worker".to_string());
    r.push("--model".to_string());
    r.push(model.to_string());
    r.push("--models-dir".to_string());
    r.push(models_dir.to_string());
    r.push("--compute-type".to_string());
    r.push(compute_type.to_string());
    r.push("--device".to_string());
    r.push(device.to_string());
    assert(text::texts(r@) == worker_argv(model@, models_dir@, compute_type@, device@));
    r
}

/// What came from the worker.
#[derive(Debug, PartialEq, Eq)]
pub enum Frame {
    /// Its readiness line.
    Ready(Vec<(String, Field)>),
    /// An answer to a request.
    Response(Vec<(String, Field)>),
    /// Nothing more will come: why.
    Dead(String),
}

/// How a wait for the worker ended.
#[derive(Debug, PartialEq, Eq)]
pub enum Wait {
    /// Something came.
    Got(Frame),
    /// The time was over.
    Timeout,
    /// The thread that reads from the worker is gone.
    Disconnected,
}

/// What the worker's first line means; `None` where it left without one.
pub fn ready_frame(line: Option<&str>) -> (r: Frame)
    ensures
        match line {
            None => r matches Frame::Dead(e) && e@ == "worker exited before ready"@,
            Some(l) => match json::object_of(vstd::utf8::encode_utf8(text::trim(l@))) {
                Ok(o) => r matches Frame::Ready(v) && json::fields_view(v@) == o,
                Err(why) => r matches Frame::Dead(e) && e@ == "bad ready line: "@ + why,
            },
        },
{
    match line {
        None => Frame::Dead("worker exited before ready".to_string()),
        Some(l) => {
            let c = text::chars_of(l);
            let t = text::string_of(text::trimmed(c.as_slice()));
            match json::read_object(t.as_str().as_bytes()) {
                Ok(v) => Frame::Ready(v),
                Err(why) => {
                    let mut e = text::chars_of("bad ready line: ");
                    text::extend_str(&mut e, why.as_str());
                    Frame::Dead(text::string_of(e.as_slice()))
                },
            }
        },
    }
}

/// How many bytes of payload follow, from the four bytes in front of them, or
/// why there are none.
pub fn frame_length(len: Result<[u8; 4], String>) -> (r: Result<u32, String>)
    ensures
        match len {
            Ok(b) => r matches Ok(n) && n == from_le32(b@),
            Err(why) => r matches Err(e) && e@ == "worker stdout closed: "@ + why@,
        },
{
    match len {
        Ok(b) => Ok(bytes_u32(&b)),
        Err(why) => {
            let mut e = text::chars_of("worker stdout closed: ");
            text::extend_str(&mut e, why.as_str());
            Err(text::string_of(e.as_slice()))
        },
    }
}

/// What the payload of a frame means, or why there is none.
pub fn response_frame(payload: Result<Vec<u8>, String>) -> (r: Frame)
    ensures
        match payload {
            Ok(b) => match json::object_of(b@) {
                Ok(o) => r matches Frame::Response(v) && json::fields_view(v@) == o,
                Err(why) => r matches Frame::Dead(e) && e@ == "bad worker frame: "@ + why,
            },
            Err(why) => r matches Frame::Dead(e) && e@ == "worker stdout closed mid-frame: "@
                + why@,
        },
{
    match payload {
        Ok(b) => match json::read_object(b.as_slice()) {
            Ok(v) => Frame::Response(v),
            Err(why) => {
                let mut e = text::chars_of("bad worker frame: ");
                text::extend_str(&mut e, why.as_str());
                Frame::Dead(text::string_of(e.as_slice()))
            },
        },
        Err(why) => {
            let mut e = text::chars_of("worker stdout closed mid-frame: ");
            text::extend_str(&mut e, why.as_str());
            Frame::Dead(text::string_of(e.as_slice()))
        },
    }
}

/// Why a worker is not ready; nothing where it is.
pub open spec fn not_ready(w: Wait, timeout: u64) -> Option<Seq<char>> {
    match w {
        Wait::Got(Frame::Ready(v)) => {
            let o = json::fields_view(v@);
            if json::flag(o, "ready"@) == Some(true) {
                None
            } else {
                Some(
                    match json::string(o, "error"@) {
                        Some(e) => e,
                        None => "unknown load failure"@,
                    },
                )
            }
        },
        Wait::Got(Frame::Dead(e)) => Some(e@),
        Wait::Got(Frame::Response(_)) => Some("worker sent a frame before ready"@),
        Wait::Timeout => Some("worker not ready within "@ + text::decimal(timeout as nat) + "s"@),
        Wait::Disconnected => Some("worker reader died"@),
    }
}

/// Whether a worker is ready to serve, after waiting up to `timeout` seconds;
/// otherwise it is stopped, and this says why.
pub fn await_ready(w: Wait, timeout: u64) -> (r: Result<(), String>)
    ensures
        match r {
            Ok(()) => not_ready(w, timeout) is None,
            Err(e) => not_ready(w, timeout) == Some(e@),
        },
{
    match w {
        Wait::Got(Frame::Ready(v)) => {
            if let Some(true) = json::get_bool(&v, "ready") {
                Ok(())
            } else {
                match json::get_str(&v, "error") {
                    Some(e) => Err(e.to_string()),
                    None => Err("unknown load failure".to_string()),
                }
            }
        },
        Wait::Got(Frame::Dead(e)) => Err(e),
        Wait::Got(Frame::Response(_)) => Err("worker sent a frame before ready".to_string()),
        Wait::Timeout => {
            let mut e = text::chars_of("worker not ready within ");
            let d = text::decimal_of(timeout);
            text::extend(&mut e, d.as_slice());
            text::extend_str(&mut e, "s");
            Err(text::string_of(e.as_slice()))
        },
        Wait::Disconnected => Err("worker reader died".to_string()),
    }
}

// ---- a request --------------------------------------------------------------

/// The header of a request.
pub open spec fn header_of(samples: u64, beam: u64, vocab: Option<Seq<char>>) -> Seq<
    (Seq<char>, json::FieldView),
> {
    seq![
        ("samples"@, json::FieldView::Number(Some(samples))),
        ("beam"@, json::FieldView::Number(Some(beam))),
        (
            "vocab"@,
            match vocab {
                Some(v) => json::FieldView::Text(v),
                None => json::FieldView::Null,
            },
        ),
        ("language"@, json::FieldView::Text("en"@)),
    ]
}

/// The four keys of a header are four.
proof fn lemma_header_is_plain(samples: u64, beam: u64, vocab: Option<Seq<char>>)
    ensures
        json::is_plain(header_of(samples, beam, vocab)),
{
    reveal_strlit("samples");
    reveal_strlit("beam");
    reveal_strlit("vocab");
    reveal_strlit("language");
    assert("samples"@.len() == 7 && "beam"@.len() == 4 && "vocab"@.len() == 5 && "language"@.len()
        == 8);
}

/// The bytes of a request: the framed header, then the samples, each given by
/// the 32 bits of its number.
pub fn request(samples: &[u32], beam: u64, vocab: Option<&str>) -> (r: Vec<u8>)
    ensures
        ({
            let o = header_of(samples@.len() as u64, beam, text::opt_str(vocab));
            let header = json::object_bytes(o);
            r@ == framed(header) + pcm(samples@) && json::spells(header, o)
        }),
{
    let n: u64 = samples.len() as u64;
    let mut fields: Vec<(String, Field)> = Vec::new();
    fields.push(("samples".to_string(), Field::Number(Some(n))));
    fields.push(("beam".to_string(), Field::Number(Some(beam))));
    match vocab {
        Some(v) => fields.push(("vocab".to_string(), Field::Text(v.to_string()))),
        None => fields.push(("vocab".to_string(), Field::Null)),
    }
    fields.push(("language".to_string(), Field::Text("en".to_string())));
    let ghost o = header_of(n, beam, text::opt_str(vocab));
    proof {
        assert(json::fields_view(fields@) == o);
        lemma_header_is_plain(n, beam, text::opt_str(vocab));
    }
    let header = json::write_object(&fields);
    let mut r = frame(&header);
    let tail = pcm_bytes(samples);
    let ghost front = r@;
    for i in 0..tail.len()
        invariant
            r@ == front + tail@.take(i as int),
    {
        r.push(tail[i]);
        assert(tail@.take(i + 1) == tail@.take(i as int).push(tail@[i as int]));
    }
    assert(tail@.take(tail@.len() as int) == tail@);
    r
}

/// How long the answer to a request may take, in nanoseconds: twice as long as
/// the take, and half a minute more. A take has 16000 samples in a second.
pub open spec fn answer_time(samples: nat) -> nat {
    samples * 125_000 + 30_000_000_000
}

/// How long the answer to a request of so many samples may take, in
/// nanoseconds; `None` where that is longer than a `u64` tells.
pub fn answer_timeout(samples: u64) -> (r: Option<u64>)
    ensures
        match r {
            Some(t) => t == answer_time(samples as nat),
            None => answer_time(samples as nat) > u64::MAX,
        },
{
    match samples.checked_mul(125_000) {
        Some(t) => t.checked_add(30_000_000_000),
        None => None,
    }
}

/// `ns` nanoseconds in whole seconds, rounded to the nearest, a half to the even
/// one.
pub open spec fn rounded_secs(ns: nat) -> nat {
    let whole = ns / 1_000_000_000;
    let part = ns % 1_000_000_000;
    if part > 500_000_000 || (part == 500_000_000 && whole % 2 == 1) {
        whole + 1
    } else {
        whole
    }
}

/// The texts of the segments, trimmed, without the empty ones, with one space
/// between each two.
pub open spec fn joined_segments(segments: Seq<Seq<char>>) -> Seq<char> {
    text::trim(
        text::join(
            text::non_empty(segments.map_values(|s: Seq<char>| text::trim(s))),
            " "@,
        ),
    )
}

/// The texts of the segments, trimmed, without the empty ones, with one space
/// between each two.
pub fn join_segments(segments: &Vec<String>) -> (r: String)
    ensures
        r@ == joined_segments(text::texts(segments@)),
{
    let ghost all = text::texts(segments@).map_values(|s: Seq<char>| text::trim(s));
    let mut kept: Vec<Vec<char>> = Vec::new();
    proof {
        reveal(Seq::filter);
        assert(all.take(0) == Seq::<Seq<char>>::empty());
        assert(text::pieces(kept@) == text::non_empty(all.take(0)));
    }
    for i in 0..segments.len()
        invariant
            all == text::texts(segments@).map_values(|s: Seq<char>| text::trim(s)),
            text::pieces(kept@) == text::non_empty(all.take(i as int)),
    {
        let c = text::chars_of(segments[i].as_str());
        let t = text::trimmed(c.as_slice());
        proof {
            assert(all.take(i + 1) == all.take(i as int).push(t@));
            text::lemma_non_empty_push(all.take(i as int), t@);
        }
        if t.len() > 0 {
            let ghost was = kept@;
            let piece = text::to_vec(t);
            let ghost w = piece@;
            kept.push(piece);
            assert(text::pieces(kept@) == text::pieces(was).push(w));
        }
    }
    assert(all.take(all.len() as int) == all);
    let space = text::chars_of(" ");
    let out = text::joined(&kept, space.as_slice());
    text::string_of(text::trimmed(out.as_slice()))
}

/// What the answer to a request means: the text, or why there is none.
pub open spec fn reading_of(w: Wait, timeout: u64) -> Result<Seq<char>, Seq<char>> {
    match w {
        Wait::Got(Frame::Response(v)) => {
            let o = json::fields_view(v@);
            if json::flag(o, "ok"@) == Some(true) {
                Ok(joined_segments(json::strings(o, "segments"@)))
            } else {
                Err(
                    match json::string(o, "error"@) {
                        Some(e) => e,
                        None => "worker error"@,
                    },
                )
            }
        },
        Wait::Got(Frame::Dead(e)) => Err(e@),
        Wait::Got(Frame::Ready(_)) => Err("unexpected ready frame"@),
        Wait::Timeout => Err(
            "worker timed out after "@ + text::decimal(rounded_secs(timeout as nat)) + "s"@,
        ),
        Wait::Disconnected => Err("worker reader died"@),
    }
}

/// What the answer to a request means, after waiting up to `timeout`
/// nanoseconds: the text, or why there is none. Without a text the worker is
/// lost, and the same take goes to the CPU.
pub fn read_answer(w: Wait, timeout: u64) -> (r: Result<String, String>)
    ensures
        match r {
            Ok(t) => reading_of(w, timeout) == Ok::<Seq<char>, Seq<char>>(t@),
            Err(e) => reading_of(w, timeout) == Err::<Seq<char>, Seq<char>>(e@),
        },
{
    match w {
        Wait::Got(Frame::Response(v)) => {
            if let Some(true) = json::get_bool(&v, "ok") {
                let segments = json::get_texts(&v, "segments");
                Ok(join_segments(&segments))
            } else {
                match json::get_str(&v, "error") {
                    Some(e) => Err(e.to_string()),
                    None => Err("worker error".to_string()),
                }
            }
        },
        Wait::Got(Frame::Dead(e)) => Err(e),
        Wait::Got(Frame::Ready(_)) => Err("unexpected ready frame".to_string()),
        Wait::Timeout => {
            let whole: u64 = timeout / 1_000_000_000;
            let part: u64 = timeout % 1_000_000_000;
            let secs: u64 = if part > 500_000_000 || (part == 500_000_000 && whole % 2 == 1) {
                whole + 1
            } else {
                whole
            };
            let mut e = text::chars_of("worker timed out after ");
            let d = text::decimal_of(secs);
            text::extend(&mut e, d.as_slice());
            text::extend_str(&mut e, "s");
            Err(text::string_of(e.as_slice()))
        },
        Wait::Disconnected => Err("worker reader died".to_string()),
    }
}

// ---- stopping ---------------------------------------------------------------

/// What is known of the worker's process.
#[derive(Clone, Copy, PartialEq, Eq, Structural, Debug)]
pub enum Process {
    Exited,
    Running,
    /// It could not be asked.
    Unknown,
}

/// What comes next in stopping a worker.
#[derive(Clone, Copy, PartialEq, Eq, Structural, Debug)]
pub enum StopStep {
    /// It has left.
    Gone,
    /// Wait a little and look again.
    Look,
    /// Kill it.
    Kill,
}

/// Whether a worker counts as alive: only one that is known to run.
pub fn alive(process: Process) -> (r: bool)
    ensures
        r == (process == Process::Running),
{
    process == Process::Running
}

/// What comes next in stopping a worker, so many nanoseconds after it was asked
/// to leave by closing its input. It is not asked while a request is in flight:
/// then it is killed at once.
pub fn stop_step(in_flight: bool, waited_ns: u64, process: Process) -> (r: StopStep)
    ensures
        r == if in_flight || waited_ns >= STOP_GRACE_NS || process == Process::Unknown {
            StopStep::Kill
        } else if process == Process::Exited {
            StopStep::Gone
        } else {
            StopStep::Look
        },
{
    if in_flight || waited_ns >= STOP_GRACE_NS {
        return StopStep::Kill;
    }
    match process {
        Process::Exited => StopStep::Gone,
        Process::Running => StopStep::Look,
        Process::Unknown => StopStep::Kill,
    }
}

// ---- laws -------------------------------------------------------------------

/// A frame tells its payload's length, and the payload follows: what is written
/// is read back, up to the length that four bytes tell.
pub proof fn law_frames_read_back(payload: Seq<u8>)
    requires
        payload.len() <= u32::MAX,
    ensures
        from_le32(framed(payload).take(4)) == payload.len(),
        framed(payload).skip(4) == payload,
{
    law_le32_reads_back(payload.len() as u32);
    assert(framed(payload).take(4) == le32(payload.len() as u32));
    assert(framed(payload).skip(4) == payload);
}

/// Any frame reads back, whatever follows it: behind the four bytes of the length
/// stands the payload, with the fields of the object that it spells, and behind that
/// the next frame. A frame that is cut off anywhere is noticed: its length is not all
/// there, or it announces more than there is.
pub proof fn law_frames_carry_objects(
    payload: Seq<u8>,
    o: Seq<(Seq<char>, json::FieldView)>,
    rest: Seq<u8>,
    cut: int,
)
    requires
        payload.len() <= u32::MAX,
        json::spells(payload, o),
        0 <= cut < framed(payload).len(),
    ensures
        ({
            let stream = framed(payload) + rest;
            let end = 4 + from_le32(stream.take(4));
            &&& end == framed(payload).len()
            &&& stream.subrange(4, end) == payload
            &&& json::object_of(stream.subrange(4, end)) matches Ok(p) && json::same_fields(p, o)
            &&& stream.skip(end) == rest
        }),
        cut < 4 || cut - 4 < from_le32(framed(payload).take(cut).take(4)),
{
    law_frames_read_back(payload);
    let stream = framed(payload) + rest;
    assert(stream.take(4) == framed(payload).take(4));
    assert(stream.subrange(4, framed(payload).len() as int) == payload);
    assert(stream.skip(framed(payload).len() as int) == rest);
    if cut >= 4 {
        assert(framed(payload).take(cut).take(4) == framed(payload).take(4));
    }
}

/// Samples that were written are read back, bit for bit.
pub proof fn law_samples_read_back(samples: Seq<u32>)
    ensures
        pcm(samples).len() == 4 * samples.len(),
        samples_in(pcm(samples)) == samples,
    decreases samples.len(),
{
    if samples.len() > 0 {
        let front = samples.drop_last();
        law_samples_read_back(front);
        let b = pcm(samples);
        let a = pcm(front);
        assert(b == a + le32(samples.last()));
        assert forall|i: int| 0 <= i < samples.len() implies samples_in(b)[i] == samples[i] by {
            if i < front.len() {
                assert(b.subrange(4 * i, 4 * i + 4) == a.subrange(4 * i, 4 * i + 4));
                assert(samples_in(a)[i] == front[i]);
            } else {
                assert(b.subrange(4 * i, 4 * i + 4) == le32(samples.last()));
                law_le32_reads_back(samples.last());
            }
        }
    }
    assert(samples_in(pcm(samples)) == samples);
}

/// A take is given at least twice its own length and half a minute.
pub proof fn law_answers_have_twice_the_time(secs: nat)
    ensures
        answer_time(secs * 16000) == (2 * secs + 30) * 1_000_000_000,
{
}

/// Four bytes hold a number, the lowest first.
pub proof fn law_bytes_of_a_number(n: u32, b: Seq<u8>)
    requires
        b.len() == 4,
    ensures
        le32(n)[0] + 256 * le32(n)[1] + 65_536 * le32(n)[2] + 16_777_216 * le32(n)[3] == n,
        from_le32(b) == b[0] + 256 * b[1] + 65_536 * b[2] + 16_777_216 * b[3],
        le32(n).len() == 4,
{
}

/// A frame is the number of its bytes in four bytes, and then these.
pub proof fn law_frames_announce_their_length(payload: Seq<u8>)
    requires
        payload.len() <= u32::MAX,
    ensures
        framed(payload).len() == 4 + payload.len(),
        framed(payload).take(4) == le32(payload.len() as u32),
        framed(payload).skip(4) == payload,
{
    assert(framed(payload).take(4) == le32(payload.len() as u32));
    assert(framed(payload).skip(4) == payload);
}

/// A time is reported in the nearest whole second, and between two in the even one.
pub proof fn law_seconds_are_the_nearest(ns: nat)
    ensures
        ({
            let r = rounded_secs(ns);
            &&& -500_000_000 <= r * 1_000_000_000 - ns <= 500_000_000
            &&& r * 1_000_000_000 - ns == 500_000_000 || ns - r * 1_000_000_000 == 500_000_000 ==> r % 2
                == 0
        }),
{
}

/// The segments make one text: each is trimmed, one that is blank makes no difference,
/// and one space stands between each two others.
pub proof fn law_segments_are_joined_by_spaces(segments: Seq<Seq<char>>, s: Seq<char>)
    ensures
        joined_segments(Seq::empty()) == Seq::<char>::empty(),
        text::trim(s).len() == 0 ==> joined_segments(segments.push(s)) == joined_segments(segments),
        text::trim(s).len() > 0 && joined_segments(segments).len() == 0 ==> joined_segments(
            segments.push(s),
        ) == text::trim(s),
        text::trim(s).len() > 0 && joined_segments(segments).len() > 0 ==> joined_segments(
            segments.push(s),
        ) == joined_segments(segments).push(' ') + text::trim(s),
{
    reveal_strlit(" ");
    assert(" "@ == seq![' ']);
    let f = |s: Seq<char>| text::trim(s);
    let e = Seq::<Seq<char>>::empty();
    reveal(Seq::filter);
    assert(e.map_values(f) == e);
    assert(text::join(e, " "@) == Seq::<char>::empty());
    let all = segments.map_values(f);
    assert(segments.push(s).map_values(f) == all.push(text::trim(s)));
    text::lemma_non_empty_push(all, text::trim(s));
    let kept = text::non_empty(all);
    lemma_kept_are_tight(segments);
    lemma_kept_are_tight(segments.push(s));
    lemma_joined_is_tight(kept);
    lemma_joined_is_tight(text::non_empty(all.push(text::trim(s))));
    if text::trim(s).len() > 0 {
        assert(kept.push(text::trim(s)).drop_last() == kept);
        if kept.len() > 0 {
            assert(text::join(kept, " "@) + " "@ + text::trim(s) == text::join(kept, " "@).push(' ')
                + text::trim(s));
        }
    }
}

/// Whether a text holds something, and no white space at its ends.
spec fn is_tight_text(t: Seq<char>) -> bool {
    t.len() > 0 && !text::is_white(t[0]) && !text::is_white(t.last())
}

/// What is kept of the segments has no white space at its ends.
proof fn lemma_kept_are_tight(segments: Seq<Seq<char>>)
    ensures
        ({
            let kept = text::non_empty(segments.map_values(|s: Seq<char>| text::trim(s)));
            forall|i: int| 0 <= i < kept.len() ==> is_tight_text(#[trigger] kept[i])
        }),
    decreases segments.len(),
{
    let f = |s: Seq<char>| text::trim(s);
    reveal(Seq::filter);
    if segments.len() == 0 {
        assert(segments.map_values(f).len() == 0);
    } else {
        let front = segments.drop_last();
        lemma_kept_are_tight(front);
        assert(segments.map_values(f) == front.map_values(f).push(text::trim(segments.last())));
        text::lemma_non_empty_push(front.map_values(f), text::trim(segments.last()));
        lemma_trimmed_is_tight(segments.last());
    }
}

/// A trimmed text has no white space at its ends.
proof fn lemma_trimmed_is_tight(s: Seq<char>)
    ensures
        text::trim(s).len() > 0 ==> is_tight_text(text::trim(s)),
    decreases s.len(),
{
    if s.len() > 0 {
        if text::is_white(s[0]) {
            text::lemma_trim_skip_first(s);
            lemma_trimmed_is_tight(s.skip(1));
        } else if text::is_white(s.last()) {
            text::lemma_trim_drop_last(s);
            lemma_trimmed_is_tight(s.drop_last());
        } else {
            text::lemma_trim_tight(s);
        }
    }
}

/// Joined texts without white space at their ends have none at theirs.
proof fn lemma_joined_is_tight(v: Seq<Seq<char>>)
    requires
        forall|i: int| 0 <= i < v.len() ==> is_tight_text(#[trigger] v[i]),
    ensures
        v.len() > 0 ==> is_tight_text(text::join(v, seq![' '])),
        text::trim(text::join(v, seq![' '])) == text::join(v, seq![' ']),
    decreases v.len(),
{
    let t = text::join(v, seq![' ']);
    if v.len() == 1 {
        assert(is_tight_text(v[0]));
    } else if v.len() > 1 {
        let front = v.drop_last();
        assert forall|i: int| 0 <= i < front.len() implies is_tight_text(#[trigger] front[i]) by {
            assert(is_tight_text(v[i]));
        }
        lemma_joined_is_tight(front);
        assert(is_tight_text(v[v.len() - 1]));
        let a = text::join(front, seq![' ']);
        assert(t == a + seq![' '] + v.last());
        assert(t[0] == a[0]);
        assert(t.last() == v.last().last());
    }
    if t.len() > 0 {
        text::lemma_trim_tight(t);
    }
}

/// An answer is read for what it is: the text of its segments where it says that all is
/// well, else its error; and what comes in place of one is an error that says what.
pub proof fn law_answers_say_how_it_went(w: Wait, timeout: u64)
    ensures
        match w {
            Wait::Got(Frame::Response(v)) => {
                let o = json::fields_view(v@);
                let well = json::lookup(o, "ok"@) == json::FieldView::Bool(true);
                &&& reading_of(w, timeout) is Ok <==> well
                &&& reading_of(w, timeout) matches Err(e) ==> (json::lookup(o, "error"@)
                    matches json::FieldView::Text(t) ==> e == t)
            },
            Wait::Got(Frame::Dead(e)) => reading_of(w, timeout) == Err::<Seq<char>, Seq<char>>(e@),
            _ => reading_of(w, timeout) is Err,
        },
        match w {
            Wait::Got(Frame::Ready(v)) => {
                let o = json::fields_view(v@);
                let well = json::lookup(o, "ready"@) == json::FieldView::Bool(true);
                &&& not_ready(w, timeout) is None <==> well
                &&& not_ready(w, timeout) matches Some(e) ==> (json::lookup(o, "error"@)
                    matches json::FieldView::Text(t) ==> e == t)
            },
            Wait::Got(Frame::Dead(e)) => not_ready(w, timeout) == Some(e@),
            _ => not_ready(w, timeout) is Some,
        },
{
}

/// What a request says: how many samples follow, how wide the search is, the words to
/// expect, if any, and that English is spoken.
pub proof fn law_what_a_request_says(samples: u64, beam: u64, vocab: Option<Seq<char>>)
    ensures
        ({
            let h = header_of(samples, beam, vocab);
            &&& h.len() == 4
            &&& h[0] == ("samples"@, json::FieldView::Number(Some(samples)))
            &&& h[1] == ("beam"@, json::FieldView::Number(Some(beam)))
            &&& h[2].0 == "vocab"@
            &&& vocab matches Some(v) ==> h[2].1 == json::FieldView::Text(v)
            &&& vocab is None ==> h[2].1 is Null
            &&& h[3] == ("language"@, json::FieldView::Text("en"@))
        }),
{
}

/// A worker that says nothing in time, or nothing any more, or the wrong thing, is
/// reported with the reason; the time is given in seconds.
pub proof fn law_what_went_wrong(v: Vec<(String, json::Field)>, e: String, timeout: u64)
    ensures
        not_ready(Wait::Timeout, timeout) == Some(
            "worker not ready within "@ + text::decimal(timeout as nat) + "s"@,
        ),
        not_ready(Wait::Disconnected, timeout) == Some("worker reader died"@),
        not_ready(Wait::Got(Frame::Dead(e)), timeout) == Some(e@),
        not_ready(Wait::Got(Frame::Response(v)), timeout) == Some(
            "worker sent a frame before ready"@,
        ),
        reading_of(Wait::Timeout, timeout) == Err::<Seq<char>, Seq<char>>(
            "worker timed out after "@ + text::decimal(rounded_secs(timeout as nat)) + "s"@,
        ),
        reading_of(Wait::Disconnected, timeout) == Err::<Seq<char>, Seq<char>>(
            "worker reader died"@,
        ),
        reading_of(Wait::Got(Frame::Dead(e)), timeout) == Err::<Seq<char>, Seq<char>>(e@),
        reading_of(Wait::Got(Frame::Ready(v)), timeout) == Err::<Seq<char>, Seq<char>>(
            "unexpected ready frame"@,
        ),
{
}

/// A worker is told the model, where the models are, how to compute and on what, each
/// behind its own name.
pub proof fn law_what_a_worker_is_told(
    model: Seq<char>,
    models_dir: Seq<char>,
    compute_type: Seq<char>,
    device: Seq<char>,
)
    ensures
        ({
            let argv = worker_argv(model, models_dir, compute_type, device);
            &&& argv.len() == 9
            &&& argv[0] == "--gpu-worker"@
            &&& argv[1] == "--model"@ && argv[2] == model
            &&& argv[3] == "--models-dir"@ && argv[4] == models_dir
            &&& argv[5] == "--compute-type"@ && argv[6] == compute_type
            &&& argv[7] == "--device"@ && argv[8] == device
        }),
{
}

} // verus!
