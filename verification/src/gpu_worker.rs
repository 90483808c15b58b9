//! The GPU worker's side: what it was started with, and one request after the
//! other until its input closes.
//!
//! The worker is a process of its own so that the GPU can sleep: its context
//! lives as long as the process that touched it.

use crate::gpu;
use crate::json::{self, Field};
use crate::text;
use vstd::prelude::*;

verus! {

/// The name of the worker's log.
pub const LOG_FILE: &'static str = "gpu_worker.log";

/// What the worker was started with.
#[derive(Debug, PartialEq, Eq)]
pub struct Opts {
    pub model: Option<String>,
    pub models_dir: Option<String>,
    /// In lower case.
    pub device: String,
    pub compute_type: String,
}

/// What the worker was started with, as texts.
pub struct OptsView {
    pub model: Option<Seq<char>>,
    pub models_dir: Option<Seq<char>>,
    pub device: Seq<char>,
    pub compute_type: Seq<char>,
}

impl View for Opts {
    type V = OptsView;

    open spec fn view(&self) -> OptsView {
        OptsView {
            model: text::opt_text(self.model),
            models_dir: text::opt_text(self.models_dir),
            device: self.device@,
            compute_type: self.compute_type@,
        }
    }
}

/// `o` changed by the arguments from the place `i` on. An option takes the
/// argument behind it; one without an argument, and what is not known, is
/// skipped.
pub open spec fn opts_from(argv: Seq<Seq<char>>, i: int, o: OptsView) -> OptsView
    decreases argv.len() - i,
{
    if i < 0 || i >= argv.len() {
        o
    } else if i + 1 < argv.len() && argv[i] == "--model"@ {
        opts_from(argv, i + 2, OptsView { model: Some(argv[i + 1]), ..o })
    } else if i + 1 < argv.len() && argv[i] == "--models-dir"@ {
        opts_from(argv, i + 2, OptsView { models_dir: Some(argv[i + 1]), ..o })
    } else if i + 1 < argv.len() && argv[i] == "--device"@ {
        opts_from(argv, i + 2, OptsView { device: text::lowercase(argv[i + 1]), ..o })
    } else if i + 1 < argv.len() && argv[i] == "--compute-type"@ {
        opts_from(argv, i + 2, OptsView { compute_type: argv[i + 1], ..o })
    } else {
        opts_from(argv, i + 1, o)
    }
}

/// What the arguments say.
pub open spec fn opts_of(argv: Seq<Seq<char>>) -> OptsView {
    opts_from(
        argv,
        0,
        OptsView { model: None, models_dir: None, device: "gpu"@, compute_type: "int8"@ },
    )
}

/// What the worker was started with. The last one of each option counts.
pub fn parse_args(argv: &[String]) -> (r: Opts)
    ensures
        r@ == opts_of(text::texts(argv@)),
{
    let mut opts = Opts {
        model: None,
        models_dir: None,
        device: "gpu".to_string(),
        compute_type: "int8".to_string(),
    };
    let ghost all = text::texts(argv@);
    let mut i: usize = 0;
    while i < argv.len()
        invariant
            i <= argv@.len(),
            all == text::texts(argv@),
            opts_of(all) == opts_from(all, i as int, opts@),
        decreases argv@.len() - i,
    {
        let arg = argv[i].as_str();
        assert(all[i as int] == arg@);
        if i + 1 < argv.len() {
            assert(all[i + 1] == argv@[i + 1]@);
            if text::str_eq(arg, "--model") {
                opts.model = Some(argv[i + 1].clone());
                i = i + 2;
                continue;
            }
            if text::str_eq(arg, "--models-dir") {
                opts.models_dir = Some(argv[i + 1].clone());
                i = i + 2;
                continue;
            }
            if text::str_eq(arg, "--device") {
                opts.device = text::to_lowercase(argv[i + 1].as_str());
                i = i + 2;
                continue;
            }
            if text::str_eq(arg, "--compute-type") {
                opts.compute_type = argv[i + 1].clone();
                i = i + 2;
                continue;
            }
        }
        i = i + 1;
    }
    opts
}

/// Why nothing can be loaded with these options; nothing where it can be tried.
pub open spec fn load_refusal(o: OptsView, gpu_built: bool) -> Option<Seq<char>> {
    if o.model is None {
        Some("--model is required"@)
    } else if o.models_dir is None {
        Some("--models-dir is required"@)
    } else if o.device == "gpu"@ && !gpu_built {
        Some("built without GPU support (rebuild with --features gpu)"@)
    } else {
        None
    }
}

/// What is to be loaded.
#[derive(Debug, PartialEq, Eq)]
pub struct LoadPlan {
    pub model: String,
    pub models_dir: String,
    pub compute_type: String,
    pub use_gpu: bool,
}

/// What is to be loaded with these options, or why nothing can be. A worker
/// that cannot use the GPU says so rather than serve on the CPU in its name.
pub fn load_plan(opts: &Opts, gpu_built: bool) -> (r: Result<LoadPlan, String>)
    ensures
        match r {
            Ok(p) => load_refusal(opts@, gpu_built) is None && opts@.model == Some(p.model@)
                && opts@.models_dir == Some(p.models_dir@) && p.compute_type@ == opts@.compute_type
                && p.use_gpu == (opts@.device == "gpu"@),
            Err(e) => load_refusal(opts@, gpu_built) == Some(e@),
        },
{
    let model = match &opts.model {
        Some(m) => m.clone(),
        None => {
            return Err("--model is required".to_string());
        },
    };
    let models_dir = match &opts.models_dir {
        Some(d) => d.clone(),
        None => {
            return Err("--models-dir is required".to_string());
        },
    };
    let use_gpu = text::str_eq(opts.device.as_str(), "gpu");
    if use_gpu && !gpu_built {
        return Err("built without GPU support (rebuild with --features gpu)".to_string());
    }
    Ok(LoadPlan { model, models_dir, compute_type: opts.compute_type.clone(), use_gpu })
}

// ---- what the worker writes -------------------------------------------------

/// The fields of the readiness line.
pub open spec fn ready_fields(
    loaded: Result<(), Seq<char>>,
    model: Seq<char>,
    device: Seq<char>,
) -> Seq<(Seq<char>, json::FieldView)> {
    match loaded {
        Ok(()) => seq![
            ("ready"@, json::FieldView::Bool(true)),
            ("model"@, json::FieldView::Text(model)),
            ("device"@, json::FieldView::Text(device)),
        ],
        Err(e) => seq![
            ("ready"@, json::FieldView::Bool(false)),
            ("error"@, json::FieldView::Text(e)),
        ],
    }
}

/// The fields of an answer.
pub open spec fn reply_fields(r: Result<Seq<char>, Seq<char>>) -> Seq<
    (Seq<char>, json::FieldView),
> {
    match r {
        Ok(t) => seq![
            ("ok"@, json::FieldView::Bool(true)),
            ("segments"@, json::FieldView::List(seq![Some(t)])),
        ],
        Err(e) => seq![
            ("ok"@, json::FieldView::Bool(false)),
            ("error"@, json::FieldView::Text(e)),
        ],
    }
}

/// No key of these objects stands twice.
proof fn lemma_worker_fields_are_plain(
    loaded: Result<(), Seq<char>>,
    model: Seq<char>,
    device: Seq<char>,
    reply: Result<Seq<char>, Seq<char>>,
)
    ensures
        json::is_plain(ready_fields(loaded, model, device)),
        json::is_plain(reply_fields(reply)),
{
    reveal_strlit("ready");
    reveal_strlit("model");
    reveal_strlit("device");
    reveal_strlit("error");
    reveal_strlit("ok");
    reveal_strlit("segments");
    assert("ready"@[0] == 'r' && "model"@[0] == 'm' && "device"@[0] == 'd' && "error"@[0] == 'e');
    assert("ok"@[0] == 'o' && "segments"@[0] == 's');
}

/// The readiness line: the one line that the worker writes before it serves, or
/// before it leaves because it could not load.
pub fn ready_line(loaded: &Result<(), String>, model: &str, device: &str) -> (r: Vec<u8>)
    ensures
        ({
            let o = ready_fields(
                match loaded {
                    Ok(()) => Ok(()),
                    Err(e) => Err(e@),
                },
                model@,
                device@,
            );
            r@ == json::object_bytes(o).push(10) && json::spells(json::object_bytes(o), o)
        }),
{
    let mut fields: Vec<(String, Field)> = Vec::new();
    match loaded {
        Ok(()) => {
            fields.push(("ready".to_string(), Field::Bool(true)));
            fields.push(("model".to_string(), Field::Text(model.to_string())));
            fields.push(("device".to_string(), Field::Text(device.to_string())));
        },
        Err(e) => {
            fields.push(("ready".to_string(), Field::Bool(false)));
            fields.push(("error".to_string(), Field::Text(e.clone())));
        },
    }
    let ghost l = match loaded {
        Ok(()) => Ok::<(), Seq<char>>(()),
        Err(e) => Err::<(), Seq<char>>(e@),
    };
    proof {
        assert(json::fields_view(fields@) == ready_fields(l, model@, device@));
        lemma_worker_fields_are_plain(l, model@, device@, Ok(model@));
    }
    let mut r = json::write_object(&fields);
    r.push(10);
    r
}

/// The answer to a request, framed: the text, or what went wrong.
pub fn reply(result: &Result<String, String>) -> (r: Vec<u8>)
    ensures
        ({
            let o = reply_fields(
                match result {
                    Ok(t) => Ok(t@),
                    Err(e) => Err(e@),
                },
            );
            r@ == gpu::framed(json::object_bytes(o)) && json::spells(json::object_bytes(o), o)
        }),
{
    let mut fields: Vec<(String, Field)> = Vec::new();
    let ghost t = match result {
        Ok(t) => Ok::<Seq<char>, Seq<char>>(t@),
        Err(e) => Err::<Seq<char>, Seq<char>>(e@),
    };
    match result {
        Ok(t) => {
            let mut segments: Vec<Option<String>> = Vec::new();
            segments.push(Some(t.clone()));
            assert(json::items_view(segments@) == seq![Some(t@)]);
            fields.push(("ok".to_string(), Field::Bool(true)));
            fields.push(("segments".to_string(), Field::List(segments)));
        },
        Err(e) => {
            fields.push(("ok".to_string(), Field::Bool(false)));
            fields.push(("error".to_string(), Field::Text(e.clone())));
        },
    }
    proof {
        assert(json::fields_view(fields@) == reply_fields(t));
        lemma_worker_fields_are_plain(Ok(()), Seq::empty(), Seq::empty(), t);
    }
    let payload = json::write_object(&fields);
    gpu::frame(&payload)
}

// ---- serving ----------------------------------------------------------------

/// A request's header.
#[derive(Debug, PartialEq, Eq)]
pub struct Request {
    /// How many samples follow.
    pub samples: u64,
    pub beam: u64,
    /// The words to expect; none where there are none.
    pub vocab: Option<String>,
}

/// What a header asks for: no samples and a beam of five where it does not say,
/// and no words to expect where it gives none or an empty text.
pub open spec fn request_of(o: Seq<(Seq<char>, json::FieldView)>) -> (u64, u64, Option<Seq<char>>) {
    (
        match json::number(o, "samples"@) {
            Some(n) => n,
            None => 0,
        },
        match json::number(o, "beam"@) {
            Some(n) => n,
            None => 5,
        },
        match json::string(o, "vocab"@) {
            Some(v) if v.len() > 0 => Some(v),
            _ => None,
        },
    )
}

/// What the fields of a header ask for.
pub fn request_from(fields: &Vec<(String, Field)>) -> (r: Request)
    ensures
        (r.samples, r.beam, text::opt_text(r.vocab)) == request_of(json::fields_view(fields@)),
{
    let samples: u64 = match json::get_u64(fields, "samples") {
        Some(n) => n,
        None => 0,
    };
    let beam: u64 = match json::get_u64(fields, "beam") {
        Some(n) => n,
        None => 5,
    };
    let vocab = match json::get_str(fields, "vocab") {
        Some(v) => if text::chars_of(v).len() > 0 {
            Some(v.to_string())
        } else {
            None
        },
        None => None,
    };
    Request { samples, beam, vocab }
}

/// Where the worker stands between two reads.
#[derive(Debug, PartialEq, Eq)]
pub enum Serve {
    /// It waits for the four bytes of a header's length.
    Length,
    /// It waits for a header.
    Header,
    /// It waits for the samples of this request.
    Samples(Request),
    /// It is done: its input closed, or what came was no header.
    Exit,
}

/// What the worker does next.
#[derive(Debug, PartialEq, Eq)]
pub enum ServeStep {
    /// Read so many bytes.
    Read(u64),
    /// Transcribe these samples, each given by the 32 bits of its number, and
    /// answer.
    Transcribe(Vec<u32>, Request),
    /// Leave.
    Leave,
}

/// How many bytes `n` samples take; `None` where a `u64` does not tell.
pub open spec fn sample_bytes(n: u64) -> Option<u64> {
    if 4 * n <= u64::MAX {
        Some((4 * n) as u64)
    } else {
        None
    }
}

/// Where the worker stands at first, and what it does.
pub fn serve_begin() -> (r: (Serve, ServeStep))
    ensures
        r.0 is Length,
        r.1 == ServeStep::Read(4),
{
    (Serve::Length, ServeStep::Read(4))
}

/// What the bytes that the worker waited for lead to; `None` where its input
/// closed first. After a request the next header's length is awaited.
pub fn serve(at: Serve, bytes: Option<Vec<u8>>) -> (r: (Serve, ServeStep))
    requires
        at is Length && bytes is Some ==> bytes->0@.len() == 4,
    ensures
        match (at, bytes) {
            (Serve::Length, Some(b)) => r.0 is Header && r.1 == ServeStep::Read(
                gpu::from_le32(b@) as u64,
            ),
            (Serve::Header, Some(b)) => match json::object_of(b@) {
                Ok(o) => match sample_bytes(request_of(o).0) {
                    Some(n) => r.1 == ServeStep::Read(n) && (r.0 matches Serve::Samples(q) && (
                        q.samples,
                        q.beam,
                        text::opt_text(q.vocab),
                    ) == request_of(o)),
                    None => r.0 is Exit && r.1 is Leave,
                },
                Err(_) => r.0 is Exit && r.1 is Leave,
            },
            (Serve::Samples(q), Some(b)) => r.0 is Length && (r.1 matches ServeStep::Transcribe(
                s,
                p,
            ) && s@ == gpu::samples_in(b@) && p == q),
            _ => r.0 is Exit && r.1 is Leave,
        },
{
    let b = match bytes {
        Some(b) => b,
        None => {
            return (Serve::Exit, ServeStep::Leave);
        },
    };
    match at {
        Serve::Length => {
            let n: u64 = gpu::bytes_u32(b.as_slice()) as u64;
            (Serve::Header, ServeStep::Read(n))
        },
        Serve::Header => match json::read_object(b.as_slice()) {
            Ok(fields) => {
                let q = request_from(&fields);
                match q.samples.checked_mul(4) {
                    Some(n) => (Serve::Samples(q), ServeStep::Read(n)),
                    None => (Serve::Exit, ServeStep::Leave),
                }
            },
            Err(_) => (Serve::Exit, ServeStep::Leave),
        },
        Serve::Samples(q) => {
            let s = gpu::pcm_samples(b.as_slice());
            (Serve::Length, ServeStep::Transcribe(s, q))
        },
        Serve::Exit => (Serve::Exit, ServeStep::Leave),
    }
}

/// The worker's exit code: nought where it served until its input closed, one
/// where it could not load.
pub fn exit_code(loaded: bool) -> (r: i32)
    ensures
        r == if loaded {
            0i32
        } else {
            1i32
        },
{
    if loaded {
        0
    } else {
        1
    }
}

// ---- laws -------------------------------------------------------------------

/// The worker reads from a request's header what the parent wrote into it.
pub proof fn law_requests_read_back(
    o: Seq<(Seq<char>, json::FieldView)>,
    samples: u64,
    beam: u64,
    vocab: Option<Seq<char>>,
)
    requires
        json::same_fields(o, gpu::header_of(samples, beam, vocab)),
    ensures
        request_of(o) == (
            samples,
            beam,
            match vocab {
                Some(v) if v.len() > 0 => Some(v),
                _ => None,
            },
        ),
{
    let h = gpu::header_of(samples, beam, vocab);
    reveal_strlit("samples");
    reveal_strlit("beam");
    reveal_strlit("vocab");
    reveal_strlit("language");
    assert("samples"@.len() == 7 && "beam"@.len() == 4 && "vocab"@.len() == 5 && "language"@.len()
        == 8);
    reveal_with_fuel(json::lookup, 5);
    assert(h.drop_last().drop_last().drop_last().last() == h[0]);
    assert(h.drop_last().drop_last().last() == h[1]);
    assert(h.drop_last().last() == h[2]);
    assert(h.last() == h[3]);
}

/// The parent reads from a worker's answer the text that was transcribed,
/// trimmed, or the error.
pub proof fn law_replies_read_back(
    o: Seq<(Seq<char>, json::FieldView)>,
    r: Result<Seq<char>, Seq<char>>,
)
    requires
        json::same_fields(o, reply_fields(r)),
    ensures
        match r {
            Ok(t) => json::flag(o, "ok"@) == Some(true) && gpu::joined_segments(
                json::strings(o, "segments"@),
            ) == text::trim(t),
            Err(e) => json::flag(o, "ok"@) == Some(false) && json::string(o, "error"@) == Some(e),
        },
{
    let f = reply_fields(r);
    reveal_strlit("ok");
    reveal_strlit("segments");
    reveal_strlit("error");
    assert("ok"@.len() == 2 && "segments"@.len() == 8 && "error"@.len() == 5);
    reveal_with_fuel(json::lookup, 3);
    assert(f.drop_last().last() == f[0]);
    assert(f.last() == f[1]);
    if let Ok(t) = r {
        let v = seq![Some(t)];
        assert(v.drop_last() == Seq::<Option<Seq<char>>>::empty());
        reveal_with_fuel(json::texts_in, 2);
        assert(json::texts_in(v) == seq![t]);
        let p = seq![t].map_values(|s: Seq<char>| text::trim(s));
        assert(p == Seq::<Seq<char>>::empty().push(text::trim(t)));
        text::lemma_non_empty_push(Seq::empty(), text::trim(t));
        text::lemma_trim_once(t);
        let kept = text::non_empty(p);
        reveal(Seq::filter);
        assert(text::non_empty(Seq::empty()) == Seq::<Seq<char>>::empty());
        if text::trim(t).len() > 0 {
            assert(kept == seq![text::trim(t)]);
        } else {
            assert(kept == Seq::<Seq<char>>::empty());
            assert(text::trim(t) == Seq::<char>::empty());
        }
    }
}

/// A request that the parent wrote is served as it was meant: the worker finds
/// the header behind its length, and in it how many samples follow, how wide to
/// search and which words to expect; and the bytes behind the header are the
/// samples, bit for bit.
pub proof fn law_requests_are_served_as_written(
    sent: Seq<u8>,
    header: Seq<u8>,
    samples: Seq<u32>,
    beam: u64,
    vocab: Option<Seq<char>>,
)
    requires
        sent == gpu::framed(header) + gpu::pcm(samples),
        json::spells(header, gpu::header_of(samples.len() as u64, beam, vocab)),
        header.len() <= u32::MAX,
        4 * samples.len() <= u64::MAX,
    ensures
        ({
            let start = 4 + gpu::from_le32(sent.take(4));
            let asked = request_of(json::object_of(sent.subrange(4, start))->Ok_0);
            &&& json::object_of(sent.subrange(4, start)) is Ok
            &&& asked == (
                samples.len() as u64,
                beam,
                match vocab {
                    Some(v) if v.len() > 0 => Some(v),
                    _ => None,
                },
            )
            &&& sample_bytes(asked.0) == Some(sent.skip(start).len() as u64)
            &&& gpu::samples_in(sent.skip(start)) == samples
        }),
{
    gpu::law_frames_read_back(header);
    gpu::law_samples_read_back(samples);
    assert(sent.take(4) == gpu::framed(header).take(4));
    let start = 4 + header.len();
    assert(sent.subrange(4, start as int) == header);
    assert(sent.skip(start as int) == gpu::pcm(samples));
    law_requests_read_back(
        json::object_of(header)->Ok_0,
        samples.len() as u64,
        beam,
        vocab,
    );
}

/// What the worker answers is what the parent reads: the text, trimmed, or why
/// there is none.
pub proof fn law_answers_are_read_as_written(
    sent: Seq<u8>,
    payload: Seq<u8>,
    r: Result<Seq<char>, Seq<char>>,
    answer: Vec<(String, Field)>,
    timeout: u64,
)
    requires
        sent == gpu::framed(payload),
        json::spells(payload, reply_fields(r)),
        payload.len() <= u32::MAX,
        json::object_of(sent.skip(4)) == Ok::<Seq<(Seq<char>, json::FieldView)>, Seq<char>>(
            json::fields_view(answer@),
        ),
    ensures
        gpu::from_le32(sent.take(4)) == payload.len(),
        gpu::reading_of(gpu::Wait::Got(gpu::Frame::Response(answer)), timeout) == match r {
            Ok(t) => Ok::<Seq<char>, Seq<char>>(text::trim(t)),
            Err(e) => Err(e),
        },
{
    gpu::law_frames_read_back(payload);
    law_replies_read_back(json::fields_view(answer@), r);
}

/// A worker that could not load is never taken for a ready one, and its reason
/// reaches the parent.
pub proof fn law_failed_loads_are_reported(
    o: Seq<(Seq<char>, json::FieldView)>,
    e: Seq<char>,
    model: Seq<char>,
    device: Seq<char>,
)
    requires
        json::same_fields(o, ready_fields(Err(e), model, device)),
    ensures
        json::flag(o, "ready"@) == Some(false),
        json::string(o, "error"@) == Some(e),
{
    let f = ready_fields(Err(e), model, device);
    reveal_strlit("ready");
    reveal_strlit("error");
    assert("ready"@[0] == 'r' && "error"@[0] == 'e');
    reveal_with_fuel(json::lookup, 3);
    assert(f.drop_last().last() == f[0]);
    assert(f.last() == f[1]);
}

/// The worker understands what it is started with: the model, where the models are, the
/// kind of computation, and the device in lower case.
pub proof fn law_arguments_read_back(
    model: Seq<char>,
    dir: Seq<char>,
    compute_type: Seq<char>,
    device: Seq<char>,
)
    ensures
        ({
            let o = opts_of(gpu::worker_argv(model, dir, compute_type, device));
            &&& o.model == Some(model)
            &&& o.models_dir == Some(dir)
            &&& o.compute_type == compute_type
            &&& o.device == text::lowercase(device)
        }),
        ({
            let o = opts_of(Seq::empty());
            &&& o.model is None
            &&& o.models_dir is None
            &&& o.compute_type == "int8"@
            &&& o.device == "gpu"@
        }),
{
    reveal_strlit("--gpu-worker");
    reveal_strlit("--model");
    reveal_strlit("--models-dir");
    reveal_strlit("--compute-type");
    reveal_strlit("--device");
    assert("--gpu-worker"@.len() == 12 && "--model"@.len() == 7 && "--models-dir"@.len() == 12
        && "--compute-type"@.len() == 14 && "--device"@.len() == 8);
    assert("--gpu-worker"@[2] == 'g' && "--models-dir"@[2] == 'm');
    let argv = gpu::worker_argv(model, dir, compute_type, device);
    reveal_with_fuel(opts_from, 10);
    let o0 = OptsView { model: None, models_dir: None, device: "gpu"@, compute_type: "int8"@ };
    let o1 = OptsView { model: Some(model), ..o0 };
    let o2 = OptsView { models_dir: Some(dir), ..o1 };
    let o3 = OptsView { compute_type, ..o2 };
    let o4 = OptsView { device: text::lowercase(device), ..o3 };
    assert(argv.len() == 9);
    assert(opts_from(argv, 9, o4) == o4);
    assert(argv[7] == "--device"@ && argv[8] == device);
    assert(opts_from(argv, 7, o3) == o4);
    assert(argv[5] == "--compute-type"@);
    assert(opts_from(argv, 5, o2) == o4);
    assert(argv[3] == "--models-dir"@);
    assert(opts_from(argv, 3, o1) == o4);
    assert(argv[1] == "--model"@);
    assert(opts_from(argv, 1, o0) == o4);
    assert(argv[0] == "--gpu-worker"@);
    assert(opts_from(argv, 0, o0) == o4);
}

/// A worker loads only what it was told: without a model or where the models are it
/// refuses, and so it does where the GPU is asked for and it has none.
pub proof fn law_what_is_refused(o: OptsView, gpu_built: bool)
    ensures
        load_refusal(o, gpu_built) is None <==> o.model is Some && o.models_dir is Some && (o.device
            == "gpu"@ ==> gpu_built),
{
}

/// A request says how many samples follow and how wide to search; without it none and
/// five, and a vocabulary that is empty is none.
pub proof fn law_requests_have_defaults(o: Seq<(Seq<char>, json::FieldView)>)
    ensures
        json::lookup(o, "samples"@) matches json::FieldView::Number(Some(n)) ==> request_of(o).0 == n,
        json::lookup(o, "samples"@) is Null ==> request_of(o).0 == 0,
        json::lookup(o, "beam"@) matches json::FieldView::Number(Some(n)) ==> request_of(o).1 == n,
        json::lookup(o, "beam"@) is Null ==> request_of(o).1 == 5,
        json::lookup(o, "vocab"@) matches json::FieldView::Text(v) ==> request_of(o).2 == if v.len()
            > 0 {
            Some(v)
        } else {
            None
        },
        json::lookup(o, "vocab"@) is Null ==> request_of(o).2 is None,
{
}

/// A sample takes four bytes.
pub proof fn law_samples_take_four_bytes(n: u64)
    ensures
        sample_bytes(n) matches Some(b) ==> b == 4 * n,
        sample_bytes(n) is None <==> 4 * n > u64::MAX,
{
}

} // verus!
