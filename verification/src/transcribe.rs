//! Speech to text: the models and their files, the download of one, the words
//! to expect, and what is made of the segments that the model hears.

use crate::clipboard;
use crate::gpu;
use crate::text;
use vstd::prelude::*;

verus! {

/// Where the models are downloaded from.
pub const HF_BASE: &'static str = "https://huggingface.co/ggerganov/whisper.cpp/resolve/main/";

/// Where the model of voice detection is downloaded from.
pub const VAD_URL: &'static str =
    "https://huggingface.co/ggml-org/whisper-vad/resolve/main/ggml-silero-v5.1.2.bin";

/// The file of the model of voice detection.
pub const VAD_FILE: &'static str = "ggml-silero-v5.1.2.bin";

/// The error of a download that was cancelled.
pub const DOWNLOAD_CANCELLED: &'static str = "cancelled";

/// How long a download may go without data, in seconds.
pub const DOWNLOAD_IO_TIMEOUT_SECS: u64 = 30;

// ---- models -----------------------------------------------------------------

/// A model.
#[derive(Clone, Copy, PartialEq, Eq, Debug)]
pub struct ModelInfo {
    pub name: &'static str,
    pub hint: &'static str,
    /// It is offered first.
    pub curated: bool,
    /// There is a quantized file of it.
    pub has_q8: bool,
    /// The size of the quantized file, nought where there is none.
    pub q8_bytes: u64,
    /// The size of the plain file.
    pub f16_bytes: u64,
}

/// Whether the quantized file is used.
pub open spec fn uses_q8(m: ModelInfo, compute_type: Seq<char>) -> bool {
    compute_type == "int8"@ && m.has_q8
}

/// The file of a model, quantized or plain.
pub open spec fn file_of(name: Seq<char>, q8: bool) -> Seq<char> {
    if q8 {
        "ggml-"@ + name + "-q8_0.bin"@
    } else {
        "ggml-"@ + name + ".bin"@
    }
}

/// The file of a model, quantized or plain.
fn make_file_name(name: &str, q8: bool) -> (r: String)
    ensures
        r@ == file_of(name@, q8),
{
    let mut out = text::chars_of("ggml-");
    text::extend_str(&mut out, name);
    if q8 {
        text::extend_str(&mut out, "-q8_0.bin");
    } else {
        text::extend_str(&mut out, ".bin");
    }
    text::string_of(out.as_slice())
}

impl ModelInfo {
    /// The file of the model for a kind of computation.
    pub fn file_name(&self, compute_type: &str) -> (r: String)
        ensures
            r@ == file_of(self.name@, uses_q8(*self, compute_type@)),
    {
        make_file_name(self.name, text::str_eq(compute_type, "int8") && self.has_q8)
    }

    /// The size of that file.
    pub fn size_bytes(&self, compute_type: &str) -> (r: u64)
        ensures
            r == if uses_q8(*self, compute_type@) {
                self.q8_bytes
            } else {
                self.f16_bytes
            },
    {
        if text::str_eq(compute_type, "int8") && self.has_q8 {
            self.q8_bytes
        } else {
            self.f16_bytes
        }
    }
}

/// Every model that can be had.
pub open spec fn catalog_of() -> Seq<ModelInfo> {
    seq![
        ModelInfo {
            name: "tiny",
            hint: "Fastest — very low accuracy, all languages",
            curated: false,
            has_q8: true,
            q8_bytes: 43_537_433,
            f16_bytes: 77_691_713,
        },
        ModelInfo {
            name: "tiny.en",
            hint: "Fastest — very low accuracy",
            curated: true,
            has_q8: true,
            q8_bytes: 43_550_795,
            f16_bytes: 77_704_715,
        },
        ModelInfo {
            name: "base",
            hint: "Fast — all languages",
            curated: false,
            has_q8: true,
            q8_bytes: 81_768_585,
            f16_bytes: 147_951_465,
        },
        ModelInfo {
            name: "base.en",
            hint: "Fast — battery default",
            curated: true,
            has_q8: true,
            q8_bytes: 81_781_811,
            f16_bytes: 147_964_211,
        },
        ModelInfo {
            name: "small",
            hint: "Balanced — all languages",
            curated: false,
            has_q8: true,
            q8_bytes: 264_464_607,
            f16_bytes: 487_601_967,
        },
        ModelInfo {
            name: "small.en",
            hint: "Balanced — plugged default",
            curated: true,
            has_q8: true,
            q8_bytes: 264_477_561,
            f16_bytes: 487_614_201,
        },
        ModelInfo {
            name: "medium",
            hint: "Accurate — slower on CPU, all languages",
            curated: false,
            has_q8: true,
            q8_bytes: 823_369_779,
            f16_bytes: 1_533_763_059,
        },
        ModelInfo {
            name: "medium.en",
            hint: "Accurate — slower on CPU",
            curated: true,
            has_q8: true,
            q8_bytes: 823_382_461,
            f16_bytes: 1_533_774_781,
        },
        ModelInfo {
            name: "large-v1",
            hint: "Original large — all languages",
            curated: false,
            has_q8: false,
            q8_bytes: 0,
            f16_bytes: 3_094_623_691,
        },
        ModelInfo {
            name: "large-v2",
            hint: "Very accurate — all languages",
            curated: false,
            has_q8: true,
            q8_bytes: 1_656_129_691,
            f16_bytes: 3_094_623_691,
        },
        ModelInfo {
            name: "large-v3",
            hint: "Very accurate — all languages",
            curated: false,
            has_q8: false,
            q8_bytes: 0,
            f16_bytes: 3_095_033_483,
        },
        ModelInfo {
            name: "large-v3-turbo",
            hint: "Most accurate — GPU recommended, all languages",
            curated: true,
            has_q8: true,
            q8_bytes: 874_188_075,
            f16_bytes: 1_624_555_275,
        },
    ]
}

/// Every model that can be had.
pub fn catalog() -> (r: Vec<ModelInfo>)
    ensures
        r@ == catalog_of(),
{
    let r = vec![
        ModelInfo {
            name: "tiny",
            hint: "Fastest — very low accuracy, all languages",
            curated: false,
            has_q8: true,
            q8_bytes: 43_537_433,
            f16_bytes: 77_691_713,
        },
        ModelInfo {
            name: "tiny.en",
            hint: "Fastest — very low accuracy",
            curated: true,
            has_q8: true,
            q8_bytes: 43_550_795,
            f16_bytes: 77_704_715,
        },
        ModelInfo {
            name: "base",
            hint: "Fast — all languages",
            curated: false,
            has_q8: true,
            q8_bytes: 81_768_585,
            f16_bytes: 147_951_465,
        },
        ModelInfo {
            name: "base.en",
            hint: "Fast — battery default",
            curated: true,
            has_q8: true,
            q8_bytes: 81_781_811,
            f16_bytes: 147_964_211,
        },
        ModelInfo {
            name: "small",
            hint: "Balanced — all languages",
            curated: false,
            has_q8: true,
            q8_bytes: 264_464_607,
            f16_bytes: 487_601_967,
        },
        ModelInfo {
            name: "small.en",
            hint: "Balanced — plugged default",
            curated: true,
            has_q8: true,
            q8_bytes: 264_477_561,
            f16_bytes: 487_614_201,
        },
        ModelInfo {
            name: "medium",
            hint: "Accurate — slower on CPU, all languages",
            curated: false,
            has_q8: true,
            q8_bytes: 823_369_779,
            f16_bytes: 1_533_763_059,
        },
        ModelInfo {
            name: "medium.en",
            hint: "Accurate — slower on CPU",
            curated: true,
            has_q8: true,
            q8_bytes: 823_382_461,
            f16_bytes: 1_533_774_781,
        },
        ModelInfo {
            name: "large-v1",
            hint: "Original large — all languages",
            curated: false,
            has_q8: false,
            q8_bytes: 0,
            f16_bytes: 3_094_623_691,
        },
        ModelInfo {
            name: "large-v2",
            hint: "Very accurate — all languages",
            curated: false,
            has_q8: true,
            q8_bytes: 1_656_129_691,
            f16_bytes: 3_094_623_691,
        },
        ModelInfo {
            name: "large-v3",
            hint: "Very accurate — all languages",
            curated: false,
            has_q8: false,
            q8_bytes: 0,
            f16_bytes: 3_095_033_483,
        },
        ModelInfo {
            name: "large-v3-turbo",
            hint: "Most accurate — GPU recommended, all languages",
            curated: true,
            has_q8: true,
            q8_bytes: 874_188_075,
            f16_bytes: 1_624_555_275,
        },
    ];
    assert(r@ == catalog_of());
    r
}

/// The model of this name among `all`.
pub open spec fn model_named(all: Seq<ModelInfo>, name: Seq<char>) -> Option<ModelInfo>
    decreases all.len(),
{
    if all.len() == 0 {
        None
    } else if all[0].name@ == name {
        Some(all[0])
    } else {
        model_named(all.skip(1), name)
    }
}

/// The model of this name that can be had.
pub fn catalog_find(name: &str) -> (r: Option<ModelInfo>)
    ensures
        r == model_named(catalog_of(), name@),
{
    let all = catalog();
    let ghost v = catalog_of();
    let mut i: usize = 0;
    assert(v.skip(0) == v);
    while i < all.len()
        invariant
            i <= all@.len(),
            all@ == v,
            v == catalog_of(),
            model_named(v, name@) == model_named(v.skip(i as int), name@),
        decreases all@.len() - i,
    {
        assert(v.skip(i as int)[0] == all@[i as int]);
        assert(v.skip(i as int).skip(1) == v.skip(i + 1));
        if text::str_eq(all[i].name, name) {
            return Some(all[i]);
        }
        i = i + 1;
    }
    None
}

/// The file of a model: as the catalog says, else the quantized one where that
/// is asked for.
pub open spec fn model_file_of(model: Seq<char>, compute_type: Seq<char>) -> Seq<char> {
    match model_named(catalog_of(), model) {
        Some(m) => file_of(m.name@, uses_q8(m, compute_type)),
        None => file_of(model, compute_type == "int8"@),
    }
}

/// The file of a model for a kind of computation.
pub fn model_file_name(model: &str, compute_type: &str) -> (r: String)
    ensures
        r@ == model_file_of(model@, compute_type@),
{
    match catalog_find(model) {
        Some(m) => m.file_name(compute_type),
        None => make_file_name(model, text::str_eq(compute_type, "int8")),
    }
}

/// Whether a model is there.
#[derive(Debug, PartialEq, Eq)]
pub struct ModelStatus {
    pub installed: bool,
    /// The size of its file, nought where it is not there.
    pub bytes: u64,
}

/// The size that the file of a model must have, where the catalog tells it.
pub open spec fn expected_size(model: Seq<char>, compute_type: Seq<char>) -> Option<u64> {
    match model_named(catalog_of(), model) {
        Some(m) => Some(
            if uses_q8(m, compute_type) {
                m.q8_bytes
            } else {
                m.f16_bytes
            },
        ),
        None => None,
    }
}

/// What is known of a path: whether it is a file, and its size.
#[derive(Clone, Copy, PartialEq, Eq, Structural, Debug)]
pub struct FileMeta {
    pub is_file: bool,
    pub len: u64,
}

/// Whether a file is there and has the size that it must have, if one is known.
pub open spec fn is_complete(meta: Option<FileMeta>, expected: Option<u64>) -> bool {
    meta matches Some(m) && m.is_file && (expected matches Some(e) ==> m.len == e)
}

/// Whether a file is there and has the size that it must have, if one is known.
fn complete(meta: Option<FileMeta>, expected: Option<u64>) -> (r: bool)
    ensures
        r == is_complete(meta, expected),
{
    match meta {
        Some(m) => m.is_file && match expected {
            Some(e) => m.len == e,
            None => true,
        },
        None => false,
    }
}

/// Whether a model is there, from what is known of its file. One that the
/// catalog knows must have exactly its size: a file that was cut short counts as
/// none, so that it is downloaded again.
pub fn model_status(meta: Option<FileMeta>, model: &str, compute_type: &str) -> (r: ModelStatus)
    ensures
        r.installed == is_complete(meta, expected_size(model@, compute_type@)),
        r.bytes == if r.installed {
            meta->0.len
        } else {
            0
        },
{
    let expected = match catalog_find(model) {
        Some(m) => Some(m.size_bytes(compute_type)),
        None => None,
    };
    match meta {
        Some(m) => if complete(meta, expected) {
            ModelStatus { installed: true, bytes: m.len }
        } else {
            ModelStatus { installed: false, bytes: 0 }
        },
        None => ModelStatus { installed: false, bytes: 0 },
    }
}

/// The file to use, and where to download it from first, if it must be.
#[derive(Debug, PartialEq, Eq)]
pub struct Fetch {
    pub file: String,
    pub url: Option<String>,
}

/// The file of a model, and where to download it from where it is not there or
/// not complete.
pub fn ensure_model(meta: Option<FileMeta>, model: &str, compute_type: &str) -> (r: Fetch)
    ensures
        r.file@ == model_file_of(model@, compute_type@),
        text::opt_text(r.url) == if is_complete(meta, expected_size(model@, compute_type@)) {
            None
        } else {
            Some(HF_BASE@ + model_file_of(model@, compute_type@))
        },
{
    let file = model_file_name(model, compute_type);
    let url = if model_status(meta, model, compute_type).installed {
        None
    } else {
        let mut u = text::chars_of(HF_BASE);
        text::extend_str(&mut u, file.as_str());
        Some(text::string_of(u.as_slice()))
    };
    Fetch { file, url }
}

/// The file of the model of voice detection, and where to download it from where
/// it is not there.
pub fn ensure_vad_model(present: bool) -> (r: Fetch)
    ensures
        r.file@ == VAD_FILE@,
        text::opt_text(r.url) == if present {
            None
        } else {
            Some(VAD_URL@)
        },
{
    Fetch {
        file: VAD_FILE.to_string(),
        url: if present {
            None
        } else {
            Some(VAD_URL.to_string())
        },
    }
}

// ---- a download -------------------------------------------------------------

/// The name of the file that a download writes to until it is complete: unlike
/// that of any other download in this process or another.
pub fn part_name(file: &str, pid: u32, seq: u64) -> (r: String)
    ensures
        r@ == file@ + ".part."@ + text::decimal(pid as nat) + "."@ + text::decimal(seq as nat),
{
    let mut out = text::chars_of(file);
    text::extend_str(&mut out, ".part.");
    let p = text::decimal_of(pid as u64);
    text::extend(&mut out, p.as_slice());
    text::extend_str(&mut out, ".");
    let s = text::decimal_of(seq);
    text::extend(&mut out, s.as_slice());
    text::string_of(out.as_slice())
}

/// A download on its way. Times are in nanoseconds.
#[derive(Debug, PartialEq, Eq)]
pub struct Download {
    /// What it is called in messages.
    pub label: String,
    /// How many bytes have arrived.
    pub done: u64,
    /// How many the server announced.
    pub total: Option<u64>,
    /// How many the file must have, where that is known.
    pub expected: Option<u64>,
    /// When data last arrived.
    pub last_data: u64,
    /// The last tenth of it that was reported, in percent.
    pub last_pct: u64,
}

/// How much of a download of `total` bytes has arrived, in whole percent, as far
/// as 32 bits tell.
pub open spec fn percent_of(done: u64, total: u64) -> int {
    done as int * 100 / total as int % 0x1_0000_0000
}

/// What to report of a download: the percent that have arrived, where another
/// tenth of it has since the last report.
pub open spec fn report_of(done: u64, total: Option<u64>, last_pct: u64) -> Option<int> {
    match total {
        Some(t) => if t > 0 && percent_of(done, t) >= last_pct + 10 {
            Some(percent_of(done, t))
        } else {
            None
        },
        None => None,
    }
}

/// How a download goes on.
#[derive(Clone, Copy, PartialEq, Eq, Structural, Debug)]
pub enum Progress {
    /// It goes on.
    GoOn,
    /// It was cancelled.
    Cancelled,
    /// Nothing has arrived for too long.
    Stalled,
}

/// What a message says of the download `label`.
pub open spec fn about(label: Seq<char>, rest: Seq<char>) -> Seq<char> {
    "download of "@ + label + rest
}

/// What a message says of the download `label`.
fn make_about(label: &str, rest: &[char]) -> (r: String)
    ensures
        r@ == about(label@, rest@),
{
    let mut out = text::chars_of("download of ");
    text::extend_str(&mut out, label);
    text::extend(&mut out, rest);
    text::string_of(out.as_slice())
}

impl Download {
    /// A download begins. What the server announces counts as the size of the
    /// file only where the body is not encoded.
    pub fn begin(label: &str, content_length: Option<&str>, encoded: bool, now: u64) -> (r: Download)
        ensures
            r.label@ == label@,
            r.done == 0,
            match r.total {
                Some(n) => content_length matches Some(s) && text::unsigned_of(
                    s@,
                    u64::MAX as int,
                ) == Some(n as int),
                None => content_length is None || text::unsigned_of(
                    content_length->0@,
                    u64::MAX as int,
                ) is None,
            },
            r.expected == if encoded {
                None
            } else {
                r.total
            },
            r.last_data == now,
            r.last_pct == 0,
    {
        let total = match content_length {
            Some(s) => {
                let c = text::chars_of(s);
                text::parse_u64(c.as_slice())
            },
            None => None,
        };
        Download {
            label: label.to_string(),
            done: 0,
            total,
            expected: if encoded {
                None
            } else {
                total
            },
            last_data: now,
            last_pct: 0,
        }
    }

    /// So many bytes arrived and were written.
    pub fn arrived(&mut self, len: u64, now: u64)
        requires
            old(self).done + len <= u64::MAX,
        ensures
            *final(self) == (Download {
                done: (old(self).done + len) as u64,
                last_data: now,
                ..*old(self)
            }),
    {
        self.done = self.done + len;
        self.last_data = now;
    }

    /// What to report: the percent that have arrived, where another tenth of the
    /// download has since the last report.
    pub fn report(&mut self) -> (r: Option<u64>)
        requires
            old(self).done * 100 <= u64::MAX,
            old(self).last_pct <= u32::MAX,
        ensures
            final(self).last_pct <= u32::MAX,
            match r {
                Some(p) => {
                    &&& report_of(old(self).done, old(self).total, old(self).last_pct) == Some(
                        p as int,
                    )
                    &&& *final(self) == (Download { last_pct: (p - p % 10) as u64, ..*old(self) })
                },
                None => {
                    &&& report_of(old(self).done, old(self).total, old(self).last_pct) is None
                    &&& *final(self) == *old(self)
                },
            },
    {
        match self.total {
            Some(total) => {
                if total == 0 {
                    return None;
                }
                let pct: u64 = self.done * 100 / total % 0x1_0000_0000;
                if pct >= self.last_pct + 10 {
                    self.last_pct = pct - pct % 10;
                    Some(pct)
                } else {
                    None
                }
            },
            None => None,
        }
    }

    /// How the download goes on after data arrived, where whoever watches it
    /// wants it to, or not.
    pub fn after_data(&self, wanted: bool) -> (r: Progress)
        ensures
            r == if wanted {
                Progress::GoOn
            } else {
                Progress::Cancelled
            },
    {
        if wanted {
            Progress::GoOn
        } else {
            Progress::Cancelled
        }
    }

    /// How the download goes on after a while without data.
    pub fn after_silence(&self, wanted: bool, now: u64) -> (r: Progress)
        ensures
            r == if !wanted {
                Progress::Cancelled
            } else if now >= self.last_data + DOWNLOAD_IO_TIMEOUT_SECS * 1_000_000_000 {
                Progress::Stalled
            } else {
                Progress::GoOn
            },
    {
        if !wanted {
            return Progress::Cancelled;
        }
        if now.saturating_sub(self.last_data) >= DOWNLOAD_IO_TIMEOUT_SECS * 1_000_000_000 {
            Progress::Stalled
        } else {
            Progress::GoOn
        }
    }

    /// Why the download failed: the connection broke.
    pub fn broken(&self, why: &str) -> (r: String)
        ensures
            r@ == about(self.label@, " failed: "@ + why@),
    {
        let mut rest = text::chars_of(" failed: ");
        text::extend_str(&mut rest, why);
        make_about(self.label.as_str(), rest.as_slice())
    }

    /// Why the download failed: what reads from the connection is gone.
    pub fn vanished(&self) -> (r: String)
        ensures
            r@ == about(self.label@, " ended unexpectedly"@),
    {
        let rest = text::chars_of(" ended unexpectedly");
        make_about(self.label.as_str(), rest.as_slice())
    }

    /// Why the download failed: nothing has arrived for too long.
    pub fn stalled(&self) -> (r: String)
        ensures
            r@ == about(self.label@, " stalled (no data for 30s)"@),
    {
        let rest = text::chars_of(" stalled (no data for 30s)");
        make_about(self.label.as_str(), rest.as_slice())
    }

    /// The body has ended: whether it is whole. Only a whole one becomes the
    /// file.
    pub fn ended(&self) -> (r: Result<(), String>)
        ensures
            match r {
                Ok(()) => self.expected matches Some(e) ==> self.done == e,
                Err(why) => self.expected matches Some(e) && self.done != e && why@ == about(
                    self.label@,
                    " incomplete ("@ + text::decimal(self.done as nat) + "/"@ + text::decimal(
                        e as nat,
                    ) + " bytes)"@,
                ),
            },
    {
        if let Some(e) = self.expected {
            if self.done != e {
                let mut rest = text::chars_of(" incomplete (");
                let d = text::decimal_of(self.done);
                text::extend(&mut rest, d.as_slice());
                text::extend_str(&mut rest, "/");
                let x = text::decimal_of(e);
                text::extend(&mut rest, x.as_slice());
                text::extend_str(&mut rest, " bytes)");
                return Err(make_about(self.label.as_str(), rest.as_slice()));
            }
        }
        Ok(())
    }

    /// The file was to be put in its place: it was, or why not, and what is known
    /// of the one that is there. Another download may have been first: that is
    /// as good, where its file is whole.
    pub fn finalized(&self, renamed: &Result<(), String>, there: Option<FileMeta>) -> (r: Result<
        (),
        String,
    >)
        ensures
            match renamed {
                Ok(()) => r is Ok,
                Err(e) => match r {
                    Ok(()) => is_complete(there, self.expected),
                    Err(why) => !is_complete(there, self.expected) && why@ == "finalize of "@
                        + self.label@ + " failed: "@ + e@,
                },
            },
    {
        match renamed {
            Ok(()) => Ok(()),
            Err(e) => {
                if complete(there, self.expected) {
                    return Ok(());
                }
                let mut why = text::chars_of("finalize of ");
                text::extend_str(&mut why, self.label.as_str());
                text::extend_str(&mut why, " failed: ");
                text::extend_str(&mut why, e.as_str());
                Err(text::string_of(why.as_slice()))
            },
        }
    }
}

// ---- the words to expect ----------------------------------------------------

/// Whether a line of the vocabulary counts: it is not blank and no comment.
pub open spec fn is_prompt_line(l: Seq<char>) -> bool {
    text::trim(l).len() > 0 && text::trim_start(l).len() > 0 && text::trim_start(l)[0] != '#'
}

/// The words to expect, from the contents of the vocabulary.
pub open spec fn prompt_of(raw: Seq<char>) -> Option<Seq<char>> {
    let t = clipboard::collapsed(
        text::join(text::lines(raw).filter(|l: Seq<char>| is_prompt_line(l)), " "@),
    );
    if t.len() == 0 {
        None
    } else {
        Some(t)
    }
}

/// The words to expect, from the contents of the vocabulary: the lines that
/// count, in one line with one space between each two words; none where they are
/// not wanted or there are none.
pub fn get_vocab_prompt(use_vocab_bias: bool, vocab: Option<&str>) -> (r: Option<String>)
    ensures
        text::opt_text(r) == match vocab {
            Some(raw) => if use_vocab_bias {
                prompt_of(raw@)
            } else {
                None
            },
            None => None,
        },
{
    if !use_vocab_bias {
        return None;
    }
    let raw = match vocab {
        Some(raw) => raw,
        None => {
            return None;
        },
    };
    let c = text::chars_of(raw);
    let lines = text::lines_of(c.as_slice());
    let ghost all = text::lines(raw@);
    let ghost counts = |l: Seq<char>| is_prompt_line(l);
    let mut kept: Vec<Vec<char>> = Vec::new();
    proof {
        reveal(Seq::filter);
        assert(all.take(0) == Seq::<Seq<char>>::empty());
        assert(text::pieces(kept@) == all.take(0).filter(counts));
    }
    for i in 0..lines.len()
        invariant
            all == text::pieces(lines@),
            counts == (|l: Seq<char>| is_prompt_line(l)),
            text::pieces(kept@) == all.take(i as int).filter(counts),
    {
        proof {
            reveal(Seq::filter);
            assert(all.take(i + 1).drop_last() == all.take(i as int));
            assert(all.take(i + 1).last() == lines@[i as int]@);
        }
        let l = lines[i].as_slice();
        let front = text::trimmed_start(l);
        if text::trimmed(l).len() > 0 && front.len() > 0 && front[0] != '#' {
            let ghost was = kept@;
            let piece = text::to_vec(l);
            let ghost w = piece@;
            kept.push(piece);
            assert(text::pieces(kept@) == text::pieces(was).push(w));
        }
    }
    assert(all.take(all.len() as int) == all);
    let space = text::chars_of(" ");
    let joined = text::joined(&kept, space.as_slice());
    let t = clipboard::collapse(text::string_of(joined.as_slice()).as_str());
    if text::chars_of(t.as_str()).len() == 0 {
        None
    } else {
        Some(t)
    }
}

// ---- what was heard ---------------------------------------------------------

/// What a model writes for sounds that are no speech.
pub open spec fn phrases() -> Seq<&'static str> {
    seq![
        "blank audio",
        "silence",
        "silent",
        "inaudible",
        "music",
        "music playing",
        "background music",
        "background noise",
        "noise",
        "static",
        "applause",
        "laughter",
        "laughing",
        "laughs",
        "no speech",
        "no audio",
        "breathing",
        "coughing",
        "cough",
        "sigh",
        "sighs",
        "sighing",
        "chatter",
        "indistinct chatter",
        "wind",
        "typing",
        "clicking",
        "humming",
        "beep",
        "beeping",
        "pause",
    ]
}

/// What a model writes for sounds that are no speech.
fn phrase_list() -> (r: Vec<&'static str>)
    ensures
        r@ == phrases(),
{
    let r = vec![
        "blank audio",
        "silence",
        "silent",
        "inaudible",
        "music",
        "music playing",
        "background music",
        "background noise",
        "noise",
        "static",
        "applause",
        "laughter",
        "laughing",
        "laughs",
        "no speech",
        "no audio",
        "breathing",
        "coughing",
        "cough",
        "sigh",
        "sighs",
        "sighing",
        "chatter",
        "indistinct chatter",
        "wind",
        "typing",
        "clicking",
        "humming",
        "beep",
        "beeping",
        "pause",
    ];
    assert(r@ == phrases());
    r
}

/// A phrase in lower case, with spaces for low lines and hyphens, and one space
/// between each two words.
pub open spec fn plain_phrase(inner: Seq<char>) -> Seq<char> {
    clipboard::collapsed(
        inner.map_values(
            |c: char|
                if c == '_' || c == '-' {
                    ' '
                } else {
                    text::lower_char(c)
                },
        ),
    )
}

/// Whether a phrase stands for sounds that are no speech.
pub open spec fn is_sound(inner: Seq<char>) -> bool {
    exists|i: int| 0 <= i < phrases().len() && (#[trigger] phrases()[i])@ == plain_phrase(inner)
}

/// Whether a phrase, in any letter case and with low lines or hyphens for its
/// spaces, stands for sounds that are no speech.
pub fn is_non_speech_phrase(inner: &str) -> (r: bool)
    ensures
        r == is_sound(inner@),
{
    let c = text::chars_of(inner);
    let ghost all = inner@.map_values(
        |c: char|
            if c == '_' || c == '-' {
                ' '
            } else {
                text::lower_char(c)
            },
    );
    let mut plain: Vec<char> = Vec::new();
    for i in 0..c.len()
        invariant
            c@ == inner@,
            all == inner@.map_values(
                |c: char|
                    if c == '_' || c == '-' {
                        ' '
                    } else {
                        text::lower_char(c)
                    },
            ),
            plain@ == all.take(i as int),
    {
        plain.push(
            if c[i] == '_' || c[i] == '-' {
                ' '
            } else {
                text::ascii_lower(c[i])
            },
        );
        assert(all.take(i + 1) == all.take(i as int).push(all[i as int]));
    }
    assert(all.take(all.len() as int) == all);
    let phrase = clipboard::collapse(text::string_of(plain.as_slice()).as_str());
    let list = phrase_list();
    for i in 0..list.len()
        invariant
            list@ == phrases(),
            phrase@ == plain_phrase(inner@),
            forall|j: int| 0 <= j < i ==> (#[trigger] phrases()[j])@ != phrase@,
    {
        if text::str_eq(list[i], phrase.as_str()) {
            assert(phrases()[i as int]@ == plain_phrase(inner@));
            return true;
        }
    }
    false
}

/// What closes a marker that `c` opens.
pub open spec fn closer(c: char) -> Option<char> {
    if c == '[' {
        Some(']')
    } else if c == '(' {
        Some(')')
    } else if c == '*' {
        Some('*')
    } else {
        None
    }
}

/// Whether `s` holds nothing but markers of sounds and white space: notes, and
/// phrases in brackets, parentheses or asterisks that stand for sounds.
pub open spec fn only_sounds(s: Seq<char>) -> bool
    decreases s.len(),
{
    if s.len() == 0 {
        true
    } else if text::is_white(s[0]) || s[0] == '\u{266a}' {
        only_sounds(s.skip(1))
    } else {
        match closer(s[0]) {
            Some(c) => match text::index_of(s.skip(1), c) {
                Some(k) => 0 <= k < s.len() - 1 && is_sound(s.subrange(1, 1 + k)) && only_sounds(
                    s.skip(k + 2),
                ),
                None => false,
            },
            None => false,
        }
    }
}

/// The text, or nothing where it holds nothing but markers of sounds. Anything
/// beside them, a marker that is not closed or a phrase that is not known keeps
/// the whole text as it is.
pub fn collapse_non_speech(heard: &str) -> (r: &str)
    ensures
        r@ == if only_sounds(heard@) {
            ""@
        } else {
            heard@
        },
{
    let c = text::chars_of(heard);
    let all = c.as_slice();
    let mut i: usize = 0;
    assert(heard@.skip(0) == heard@);
    while i < all.len()
        invariant
            all@ == heard@,
            i <= all@.len(),
            only_sounds(heard@) == only_sounds(heard@.skip(i as int)),
        decreases all@.len() - i,
    {
        let rest = text::rest(all, i);
        let ghost here = heard@.skip(i as int);
        let n: usize = rest.len();
        assert(rest@ == here);
        if text::is_white_space(rest[0]) || rest[0] == '\u{266a}' {
            assert(here.skip(1) == heard@.skip(i + 1));
            i = i + 1;
            continue;
        }
        let close = match rest[0] {
            '[' => ']',
            '(' => ')',
            '*' => '*',
            _ => {
                return heard;
            },
        };
        let tail = text::rest(rest, 1);
        let m: usize = tail.len();
        let k: usize = match text::position_of(tail, close) {
            Some(k) => k,
            None => {
                return heard;
            },
        };
        assert(k < m);
        let inner = vstd::slice::slice_subrange(rest, 1, 1 + k);
        if !is_non_speech_phrase(text::string_of(inner).as_str()) {
            return heard;
        }
        assert(here.skip(k + 2) == heard@.skip(i + k + 2));
        i = i + k + 2;
    }
    ""
}

/// What is made of the segments that the model heard: their texts in one, or
/// nothing where they hold nothing but markers of sounds.
pub fn transcript(segments: &Vec<String>) -> (r: String)
    ensures
        r@ == if only_sounds(gpu::joined_segments(text::texts(segments@))) {
            ""@
        } else {
            gpu::joined_segments(text::texts(segments@))
        },
{
    let joined = gpu::join_segments(segments);
    collapse_non_speech(joined.as_str()).to_string()
}

// ---- laws -------------------------------------------------------------------

/// Every model of the catalog has a plain file, and a quantized one exactly
/// where it says so.
pub proof fn law_catalog_sizes_are_known(i: int)
    requires
        0 <= i < catalog_of().len(),
    ensures
        catalog_of()[i].f16_bytes > 0,
        catalog_of()[i].has_q8 <==> catalog_of()[i].q8_bytes > 0,
{
    assert(catalog_of().len() == 12);
}

/// A file of a model that the catalog knows counts only at exactly its size:
/// one that was cut short is downloaded again.
pub proof fn law_short_files_do_not_count(m: FileMeta, expected: u64)
    ensures
        is_complete(Some(m), Some(expected)) <==> m.is_file && m.len == expected,
{
}

/// Behind markers and white space alone, what follows decides.
pub proof fn law_sounds_leave_it_to_the_rest(sounds: Seq<char>, rest: Seq<char>)
    requires
        only_sounds(sounds),
    ensures
        only_sounds(sounds + rest) == only_sounds(rest),
    decreases sounds.len(),
{
    let all = sounds + rest;
    if sounds.len() == 0 {
        assert(all == rest);
    } else if text::is_white(sounds[0]) || sounds[0] == '\u{266a}' {
        assert(all.skip(1) == sounds.skip(1) + rest);
        law_sounds_leave_it_to_the_rest(sounds.skip(1), rest);
    } else {
        let c = closer(sounds[0])->0;
        let k = text::index_of(sounds.skip(1), c)->0;
        assert(all.skip(1) == sounds.skip(1) + rest);
        text::lemma_index_of_front(sounds.skip(1), rest, c);
        assert(all.subrange(1, 1 + k) == sounds.subrange(1, 1 + k));
        assert(all.skip(k + 2) == sounds.skip(k + 2) + rest);
        law_sounds_leave_it_to_the_rest(sounds.skip(k + 2), rest);
    }
}

/// A take that holds anything outside the markers is kept as it is, wherever in
/// the take it stands.
pub proof fn law_words_keep_the_take(sounds: Seq<char>, c: char, rest: Seq<char>)
    requires
        only_sounds(sounds),
        !text::is_white(c),
        c != '\u{266a}',
        closer(c) is None,
    ensures
        !only_sounds(sounds + (seq![c] + rest)),
{
    assert((seq![c] + rest)[0] == c);
    law_sounds_leave_it_to_the_rest(sounds, seq![c] + rest);
}

/// A take of white space alone is nothing.
pub proof fn law_blank_takes_are_nothing(white: Seq<char>)
    requires
        forall|i: int| 0 <= i < white.len() ==> text::is_white(#[trigger] white[i]),
    ensures
        only_sounds(white),
    decreases white.len(),
{
    if white.len() > 0 {
        assert(text::is_white(white[0]));
        assert forall|i: int| 0 <= i < white.skip(1).len() implies text::is_white(
            #[trigger] white.skip(1)[i],
        ) by {
            assert(text::is_white(white[i + 1]));
        }
        law_blank_takes_are_nothing(white.skip(1));
    }
}

/// The file of a model: `ggml-`, its name and `.bin`, with `-q8_0` in front of that for
/// the quantized one, which is used for `int8` alone, and not where the catalog has
/// none.
pub proof fn law_model_files(model: Seq<char>, compute_type: Seq<char>)
    ensures
        compute_type != "int8"@ ==> model_file_of(model, compute_type) == "ggml-"@ + model + ".bin"@,
        compute_type == "int8"@ ==> model_file_of(model, compute_type) == if model_named(
            catalog_of(),
            model,
        ) matches Some(m) && !m.has_q8 {
            "ggml-"@ + model + ".bin"@
        } else {
            "ggml-"@ + model + "-q8_0.bin"@
        },
{
    lemma_named_is_named(catalog_of(), model);
}

/// A model that is found by its name has it.
proof fn lemma_named_is_named(all: Seq<ModelInfo>, name: Seq<char>)
    ensures
        model_named(all, name) matches Some(m) ==> m.name@ == name,
    decreases all.len(),
{
    if all.len() > 0 && all[0].name@ != name {
        lemma_named_is_named(all.skip(1), name);
    }
}

/// The size that the file of each model must have.
pub proof fn law_the_sizes_of_models()
    ensures
        expected_size("tiny"@, "int8"@) == Some(43_537_433u64) && expected_size("tiny"@, "float16"@) == Some(77_691_713u64),
        expected_size("tiny.en"@, "int8"@) == Some(43_550_795u64) && expected_size("tiny.en"@, "float16"@) == Some(77_704_715u64),
        expected_size("base"@, "int8"@) == Some(81_768_585u64) && expected_size("base"@, "float16"@) == Some(147_951_465u64),
        expected_size("base.en"@, "int8"@) == Some(81_781_811u64) && expected_size("base.en"@, "float16"@) == Some(147_964_211u64),
        expected_size("small"@, "int8"@) == Some(264_464_607u64) && expected_size("small"@, "float16"@) == Some(487_601_967u64),
        expected_size("small.en"@, "int8"@) == Some(264_477_561u64) && expected_size("small.en"@, "float16"@) == Some(487_614_201u64),
        expected_size("medium"@, "int8"@) == Some(823_369_779u64) && expected_size("medium"@, "float16"@) == Some(1_533_763_059u64),
        expected_size("medium.en"@, "int8"@) == Some(823_382_461u64) && expected_size("medium.en"@, "float16"@) == Some(1_533_774_781u64),
        expected_size("large-v1"@, "int8"@) == Some(3_094_623_691u64) && expected_size("large-v1"@, "float16"@) == Some(3_094_623_691u64),
        expected_size("large-v2"@, "int8"@) == Some(1_656_129_691u64) && expected_size("large-v2"@, "float16"@) == Some(3_094_623_691u64),
        expected_size("large-v3"@, "int8"@) == Some(3_095_033_483u64) && expected_size("large-v3"@, "float16"@) == Some(3_095_033_483u64),
        expected_size("large-v3-turbo"@, "int8"@) == Some(874_188_075u64) && expected_size("large-v3-turbo"@, "float16"@) == Some(1_624_555_275u64),
{
    reveal_strlit("tiny");
    reveal_strlit("tiny.en");
    reveal_strlit("base");
    reveal_strlit("base.en");
    reveal_strlit("small");
    reveal_strlit("small.en");
    reveal_strlit("medium");
    reveal_strlit("medium.en");
    reveal_strlit("large-v1");
    reveal_strlit("large-v2");
    reveal_strlit("large-v3");
    reveal_strlit("large-v3-turbo");
    reveal_strlit("int8");
    reveal_strlit("float16");
    assert("int8"@.len() == 4 && "float16"@.len() == 7);
    assert("tiny"@.len() == 4 && "tiny"@[0] == 't');
    assert("tiny.en"@.len() == 7 && "tiny.en"@[0] == 't');
    assert("base"@.len() == 4 && "base"@[0] == 'b');
    assert("base.en"@.len() == 7 && "base.en"@[0] == 'b');
    assert("small"@.len() == 5 && "small"@[0] == 's');
    assert("small.en"@.len() == 8 && "small.en"@[0] == 's');
    assert("medium"@.len() == 6 && "medium"@[0] == 'm');
    assert("medium.en"@.len() == 9 && "medium.en"@[0] == 'm');
    assert("large-v1"@.len() == 8 && "large-v1"@[0] == 'l' && "large-v1"@[7] == '1');
    assert("large-v2"@.len() == 8 && "large-v2"@[0] == 'l' && "large-v2"@[7] == '2');
    assert("large-v3"@.len() == 8 && "large-v3"@[0] == 'l' && "large-v3"@[7] == '3');
    assert("large-v3-turbo"@.len() == 14 && "large-v3-turbo"@[0] == 'l');
    let all = catalog_of();
    assert(all.len() == 12);
    assert forall|i: int, j: int| 0 <= i < j < 12 implies (#[trigger] all[i]).name@ != (
    #[trigger] all[j]).name@ by {}
    assert forall|i: int| 0 <= i < 12 implies model_named(all, (#[trigger] all[i]).name@) == Some(
        all[i],
    ) by {
        lemma_named_at(all, 0, i);
        assert(all.skip(0) == all);
    }
    assert(all[0].name@ == "tiny"@);
    assert(all[1].name@ == "tiny.en"@);
    assert(all[2].name@ == "base"@);
    assert(all[3].name@ == "base.en"@);
    assert(all[4].name@ == "small"@);
    assert(all[5].name@ == "small.en"@);
    assert(all[6].name@ == "medium"@);
    assert(all[7].name@ == "medium.en"@);
    assert(all[8].name@ == "large-v1"@);
    assert(all[9].name@ == "large-v2"@);
    assert(all[10].name@ == "large-v3"@);
    assert(all[11].name@ == "large-v3-turbo"@);
}

/// A model is found at its place, where none in front of it has its name.
proof fn lemma_named_at(all: Seq<ModelInfo>, from: int, i: int)
    requires
        0 <= from <= i < all.len(),
        forall|j: int| from <= j < i ==> (#[trigger] all[j]).name@ != all[i].name@,
    ensures
        model_named(all.skip(from), all[i].name@) == Some(all[i]),
    decreases i - from,
{
    let rest = all.skip(from);
    assert(rest[0] == all[from]);
    if from < i {
        assert(rest.skip(1) == all.skip(from + 1));
        lemma_named_at(all, from + 1, i);
    }
}

/// A file counts where it is one, and has its size where that is known.
pub proof fn law_what_counts_as_a_file(meta: Option<FileMeta>, expected: Option<u64>)
    ensures
        meta is None ==> !is_complete(meta, expected),
        meta matches Some(m) ==> (is_complete(meta, None) <==> m.is_file),
        meta matches Some(m) ==> (expected matches Some(e) ==> (is_complete(meta, expected)
            <==> m.is_file && m.len == e)),
{
}

/// What is reported of a download is the percent of it that has arrived, in whole
/// numbers downwards, and only once it is ten more than the tenth of the last report.
pub proof fn law_reports_are_percents(done: u64, total: u64, last_pct: u64, p: int)
    requires
        0 < total,
        done <= total,
    ensures
        percent_of(done, total) * total <= 100 * done < (percent_of(done, total) + 1) * total,
        0 <= percent_of(done, total) <= 100,
        done == total ==> percent_of(done, total) == 100,
        report_of(done, Some(total), last_pct) == Some(p) <==> p == percent_of(done, total) && p
            >= last_pct + 10,
        report_of(done, None, last_pct) is None,
{
    let x = done * 100;
    let t = total as int;
    let q = x / t;
    vstd::arithmetic::div_mod::lemma_fundamental_div_mod(x, t);
    assert(0 <= x % t < t) by (nonlinear_arith)
        requires
            t > 0,
    ;
    assert(0 <= q <= 100) by (nonlinear_arith)
        requires
            0 <= x <= 100 * t,
            t > 0,
            q == x / t,
    ;
    assert(q == percent_of(done, total));
    assert(t * q == q * total) by (nonlinear_arith)
        requires
            t == total,
    ;
    assert((q + 1) * total == q * total + total) by (nonlinear_arith);
    if done == total {
        vstd::arithmetic::div_mod::lemma_fundamental_div_mod_converse(x, t, 100, 0);
    }
}

/// The phrases that stand for sounds: these, and no others.
pub proof fn law_known_sounds(x: Seq<char>)
    ensures
        is_sound(x) <==> plain_phrase(x) == "blank audio"@
            || plain_phrase(x) == "silence"@
            || plain_phrase(x) == "silent"@
            || plain_phrase(x) == "inaudible"@
            || plain_phrase(x) == "music"@
            || plain_phrase(x) == "music playing"@
            || plain_phrase(x) == "background music"@
            || plain_phrase(x) == "background noise"@
            || plain_phrase(x) == "noise"@
            || plain_phrase(x) == "static"@
            || plain_phrase(x) == "applause"@
            || plain_phrase(x) == "laughter"@
            || plain_phrase(x) == "laughing"@
            || plain_phrase(x) == "laughs"@
            || plain_phrase(x) == "no speech"@
            || plain_phrase(x) == "no audio"@
            || plain_phrase(x) == "breathing"@
            || plain_phrase(x) == "coughing"@
            || plain_phrase(x) == "cough"@
            || plain_phrase(x) == "sigh"@
            || plain_phrase(x) == "sighs"@
            || plain_phrase(x) == "sighing"@
            || plain_phrase(x) == "chatter"@
            || plain_phrase(x) == "indistinct chatter"@
            || plain_phrase(x) == "wind"@
            || plain_phrase(x) == "typing"@
            || plain_phrase(x) == "clicking"@
            || plain_phrase(x) == "humming"@
            || plain_phrase(x) == "beep"@
            || plain_phrase(x) == "beeping"@
            || plain_phrase(x) == "pause"@,
{
    assert(phrases()[0]@ == "blank audio"@);
    assert(phrases()[1]@ == "silence"@);
    assert(phrases()[2]@ == "silent"@);
    assert(phrases()[3]@ == "inaudible"@);
    assert(phrases()[4]@ == "music"@);
    assert(phrases()[5]@ == "music playing"@);
    assert(phrases()[6]@ == "background music"@);
    assert(phrases()[7]@ == "background noise"@);
    assert(phrases()[8]@ == "noise"@);
    assert(phrases()[9]@ == "static"@);
    assert(phrases()[10]@ == "applause"@);
    assert(phrases()[11]@ == "laughter"@);
    assert(phrases()[12]@ == "laughing"@);
    assert(phrases()[13]@ == "laughs"@);
    assert(phrases()[14]@ == "no speech"@);
    assert(phrases()[15]@ == "no audio"@);
    assert(phrases()[16]@ == "breathing"@);
    assert(phrases()[17]@ == "coughing"@);
    assert(phrases()[18]@ == "cough"@);
    assert(phrases()[19]@ == "sigh"@);
    assert(phrases()[20]@ == "sighs"@);
    assert(phrases()[21]@ == "sighing"@);
    assert(phrases()[22]@ == "chatter"@);
    assert(phrases()[23]@ == "indistinct chatter"@);
    assert(phrases()[24]@ == "wind"@);
    assert(phrases()[25]@ == "typing"@);
    assert(phrases()[26]@ == "clicking"@);
    assert(phrases()[27]@ == "humming"@);
    assert(phrases()[28]@ == "beep"@);
    assert(phrases()[29]@ == "beeping"@);
    assert(phrases()[30]@ == "pause"@);
    assert(phrases().len() == 31);
}

/// How a phrase is written does not matter: in whatever letter case, with low lines,
/// hyphens or spaces.
pub proof fn law_spellings_of_sounds(x: Seq<char>, y: Seq<char>)
    requires
        x.len() == y.len(),
        forall|i: int|
            0 <= i < x.len() ==> text::lower_char(#[trigger] x[i]) == text::lower_char(y[i]) || ((x[i]
                == ' ' || x[i] == '_' || x[i] == '-') && (y[i] == ' ' || y[i] == '_' || y[i]
                == '-')),
    ensures
        is_sound(x) == is_sound(y),
{
    let f = |c: char|
        if c == '_' || c == '-' {
            ' '
        } else {
            text::lower_char(c)
        };
    assert forall|i: int| 0 <= i < x.len() implies f(#[trigger] x[i]) == f(y[i]) by {}
    assert(x.map_values(f) =~= y.map_values(f));
}

/// A phrase in brackets, parentheses or asterisks is a marker where it stands for a
/// sound, and what follows it decides with it; one that is not closed is none. Notes and
/// white space are markers too.
pub proof fn law_markers(inner: Seq<char>, rest: Seq<char>, open: char, close: char)
    requires
        (open == '[' && close == ']') || (open == '(' && close == ')') || (open == '*' && close
            == '*'),
        !inner.contains(close),
    ensures
        only_sounds(seq![open] + inner + seq![close] + rest) == (is_sound(inner) && only_sounds(
            rest,
        )),
        !only_sounds(seq![open] + inner),
        only_sounds(seq!['\u{266a}'] + rest) == only_sounds(rest),
        only_sounds(seq![' '] + rest) == only_sounds(rest),
        only_sounds(Seq::empty()),
{
    let s = seq![open] + inner + seq![close] + rest;
    assert(s[0] == open && closer(open) == Some(close));
    assert(!text::is_white(open));
    let tail = s.skip(1);
    assert(tail == inner + seq![close] + rest);
    assert forall|i: int| 0 <= i < inner.len() implies #[trigger] inner[i] != close by {
        assert(inner.contains(inner[i]));
    }
    text::lemma_index_of(inner, close, rest);
    let k = inner.len() as int;
    assert(text::index_of(tail, close) == Some(k));
    assert(s.subrange(1, 1 + k) == inner);
    assert(s.skip(k + 2) == rest);
    let t = seq![open] + inner;
    assert(t.skip(1) == inner);
    text::law_the_first_is_found(inner, seq![close]);
    if let Some(j) = text::index_of(inner, close) {
        assert(inner.subrange(j, j + 1)[0] == inner[j]);
    }
    assert((seq!['\u{266a}'] + rest).skip(1) == rest);
    assert((seq![' '] + rest).skip(1) == rest);
}

/// The words to expect are those of the lines of the vocabulary, in order, with one space
/// between each two: a blank line and a comment make no difference.
pub proof fn law_the_prompt_is_made_of_lines(l: Seq<char>, rest: Seq<char>)
    requires
        !l.contains('\n'),
        l.len() > 0,
        l.last() != '\r',
    ensures
        ({
            let t = text::trim(l);
            let word = clipboard::collapsed(l);
            &&& t.len() == 0 || t[0] == '#' ==> prompt_of(l.push('\n') + rest) == prompt_of(rest)
            &&& t.len() > 0 && t[0] != '#' ==> prompt_of(l.push('\n') + rest) == match prompt_of(
                rest,
            ) {
                Some(p) => Some(word.push(' ') + p),
                None => Some(word),
            }
        }),
        prompt_of(Seq::empty()) is None,
{
    reveal_strlit(" ");
    assert(" "@ == seq![' ']);
    text::law_lines(l, rest);
    let f = |l: Seq<char>| is_prompt_line(l);
    let ls = text::lines(rest);
    let e = Seq::<char>::empty();
    let none = Seq::<Seq<char>>::empty();
    reveal(Seq::filter);
    assert(none.filter(f) == none);
    assert(text::join(none, " "@) == e);
    clipboard::tidy::lemma_tidy_stays(e);
    Seq::filter_distributes_over_add(seq![l], ls, f);
    assert(seq![l].drop_last() == none);
    let kept = ls.filter(f);
    lemma_trim_fronts(l);
    if is_prompt_line(l) {
        assert(seq![l].filter(f) == seq![l]);
        if kept.len() == 0 {
            assert(seq![l] + kept == seq![l]);
            assert(text::join(seq![l], " "@) == l);
            clipboard::tidy::lemma_collapsed_between(l, ' ', e);
            lemma_not_blank_line(l);
        } else {
            lemma_join_line(l, kept);
            clipboard::tidy::lemma_collapsed_between(l, ' ', text::join(kept, " "@));
            lemma_not_blank_line(l);
        }
    } else {
        assert(seq![l].filter(f) == none);
        assert(none + kept == kept);
    }
}

/// What trimming leaves begins with what trimming the front leaves.
proof fn lemma_trim_fronts(l: Seq<char>)
    ensures
        text::trim(l).len() > 0 ==> text::trim_start(l).len() > 0 && text::trim(l)[0]
            == text::trim_start(l)[0],
{
    lemma_trim_end_front(text::trim_start(l));
}

/// What trimming the end leaves begins as before.
proof fn lemma_trim_end_front(s: Seq<char>)
    ensures
        text::trim_end(s).len() > 0 ==> s.len() > 0 && text::trim_end(s)[0] == s[0],
    decreases s.len(),
{
    if s.len() > 0 && text::is_white(s.last()) {
        lemma_trim_end_front(s.drop_last());
    }
}

/// A line that is not blank has a word.
proof fn lemma_not_blank_line(l: Seq<char>)
    requires
        text::trim(l).len() > 0,
    ensures
        clipboard::collapsed(l).len() > 0,
    decreases l.len(),
{
    let e = Seq::<char>::empty();
    if text::is_white(l[0]) {
        text::lemma_trim_skip_first(l);
        lemma_not_blank_line(l.skip(1));
        clipboard::tidy::lemma_collapsed_between(e, l[0], l.skip(1));
        assert(e.push(l[0]) + l.skip(1) == l);
        clipboard::tidy::lemma_tidy_stays(e);
    } else {
        lemma_first_word(l);
    }
}

/// A text that does not begin with white space has a word.
proof fn lemma_first_word(l: Seq<char>)
    requires
        l.len() > 0,
        !text::is_white(l[0]),
    ensures
        clipboard::collapsed(l).len() > 0,
    decreases l.len(),
{
    let front = l.drop_last();
    let e = Seq::<char>::empty();
    if text::is_white(l.last()) {
        assert(front[0] == l[0]);
        lemma_first_word(front);
        clipboard::tidy::lemma_collapsed_between(front, l.last(), e);
        assert(front.push(l.last()) + e == l);
        clipboard::tidy::lemma_tidy_stays(e);
    } else {
        let p = text::split_white(l);
        text::lemma_split_white_some(front);
        let last = p.last();
        assert(last.len() > 0);
        assert(p == p.drop_last().push(last));
        text::lemma_non_empty_push(p.drop_last(), last);
        assert(text::words(l).len() > 0);
    }
}

/// Lines that are joined with one more in front.
proof fn lemma_join_line(l: Seq<char>, v: Seq<Seq<char>>)
    requires
        v.len() > 0,
    ensures
        text::join(seq![l] + v, seq![' ']) == l.push(' ') + text::join(v, seq![' ']),
    decreases v.len(),
{
    let all = seq![l] + v;
    let sep = seq![' '];
    assert(all.last() == v.last());
    assert(all.drop_last() == seq![l] + v.drop_last());
    if v.len() == 1 {
        assert(all.drop_last() == seq![l]);
        assert(text::join(seq![l], sep) == l);
        assert(l + sep + v[0] == l.push(' ') + v[0]);
    } else {
        lemma_join_line(l, v.drop_last());
        assert(l.push(' ') + text::join(v.drop_last(), sep) + sep + v.last() == l.push(' ') + (
        text::join(v.drop_last(), sep) + sep + v.last()));
    }
}

/// Every message about a download begins with the model that is being fetched.
pub proof fn law_downloads_are_named(label: Seq<char>, rest: Seq<char>)
    ensures
        about(label, rest) == "download of "@ + label + rest,
{
}

} // verus!
