//! One take on its way from the engine to the clipboard and the log.

use crate::clipboard;
use crate::flow::engine::Target;
use crate::flow::{AppCtx, Effect};
use crate::text;
use crate::vocab;
use vstd::prelude::*;

verus! {

/// What a take comes to.
#[derive(Clone, Copy, PartialEq, Eq, Structural, Debug)]
pub enum Outcome {
    /// It is on the clipboard.
    Done,
    /// Nothing was said.
    Empty,
    /// It could not be transcribed.
    Error,
    /// There is no model to transcribe it with.
    Model,
    /// It could not be copied.
    CopyFail,
    /// It was thrown away.
    Noop,
}

/// A line of the log.
#[derive(Debug, PartialEq, Eq)]
pub struct LogLine {
    /// The take as it was heard.
    pub verbatim: String,
    /// What went to the clipboard.
    pub clean: String,
    pub mic: String,
    pub model: String,
    pub device: Target,
}

/// What a take waits for.
#[derive(Debug, PartialEq, Eq)]
pub enum Ask {
    /// The GPU worker's answer, with a beam of five.
    Gpu,
    /// The loading of the engine on the CPU, the GPU worker being stopped first.
    LoadCpu,
    /// The answer of the engine on the CPU, with a beam of one.
    Cpu,
    /// The clipboard, to which this text goes.
    Copy(String),
    /// The log, to which this line goes.
    Log(LogLine),
    /// Nothing more.
    End(Outcome),
}

/// How wide the GPU searches.
pub const GPU_BEAM: u64 = 5;

/// How wide the CPU searches.
pub const CPU_BEAM: u64 = 1;

/// A take on its way.
#[derive(Debug, PartialEq, Eq)]
pub struct TakeJob {
    /// Its number.
    pub session: u64,
    /// Its microphone.
    pub mic: String,
    /// How the copy is cleaned up.
    pub cleanup_mode: String,
    /// The corrections of the copy: what was heard and what is to be written.
    pub corrections: Vec<(String, String)>,
    /// The model to log where the engine does not name one.
    pub fallback_model: String,
    /// The GPU failed on the way, so that another engine serves now.
    pub flipped: bool,
    /// The take as it was heard.
    pub heard: String,
    /// What goes to the clipboard.
    pub copy: String,
    /// What went to the clipboard.
    pub clean: Option<String>,
    /// It is in the log.
    pub logged: bool,
    /// It is logged in the vault, not in the fallback.
    pub is_vault: bool,
}

/// What goes to the clipboard of a take: it is cleaned up, then corrected.
pub open spec fn copy_of(
    verbatim: Seq<char>,
    mode: Seq<char>,
    corrections: Seq<(Seq<char>, Seq<char>)>,
) -> Seq<char> {
    vocab::corrected_take(clipboard::clip_of(verbatim, mode), corrections)
}

/// What comes behind a take's text: nothing where it is thrown away or holds
/// nothing, else the clipboard.
pub open spec fn after_text(
    discarded: bool,
    verbatim: Seq<char>,
    mode: Seq<char>,
    corrections: Seq<(Seq<char>, Seq<char>)>,
    ask: Ask,
) -> bool {
    if discarded {
        ask == Ask::End(Outcome::Noop)
    } else if verbatim.len() == 0 {
        ask == Ask::End(Outcome::Empty)
    } else {
        ask matches Ask::Copy(t) && t@ == copy_of(verbatim, mode, corrections)
    }
}

/// Whether the take `before` has become `after` with its text: it keeps what was
/// heard and what goes to the clipboard, and nothing else of it changes.
pub open spec fn has_text(before: TakeJob, after: TakeJob, verbatim: Seq<char>, ask: Ask) -> bool {
    &&& after == (TakeJob { heard: after.heard, copy: after.copy, ..before })
    &&& after.heard@ == verbatim
    &&& ask matches Ask::Copy(t) ==> after.copy@ == t@
}

/// Whether `l` is the line that is logged of a take: as it was heard, with the
/// model that served it, on the device that did.
pub open spec fn is_line_of(job: TakeJob, model: Seq<char>, device: Target, l: LogLine) -> bool {
    &&& l.verbatim@ == job.heard@
    &&& l.clean@ == job.copy@
    &&& l.mic@ == job.mic@
    &&& l.model@ == if model.len() == 0 {
        job.fallback_model@
    } else {
        model
    }
    &&& l.device == device
}

/// What comes behind the clipboard, whether it took the text or not: the log. A
/// take whose text is on the clipboard remembers that text.
pub open spec fn was_copied(
    before: TakeJob,
    ok: bool,
    model: Seq<char>,
    device: Target,
    after: TakeJob,
    ask: Ask,
) -> bool {
    &&& after == (TakeJob { clean: after.clean, ..before })
    &&& if ok {
        text::opt_text(after.clean) == Some(before.copy@)
    } else {
        after.clean == before.clean
    }
    &&& ask matches Ask::Log(l) && is_line_of(before, model, device, l)
}

/// How many answers a take may still wait for.
pub open spec fn rank(ask: Ask) -> nat {
    match ask {
        Ask::Gpu => 5,
        Ask::LoadCpu => 4,
        Ask::Cpu => 3,
        Ask::Copy(_) => 2,
        Ask::Log(_) => 1,
        Ask::End(_) => 0,
    }
}

impl TakeJob {
    /// A take on its way.
    pub fn new(
        session: u64,
        mic: String,
        cleanup_mode: String,
        corrections: Vec<(String, String)>,
        fallback_model: String,
    ) -> (r: TakeJob)
        ensures
            r.session == session,
            r.mic == mic,
            r.cleanup_mode == cleanup_mode,
            r.corrections == corrections,
            r.fallback_model == fallback_model,
            !r.flipped,
            r.heard@ == Seq::<char>::empty(),
            r.copy@ == Seq::<char>::empty(),
            r.clean is None,
            !r.logged,
            r.is_vault,
    {
        TakeJob {
            session,
            mic,
            cleanup_mode,
            corrections,
            fallback_model,
            flipped: false,
            heard: String::new(),
            copy: String::new(),
            clean: None,
            logged: false,
            is_vault: true,
        }
    }

    /// Which engine the take goes to. A GPU worker that is gone counts as one
    /// that failed; without a model on the CPU there is nothing to do.
    pub fn begin(
        &mut self,
        ctx: &mut AppCtx,
        device: Target,
        has_worker: bool,
        has_transcriber: bool,
    ) -> (r: Ask)
        ensures
            old(ctx).wf() ==> final(ctx).wf(),
            r == if device == Target::Gpu {
                if has_worker {
                    Ask::Gpu
                } else {
                    Ask::LoadCpu
                }
            } else if has_transcriber {
                Ask::Cpu
            } else {
                Ask::End(Outcome::Model)
            },
            *final(ctx) == (AppCtx {
                gpu_ok: old(ctx).gpu_ok && !(r is LoadCpu),
                ..*old(ctx)
            }),
            *final(self) == (TakeJob { flipped: old(self).flipped || r is LoadCpu, ..*old(self) }),
    {
        if device == Target::Gpu {
            if has_worker {
                return Ask::Gpu;
            }
            ctx.gpu_ok = false;
            self.flipped = true;
            return Ask::LoadCpu;
        }
        if has_transcriber {
            Ask::Cpu
        } else {
            Ask::End(Outcome::Model)
        }
    }

    /// The take's text came: what comes behind it.
    fn text_came(&mut self, ctx: &AppCtx, verbatim: String) -> (r: Ask)
        ensures
            after_text(
                ctx.discards(old(self).session),
                verbatim@,
                old(self).cleanup_mode@,
                vocab::pair_texts(old(self).corrections@),
                r,
            ),
            r is End || r is Copy,
            has_text(*old(self), *final(self), verbatim@, r),
    {
        self.heard = verbatim;
        if ctx.cancel_xscribe || ctx.session != self.session {
            return Ask::End(Outcome::Noop);
        }
        if text::chars_of(self.heard.as_str()).len() == 0 {
            return Ask::End(Outcome::Empty);
        }
        let clean = clipboard::clipboard_text(self.heard.as_str(), self.cleanup_mode.as_str());
        let copy = vocab::apply_corrections(clean.as_str(), self.corrections.as_slice());
        self.copy = copy.clone();
        Ask::Copy(copy)
    }

    /// The GPU worker answered: its text, or that it failed. A failure never
    /// costs the take: the GPU is left alone for a while, and the same take goes
    /// to the CPU.
    pub fn gpu_answered(&mut self, ctx: &mut AppCtx, answer: Option<String>) -> (r: Ask)
        ensures
            old(ctx).wf() ==> final(ctx).wf(),
            match answer {
                Some(verbatim) => {
                    &&& after_text(
                        old(ctx).discards(old(self).session),
                        verbatim@,
                        old(self).cleanup_mode@,
                        vocab::pair_texts(old(self).corrections@),
                        r,
                    )
                    &&& r is End || r is Copy
                    &&& *final(ctx) == *old(ctx)
                    &&& has_text(*old(self), *final(self), verbatim@, r)
                },
                None => {
                    &&& r is LoadCpu
                    &&& *final(ctx) == (AppCtx { gpu_ok: false, ..*old(ctx) })
                    &&& *final(self) == (TakeJob { flipped: true, ..*old(self) })
                },
            },
    {
        match answer {
            Some(verbatim) => self.text_came(ctx, verbatim),
            None => {
                ctx.gpu_ok = false;
                self.flipped = true;
                Ask::LoadCpu
            },
        }
    }

    /// The engine on the CPU was to be loaded for this take: whether it was.
    pub fn cpu_loaded(&self, has_transcriber: bool) -> (r: Ask)
        ensures
            r == if has_transcriber {
                Ask::Cpu
            } else {
                Ask::End(Outcome::Error)
            },
    {
        if has_transcriber {
            Ask::Cpu
        } else {
            Ask::End(Outcome::Error)
        }
    }

    /// The engine on the CPU answered: its text, or that it failed. With the text
    /// the panel is told which engine serves, where it has changed on the way.
    pub fn cpu_answered(&mut self, ctx: &AppCtx, answer: Option<String>) -> (r: (Ask, Vec<Effect>))
        ensures
            match answer {
                Some(verbatim) => {
                    &&& after_text(
                        ctx.discards(old(self).session),
                        verbatim@,
                        old(self).cleanup_mode@,
                        vocab::pair_texts(old(self).corrections@),
                        r.0,
                    )
                    &&& r.0 is End || r.0 is Copy
                    &&& has_text(*old(self), *final(self), verbatim@, r.0)
                },
                None => r.0 == Ask::End(Outcome::Error) && *final(self) == *old(self),
            },
            r.1@ == if answer is Some && old(self).flipped {
                seq![Effect::PushEngine]
            } else {
                Seq::<Effect>::empty()
            },
    {
        let mut effects: Vec<Effect> = Vec::new();
        match answer {
            Some(verbatim) => {
                if self.flipped {
                    effects.push(Effect::PushEngine);
                }
                assert(effects@ == if self.flipped {
                    seq![Effect::PushEngine]
                } else {
                    Seq::<Effect>::empty()
                });
                (self.text_came(ctx, verbatim), effects)
            },
            None => (Ask::End(Outcome::Error), effects),
        }
    }

    /// The text was to be copied: whether it was. Either way the take is logged,
    /// served by this model on this device.
    pub fn copied(&mut self, ok: bool, model: String, device: Target) -> (r: Ask)
        ensures
            was_copied(*old(self), ok, model@, device, *final(self), r),
    {
        if ok {
            self.clean = Some(self.copy.clone());
        }
        let model = if text::chars_of(model.as_str()).len() == 0 {
            self.fallback_model.clone()
        } else {
            model
        };
        Ask::Log(
            LogLine {
                verbatim: self.heard.clone(),
                clean: self.copy.clone(),
                mic: self.mic.clone(),
                model,
                device,
            },
        )
    }

    /// The take was to be logged: whether in the vault, or that it could not be.
    /// What it comes to depends on the clipboard alone.
    pub fn written(&mut self, vault: Option<bool>) -> (r: Ask)
        ensures
            r == Ask::End(
                if old(self).clean is Some {
                    Outcome::Done
                } else {
                    Outcome::CopyFail
                },
            ),
            *final(self) == (TakeJob {
                logged: old(self).logged || vault is Some,
                is_vault: match vault {
                    Some(v) => v,
                    None => old(self).is_vault,
                },
                ..*old(self)
            }),
    {
        if let Some(v) = vault {
            self.logged = true;
            self.is_vault = v;
        }
        if self.clean.is_some() {
            Ask::End(Outcome::Done)
        } else {
            Ask::End(Outcome::CopyFail)
        }
    }
}

// ---- laws -------------------------------------------------------------------

/// A take that was cancelled or superseded before its text came is neither
/// copied nor logged.
pub proof fn law_discarded_takes_are_not_copied(
    verbatim: Seq<char>,
    mode: Seq<char>,
    corrections: Seq<(Seq<char>, Seq<char>)>,
    ask: Ask,
)
    requires
        after_text(true, verbatim, mode, corrections, ask),
    ensures
        ask == Ask::End(Outcome::Noop),
        rank(ask) == 0,
{
}

/// What goes to the clipboard is never empty: a take that holds something is
/// copied, whatever the cleanup and the corrections make of it.
pub proof fn law_copies_are_never_empty(
    verbatim: Seq<char>,
    mode: Seq<char>,
    corrections: Seq<(Seq<char>, Seq<char>)>,
    ask: Ask,
)
    requires
        verbatim.len() > 0,
        after_text(false, verbatim, mode, corrections, ask),
    ensures
        ask matches Ask::Copy(t) && t@.len() > 0,
{
    clipboard::law_a_take_is_never_lost(verbatim, mode);
    vocab::law_corrections_never_empty_a_take(clipboard::clip_of(verbatim, mode), corrections);
}

/// The log has the take as it was heard: the cleanup and the corrections change
/// only the copy, and the text that went to the clipboard stands beside it.
pub proof fn law_logs_are_verbatim(
    before: TakeJob,
    job: TakeJob,
    verbatim: Seq<char>,
    copy: String,
    model: Seq<char>,
    device: Target,
    line: LogLine,
)
    requires
        after_text(
            false,
            verbatim,
            before.cleanup_mode@,
            vocab::pair_texts(before.corrections@),
            Ask::Copy(copy),
        ),
        has_text(before, job, verbatim, Ask::Copy(copy)),
        is_line_of(job, model, device, line),
    ensures
        line.verbatim@ == verbatim,
        line.clean@ == copy@,
        line.clean@ == copy_of(
            verbatim,
            before.cleanup_mode@,
            vocab::pair_texts(before.corrections@),
        ),
{
}

/// Nothing gets lost: a take that holds anything and was not thrown away is handed
/// to the log as it was heard before it ends, whether the clipboard took its text
/// or not.
pub proof fn law_every_take_is_logged(
    before: TakeJob,
    heard: TakeJob,
    verbatim: Seq<char>,
    first: Ask,
    ok: bool,
    model: Seq<char>,
    device: Target,
    after: TakeJob,
    second: Ask,
)
    requires
        verbatim.len() > 0,
        after_text(
            false,
            verbatim,
            before.cleanup_mode@,
            vocab::pair_texts(before.corrections@),
            first,
        ),
        has_text(before, heard, verbatim, first),
        was_copied(heard, ok, model, device, after, second),
    ensures
        first is Copy,
        second matches Ask::Log(l) && l.verbatim@ == verbatim && l.mic@ == before.mic@,
{
}

/// Every take ends: each answer brings it closer to its end, whatever it is. A
/// text is followed by the clipboard, that by the log, and that by the end; a
/// GPU that failed by the loading of the CPU's engine, and that by its answer.
pub proof fn law_every_take_ends(
    discarded: bool,
    verbatim: Seq<char>,
    mode: Seq<char>,
    corrections: Seq<(Seq<char>, Seq<char>)>,
    ask: Ask,
    copy: String,
    line: LogLine,
    outcome: Outcome,
)
    requires
        after_text(discarded, verbatim, mode, corrections, ask),
    ensures
        rank(ask) < rank(Ask::Cpu),
        rank(Ask::Cpu) < rank(Ask::LoadCpu),
        rank(Ask::LoadCpu) < rank(Ask::Gpu),
        rank(Ask::Log(line)) < rank(Ask::Copy(copy)),
        rank(Ask::End(outcome)) < rank(Ask::Log(line)),
{
}

/// What is copied is the cleaned text with the corrections made in it; without
/// corrections it is the cleaned text.
pub proof fn law_copies_are_cleaned_and_corrected(
    verbatim: Seq<char>,
    mode: Seq<char>,
    corrections: Seq<(Seq<char>, Seq<char>)>,
)
    ensures
        copy_of(verbatim, mode, Seq::empty()) == clipboard::clip_of(verbatim, mode),
        copy_of(verbatim, mode, corrections) == vocab::corrected_take(
            copy_of(verbatim, mode, Seq::empty()),
            corrections,
        ),
{
    vocab::law_no_corrections_change_nothing(clipboard::clip_of(verbatim, mode));
}

/// What comes behind the text of a take: nothing where it was discarded, the end where
/// nothing was said, and else the clipboard.
pub proof fn law_what_follows_the_text(
    discarded: bool,
    verbatim: Seq<char>,
    mode: Seq<char>,
    corrections: Seq<(Seq<char>, Seq<char>)>,
    ask: Ask,
)
    requires
        after_text(discarded, verbatim, mode, corrections, ask),
    ensures
        discarded ==> ask == Ask::End(Outcome::Noop),
        !discarded && verbatim.len() == 0 ==> ask == Ask::End(Outcome::Empty),
        !discarded && verbatim.len() > 0 ==> ask is Copy,
{
}

/// The log holds a take as it was heard and as it was copied, and says which microphone
/// heard it and what served it; a model without a name is the one that was set. Only what
/// is on the clipboard is remembered.
pub proof fn law_what_is_logged(
    before: TakeJob,
    ok: bool,
    model: Seq<char>,
    device: Target,
    after: TakeJob,
    ask: Ask,
)
    requires
        was_copied(before, ok, model, device, after, ask),
    ensures
        ask is Log,
        ask matches Ask::Log(l) ==> {
            &&& l.verbatim@ == before.heard@
            &&& l.clean@ == before.copy@
            &&& l.mic@ == before.mic@
            &&& model.len() > 0 ==> l.model@ == model
            &&& model.len() == 0 ==> l.model@ == before.fallback_model@
            &&& l.device == device
        },
        ok ==> text::opt_text(after.clean) == Some(before.copy@),
        !ok ==> after.clean == before.clean,
{
}

} // verus!
