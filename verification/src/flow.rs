//! The recording flow: what a press, a cancel, the end of a take and each
//! answer of the engine lead to.
//!
//! A take goes from the microphone to the engine and on to the clipboard and the
//! log. Each has a number of its own, so that one that ends late never touches
//! what belongs to a newer one, and a cancel while it is being transcribed keeps
//! it from being copied and logged.

pub mod engine;
pub mod worker;

use crate::audio;
use crate::text;
use vstd::prelude::*;

pub use engine::{engine_dict, ensure_device, Engine, EngineDict, EnsureStep, LoadStep, Target};
pub use worker::{Ask, LogLine, Outcome, TakeJob};

verus! {

/// A sound.
#[derive(Clone, Copy, PartialEq, Eq, Structural, Debug)]
pub enum Cue {
    Start,
    Stop,
    Done,
    Error,
    Cancel,
}

/// What the tray shows.
#[derive(Clone, Copy, PartialEq, Eq, Structural, Debug)]
pub enum Tray {
    Idle,
    Recording,
    Transcribing,
}

/// What the pill shows.
#[derive(Clone, Copy, PartialEq, Eq, Structural, Debug)]
pub enum Pill {
    Recording,
    Transcribing,
    Done,
    NoMicrophone,
    TranscriptionFailed,
    ModelNotReady,
    CopyFailed,
}

/// What is to be done outside, in order.
#[derive(Clone, Copy, PartialEq, Eq, Structural, Debug)]
pub enum Effect {
    /// Play a sound.
    Play(Cue),
    /// Show the pill.
    Show(Pill),
    /// Let the pill leave.
    HidePill,
    /// Let the pill leave after so many milliseconds.
    HidePillIn(u64),
    /// Show this in the tray.
    SetTray(Tray),
    /// Tell the panel whether a take is being recorded.
    PushRecording(bool),
    /// Tell the panel which engine serves.
    PushEngine,
    /// Feed the pill's meter while the take is recorded.
    StartLevelPusher,
    /// Throw away what the microphone has recorded.
    DiscardRecording,
    /// Show the take that was just logged in the panel.
    AddEntry,
    /// Tell the panel where takes are logged: whether it is the fallback.
    SetStorage(bool),
    /// Paste the clipboard at the cursor.
    Paste,
}

/// How long the pill stays after a take, in milliseconds.
pub const DONE_PILL_MS: u64 = 1100;

/// How long the pill stays after an error, in milliseconds.
pub const ERROR_PILL_MS: u64 = 2000;

/// How long the pill takes to leave, in milliseconds.
pub const PILL_EXIT_MS: u64 = 320;

/// How long to wait between two looks at the meter, in milliseconds.
pub const LEVEL_POLL_MS: u64 = 66;

/// How long to leave the GPU alone once it has failed, in seconds.
pub const GPU_REPROBE_SECS: u64 = 600;

/// The name of a sound.
pub fn cue_name(cue: Cue) -> (r: &'static str)
    ensures
        r@ == match cue {
            Cue::Start => "start"@,
            Cue::Stop => "stop"@,
            Cue::Done => "done"@,
            Cue::Error => "error"@,
            Cue::Cancel => "cancel"@,
        },
{
    match cue {
        Cue::Start => "start",
        Cue::Stop => "stop",
        Cue::Done => "done",
        Cue::Error => "error",
        Cue::Cancel => "cancel",
    }
}

/// The name of what the tray shows.
pub fn tray_name(tray: Tray) -> (r: &'static str)
    ensures
        r@ == match tray {
            Tray::Idle => "idle"@,
            Tray::Recording => "recording"@,
            Tray::Transcribing => "transcribing"@,
        },
{
    match tray {
        Tray::Idle => "idle",
        Tray::Recording => "recording",
        Tray::Transcribing => "transcribing",
    }
}

/// The name of what the pill shows, and the words on it.
pub fn pill_name(pill: Pill) -> (r: (&'static str, Option<&'static str>))
    ensures
        r.0@ == match pill {
            Pill::Recording => "recording"@,
            Pill::Transcribing => "transcribing"@,
            Pill::Done => "done"@,
            _ => "error"@,
        },
        text::opt_str(r.1) == match pill {
            Pill::NoMicrophone => Some("No microphone"@),
            Pill::TranscriptionFailed => Some("Transcription failed"@),
            Pill::ModelNotReady => Some("Model not ready"@),
            Pill::CopyFailed => Some("Copy failed"@),
            _ => None,
        },
{
    match pill {
        Pill::Recording => ("recording", None),
        Pill::Transcribing => ("transcribing", None),
        Pill::Done => ("done", None),
        Pill::NoMicrophone => ("error", Some("No microphone")),
        Pill::TranscriptionFailed => ("error", Some("Transcription failed")),
        Pill::ModelNotReady => ("error", Some("Model not ready")),
        Pill::CopyFailed => ("error", Some("Copy failed")),
    }
}

/// The state of the flow.
#[derive(Debug, PartialEq, Eq)]
pub struct AppCtx {
    /// A take is being recorded.
    pub recording: bool,
    /// A take is being stopped.
    pub busy: bool,
    /// The number of the latest take that went to the engine.
    pub session: u64,
    /// The take that is being transcribed is to be thrown away.
    pub cancel_xscribe: bool,
    /// A take is being transcribed.
    pub xscribing: bool,
    /// The microphone of the running take.
    pub active_mic: String,
    /// Its rate.
    pub active_rate: u32,
    /// The take that is being recorded is to be pasted.
    pub paste_recording: bool,
    /// The take that is to be pasted once it is copied, by its number.
    pub paste_for: Option<u64>,
    /// How often what the pill shows has changed: a timer that belongs to an
    /// earlier change does nothing.
    pub pill_gen: u64,
    /// How many takes have fed the meter: what feeds it for an earlier one stops.
    pub level_gen: u64,
    /// The GPU has not failed, as far as we know.
    pub gpu_ok: bool,
    /// When the GPU was last given another chance, in nanoseconds.
    pub gpu_probe: Option<u64>,
}

/// What a press of the dictation key leads to.
#[derive(Clone, Copy, PartialEq, Eq, Structural, Debug)]
pub enum Toggle {
    /// Nothing: a take is just being stopped.
    Ignore,
    /// Open the microphone.
    Start,
    /// Stop the take.
    Stop,
}

/// A take that is ready for the engine.
#[derive(Debug, PartialEq, Eq)]
pub struct Ready {
    /// Its number.
    pub session: u64,
    /// Its microphone.
    pub mic: String,
}

/// A press of the paste key: whether it asks for a paste of the take at hand, and
/// whether it toggles the recording. The key that a take is finished on decides:
/// while one is recorded the press finishes it and asks for its paste, while one is
/// only being transcribed it asks for that one's, and otherwise it starts one and
/// asks for nothing yet.
pub fn paste_press(recording: bool, transcribing: bool) -> (r: (bool, bool))
    ensures
        r.0 == (recording || transcribing),
        r.1 == (recording || !transcribing),
{
    (recording || transcribing, recording || !transcribing)
}

/// What becomes of a take that has stopped: it is discarded where there is none,
/// it is empty or too short.
pub open spec fn is_take(stopped: Option<(usize, u32)>) -> bool {
    match stopped {
        Some((samples, rate)) => samples > 0 && 10 * samples >= 3 * rate,
        None => false,
    }
}

/// What the end of a take shows: this is over, unless a newer recording or a
/// newer take owns what is shown.
pub open spec fn finish_effects(
    stale: bool,
    outcome: Outcome,
    copied: bool,
    logged: bool,
    is_vault: bool,
) -> Seq<Effect> {
    let tray = if stale {
        Seq::<Effect>::empty()
    } else {
        seq![Effect::SetTray(Tray::Idle)]
    };
    let failed = |pill: Pill|
        seq![Effect::Play(Cue::Error), Effect::Show(pill), Effect::HidePillIn(ERROR_PILL_MS)];
    if outcome == Outcome::Noop {
        Seq::empty()
    } else if outcome == Outcome::Done && copied {
        let entry = if logged {
            seq![Effect::AddEntry]
        } else {
            Seq::<Effect>::empty()
        };
        let pill = if stale {
            Seq::<Effect>::empty()
        } else {
            seq![Effect::Show(Pill::Done), Effect::HidePillIn(DONE_PILL_MS)]
        };
        tray + seq![Effect::Play(Cue::Done)] + entry + seq![Effect::SetStorage(!is_vault)] + pill
    } else if stale {
        Seq::empty()
    } else {
        tray + match outcome {
            Outcome::Error => failed(Pill::TranscriptionFailed),
            Outcome::Model => failed(Pill::ModelNotReady),
            Outcome::CopyFail => failed(Pill::CopyFailed),
            _ => seq![Effect::Play(Cue::Cancel), Effect::HidePill],
        }
    }
}

/// Whether the end of the take of this number pastes it: it is on the clipboard,
/// and its paste was asked for.
pub open spec fn pastes(asked: Option<u64>, session: u64, outcome: Outcome, copied: bool) -> bool {
    asked == Some(session) && outcome == Outcome::Done && copied
}

/// The paste at the end of a take, where there is one.
pub open spec fn paste_effects(pastes: bool) -> Seq<Effect> {
    if pastes {
        seq![Effect::Paste]
    } else {
        Seq::empty()
    }
}

impl AppCtx {
    /// What every step keeps: only a take that is being stopped is to be pasted by the
    /// press that stops it, and no take is to be pasted that has no number yet.
    pub open spec fn wf(self) -> bool {
        &&& self.paste_recording ==> self.busy
        &&& self.paste_for matches Some(n) ==> n <= self.session
    }

    /// The state behind a press of the dictation key.
    pub open spec fn after_toggle(self) -> AppCtx {
        AppCtx { busy: self.busy || self.recording, ..self }
    }

    /// The state behind a press of the paste key. The paste that it asks for is that
    /// of the running recording where there is one, else that of the take that is
    /// being transcribed.
    pub open spec fn after_paste_press(self) -> AppCtx {
        AppCtx {
            busy: self.busy || self.recording,
            paste_recording: self.paste_recording || self.recording,
            paste_for: if !self.recording && self.xscribing {
                Some(self.session)
            } else {
                self.paste_for
            },
            ..self
        }
    }

    /// The state once a take has gone to the engine: it has the next number, and a
    /// paste that was asked for while it was recorded is that of this take.
    pub open spec fn after_sent(self) -> AppCtx {
        AppCtx {
            session: (self.session + 1) as u64,
            cancel_xscribe: false,
            xscribing: true,
            paste_recording: false,
            paste_for: if self.paste_recording {
                Some((self.session + 1) as u64)
            } else {
                self.paste_for
            },
            ..self
        }
    }

    /// Nothing records, nothing is transcribed, and the GPU has not failed.
    pub fn new() -> (r: AppCtx)
        ensures
            r.wf(),
            !r.recording,
            !r.busy,
            r.session == 0,
            !r.cancel_xscribe,
            !r.xscribing,
            r.active_mic@ == Seq::<char>::empty(),
            r.active_rate == audio::SAMPLE_RATE,
            !r.paste_recording,
            r.paste_for is None,
            r.pill_gen == 0,
            r.level_gen == 0,
            r.gpu_ok,
            r.gpu_probe is None,
    {
        AppCtx {
            recording: false,
            busy: false,
            session: 0,
            cancel_xscribe: false,
            xscribing: false,
            active_mic: String::new(),
            active_rate: audio::SAMPLE_RATE,
            paste_recording: false,
            paste_for: None,
            pill_gen: 0,
            level_gen: 0,
            gpu_ok: true,
            gpu_probe: None,
        }
    }

    /// Whether a take is being recorded.
    pub fn is_recording(&self) -> (r: bool)
        ensures
            r == self.recording,
    {
        self.recording
    }

    /// Whether a take is being transcribed.
    pub fn is_transcribing(&self) -> (r: bool)
        ensures
            r == self.xscribing,
    {
        self.xscribing
    }

    /// A press of the dictation key: start when idle, stop when recording,
    /// nothing while a take is just being stopped.
    pub fn toggle_record(&mut self) -> (r: Toggle)
        ensures
            old(self).wf() ==> final(self).wf(),
            r == if old(self).busy {
                Toggle::Ignore
            } else if old(self).recording {
                Toggle::Stop
            } else {
                Toggle::Start
            },
            *final(self) == old(self).after_toggle(),
    {
        if self.busy {
            return Toggle::Ignore;
        }
        if !self.recording {
            return Toggle::Start;
        }
        self.busy = true;
        Toggle::Stop
    }

    /// A press of the paste key: what it leads to, as a press of the dictation key
    /// does, or nothing.
    pub fn paste_take(&mut self) -> (r: Toggle)
        ensures
            old(self).wf() ==> final(self).wf(),
            r == if old(self).busy || (old(self).xscribing && !old(self).recording) {
                Toggle::Ignore
            } else if old(self).recording {
                Toggle::Stop
            } else {
                Toggle::Start
            },
            *final(self) == old(self).after_paste_press(),
    {
        let (arm, toggle) = paste_press(self.recording, self.xscribing);
        if arm {
            if self.recording {
                self.paste_recording = true;
            } else {
                self.paste_for = Some(self.session);
            }
        }
        if toggle {
            self.toggle_record()
        } else {
            Toggle::Ignore
        }
    }

    /// The microphone was to be opened: its name and its rate, or that none
    /// could be.
    pub fn start_recording(&mut self, opened: Option<(String, u32)>) -> (r: Vec<Effect>)
        ensures
            old(self).wf() ==> final(self).wf(),
            match opened {
                Some((name, rate)) => {
                    &&& *final(self) == (AppCtx {
                        recording: true,
                        active_mic: name,
                        active_rate: rate,
                        ..*old(self)
                    })
                    &&& r@ == seq![
                        Effect::Play(Cue::Start),
                        Effect::Show(Pill::Recording),
                        Effect::StartLevelPusher,
                        Effect::SetTray(Tray::Recording),
                        Effect::PushRecording(true),
                    ]
                },
                None => {
                    &&& *final(self) == *old(self)
                    &&& r@ == seq![
                        Effect::Play(Cue::Error),
                        Effect::Show(Pill::NoMicrophone),
                        Effect::HidePillIn(ERROR_PILL_MS),
                    ]
                },
            },
    {
        let mut r: Vec<Effect> = Vec::new();
        match opened {
            Some((name, rate)) => {
                self.active_mic = name;
                self.active_rate = rate;
                self.recording = true;
                r.push(Effect::Play(Cue::Start));
                r.push(Effect::Show(Pill::Recording));
                r.push(Effect::StartLevelPusher);
                r.push(Effect::SetTray(Tray::Recording));
                r.push(Effect::PushRecording(true));
            },
            None => {
                r.push(Effect::Play(Cue::Error));
                r.push(Effect::Show(Pill::NoMicrophone));
                r.push(Effect::HidePillIn(ERROR_PILL_MS));
            },
        }
        r
    }

    /// The take is to stop: done before the microphone is asked for it.
    pub fn stop_recording(&mut self) -> (r: Vec<Effect>)
        ensures
            old(self).wf() ==> final(self).wf(),
            *final(self) == (AppCtx { recording: false, ..*old(self) }),
            r@ == seq![Effect::PushRecording(false)],
    {
        self.recording = false;
        let mut r: Vec<Effect> = Vec::new();
        r.push(Effect::PushRecording(false));
        assert(r@ == seq![Effect::PushRecording(false)]);
        r
    }

    /// The take has stopped with so many samples at this rate, or there was
    /// none. One that is a take gets the next number and goes to the engine;
    /// anything else is discarded. A paste that was asked for while it was recorded is
    /// that of this take, and of no other.
    pub fn take_stopped(&mut self, take: Option<(usize, u32)>) -> (r: (Vec<Effect>, Option<Ready>))
        requires
            old(self).session < u64::MAX,
        ensures
            old(self).wf() ==> final(self).wf(),
            is_take(take) ==> {
                &&& *final(self) == old(self).after_sent()
                &&& r.1 matches Some(t) && t.session == final(self).session && t.mic@ == old(
                    self,
                ).active_mic@
                &&& r.0@ == seq![
                    Effect::Play(Cue::Stop),
                    Effect::Show(Pill::Transcribing),
                    Effect::SetTray(Tray::Transcribing),
                ]
            },
            !is_take(take) ==> {
                &&& *final(self) == (AppCtx { paste_recording: false, ..*old(self) })
                &&& r.1 is None
                &&& r.0@ == seq![
                    Effect::Play(Cue::Stop),
                    Effect::SetTray(Tray::Idle),
                    Effect::HidePill,
                    Effect::Play(Cue::Cancel),
                ]
            },
    {
        let mut r: Vec<Effect> = Vec::new();
        r.push(Effect::Play(Cue::Stop));
        let long_enough = match take {
            Some((samples, rate)) => samples > 0 && !audio::too_short(samples, rate),
            None => false,
        };
        let paste = self.paste_recording;
        self.paste_recording = false;
        if !long_enough {
            r.push(Effect::SetTray(Tray::Idle));
            r.push(Effect::HidePill);
            r.push(Effect::Play(Cue::Cancel));
            return (r, None);
        }
        r.push(Effect::Show(Pill::Transcribing));
        r.push(Effect::SetTray(Tray::Transcribing));
        self.session = self.session + 1;
        self.cancel_xscribe = false;
        self.xscribing = true;
        if paste {
            self.paste_for = Some(self.session);
        }
        (r, Some(Ready { session: self.session, mic: self.active_mic.clone() }))
    }

    /// All that the stop led to is done: the flow is free for the next press. A paste
    /// that was asked for meanwhile by a press that finished no take is void.
    pub fn stop_over(&mut self)
        ensures
            old(self).wf() ==> final(self).wf(),
            *final(self) == (AppCtx { busy: false, paste_recording: false, ..*old(self) }),
    {
        self.busy = false;
        self.paste_recording = false;
    }

    /// A press of the cancel key: throw away the running recording, or mark the
    /// take that is being transcribed; nothing when idle, or while a take is
    /// just being stopped.
    pub fn cancel_record(&mut self) -> (r: Vec<Effect>)
        ensures
            old(self).wf() ==> final(self).wf(),
            ({
                let idle = !old(self).recording && !old(self).xscribing;
                if old(self).busy || idle {
                    *final(self) == *old(self) && r@ == Seq::<Effect>::empty()
                } else if old(self).recording {
                    *final(self) == (AppCtx {
                        recording: false,
                        paste_recording: false,
                        ..*old(self)
                    }) && r@ == seq![
                        Effect::DiscardRecording,
                        Effect::SetTray(Tray::Idle),
                        Effect::PushRecording(false),
                        Effect::HidePill,
                        Effect::Play(Cue::Cancel),
                    ]
                } else {
                    *final(self) == (AppCtx {
                        cancel_xscribe: true,
                        paste_for: None,
                        ..*old(self)
                    }) && r@ == seq![
                        Effect::SetTray(Tray::Idle),
                        Effect::HidePill,
                        Effect::Play(Cue::Cancel),
                    ]
                }
            }),
    {
        let mut r: Vec<Effect> = Vec::new();
        if self.busy {
            return r;
        }
        if !self.recording {
            if !self.xscribing {
                return r;
            }
            self.cancel_xscribe = true;
            self.paste_for = None;
            r.push(Effect::SetTray(Tray::Idle));
            r.push(Effect::HidePill);
            r.push(Effect::Play(Cue::Cancel));
            return r;
        }
        self.recording = false;
        self.paste_recording = false;
        r.push(Effect::DiscardRecording);
        r.push(Effect::SetTray(Tray::Idle));
        r.push(Effect::PushRecording(false));
        r.push(Effect::HidePill);
        r.push(Effect::Play(Cue::Cancel));
        r
    }

    /// Whether the take of this number is thrown away: it was cancelled, or a
    /// newer one has gone to the engine.
    pub open spec fn discards(self, session: u64) -> bool {
        self.cancel_xscribe || self.session != session
    }

    /// The end of the take of this number: what it shows, and its paste where that
    /// was asked for. Nothing is being transcribed any more, where it is still the
    /// latest.
    pub fn finish(
        &mut self,
        outcome: Outcome,
        copied: bool,
        logged: bool,
        is_vault: bool,
        session: u64,
    ) -> (r: Vec<Effect>)
        ensures
            old(self).wf() ==> final(self).wf(),
            *final(self) == (AppCtx {
                xscribing: old(self).xscribing && old(self).session != session,
                paste_for: if old(self).paste_for == Some(session) {
                    None
                } else {
                    old(self).paste_for
                },
                ..*old(self)
            }),
            r@ == finish_effects(
                old(self).recording || old(self).session != session,
                outcome,
                copied,
                logged,
                is_vault,
            ) + paste_effects(pastes(old(self).paste_for, session, outcome, copied)),
    {
        if self.session == session {
            self.xscribing = false;
        }
        let asked = match self.paste_for {
            Some(n) => n == session,
            None => false,
        };
        if asked {
            self.paste_for = None;
        }
        let mut r: Vec<Effect> = Vec::new();
        let stale = self.recording || self.session != session;
        let ghost expected = finish_effects(stale, outcome, copied, logged, is_vault);
        if outcome == Outcome::Noop {
            return r;
        }
        if !stale {
            r.push(Effect::SetTray(Tray::Idle));
        }
        if outcome == Outcome::Done && copied {
            r.push(Effect::Play(Cue::Done));
            if logged {
                r.push(Effect::AddEntry);
            }
            r.push(Effect::SetStorage(!is_vault));
            if !stale {
                r.push(Effect::Show(Pill::Done));
                r.push(Effect::HidePillIn(DONE_PILL_MS));
            }
            assert(r@ == expected);
            if asked {
                r.push(Effect::Paste);
            }
            assert(r@ == expected + paste_effects(asked));
            return r;
        }
        if stale {
            return r;
        }
        match outcome {
            Outcome::Error => {
                r.push(Effect::Play(Cue::Error));
                r.push(Effect::Show(Pill::TranscriptionFailed));
                r.push(Effect::HidePillIn(ERROR_PILL_MS));
            },
            Outcome::Model => {
                r.push(Effect::Play(Cue::Error));
                r.push(Effect::Show(Pill::ModelNotReady));
                r.push(Effect::HidePillIn(ERROR_PILL_MS));
            },
            Outcome::CopyFail => {
                r.push(Effect::Play(Cue::Error));
                r.push(Effect::Show(Pill::CopyFailed));
                r.push(Effect::HidePillIn(ERROR_PILL_MS));
            },
            _ => {
                r.push(Effect::Play(Cue::Cancel));
                r.push(Effect::HidePill);
            },
        }
        assert(r@ == expected);
        assert(r@ + paste_effects(false) == r@);
        r
    }

    // ---- the pill's timers --------------------------------------------------

    /// The pill is to show something: whether it may. Where it may, every timer
    /// that waits to hide it is void.
    pub fn show_pill(&mut self, enabled: bool) -> (r: bool)
        requires
            old(self).pill_gen < u64::MAX,
        ensures
            old(self).wf() ==> final(self).wf(),
            r == enabled,
            *final(self) == (AppCtx {
                pill_gen: if enabled {
                    (old(self).pill_gen + 1) as u64
                } else {
                    old(self).pill_gen
                },
                ..*old(self)
            }),
    {
        if enabled {
            self.pill_gen = self.pill_gen + 1;
        }
        enabled
    }

    /// A timer to hide the pill starts: its number. Every earlier one is void.
    pub fn start_pill_timer(&mut self) -> (r: u64)
        requires
            old(self).pill_gen < u64::MAX,
        ensures
            old(self).wf() ==> final(self).wf(),
            r == old(self).pill_gen + 1,
            *final(self) == (AppCtx { pill_gen: r, ..*old(self) }),
    {
        self.pill_gen = self.pill_gen + 1;
        self.pill_gen
    }

    /// A timer is over: whether it still counts.
    pub fn pill_timer_counts(&self, number: u64) -> (r: bool)
        ensures
            r == (self.pill_gen == number),
    {
        self.pill_gen == number
    }

    /// What feeds the meter for a take starts: its number.
    pub fn start_level_pusher(&mut self) -> (r: u64)
        requires
            old(self).level_gen < u64::MAX,
        ensures
            old(self).wf() ==> final(self).wf(),
            r == old(self).level_gen + 1,
            *final(self) == (AppCtx { level_gen: r, ..*old(self) }),
    {
        self.level_gen = self.level_gen + 1;
        self.level_gen
    }

    /// Whether what feeds the meter goes on: its take is the latest and is still
    /// being recorded.
    pub fn feeds_meter(&self, number: u64) -> (r: bool)
        ensures
            r == (self.level_gen == number && self.recording),
    {
        self.level_gen == number && self.recording
    }
}

impl Default for AppCtx {
    fn default() -> (r: AppCtx)
        ensures
            r.wf(),
            !r.recording,
            !r.busy,
            r.session == 0,
            !r.cancel_xscribe,
            !r.xscribing,
            r.active_mic@ == Seq::<char>::empty(),
            r.active_rate == audio::SAMPLE_RATE,
            !r.paste_recording,
            r.paste_for is None,
            r.pill_gen == 0,
            r.level_gen == 0,
            r.gpu_ok,
            r.gpu_probe is None,
    {
        AppCtx::new()
    }
}

// ---- laws -------------------------------------------------------------------

/// A take that ended late leaves the pill and the tray to the newer one.
pub proof fn law_late_takes_touch_neither_pill_nor_tray(
    outcome: Outcome,
    copied: bool,
    logged: bool,
    is_vault: bool,
)
    ensures
        forall|i: int|
            0 <= i < finish_effects(true, outcome, copied, logged, is_vault).len()
                ==> !((#[trigger] finish_effects(true, outcome, copied, logged, is_vault)[i])
                is Show || finish_effects(true, outcome, copied, logged, is_vault)[i] is HidePill
                || finish_effects(true, outcome, copied, logged, is_vault)[i] is HidePillIn
                || finish_effects(true, outcome, copied, logged, is_vault)[i] is SetTray),
{
}

/// A take that was thrown away shows nothing.
pub proof fn law_discarded_takes_show_nothing(
    stale: bool,
    copied: bool,
    logged: bool,
    is_vault: bool,
)
    ensures
        finish_effects(stale, Outcome::Noop, copied, logged, is_vault) == Seq::<Effect>::empty(),
{
}

/// The pill never stays on "transcribing": whatever a take that was not thrown
/// away comes to, it changes what the pill shows or lets it leave, unless a
/// newer one owns it.
pub proof fn law_every_end_resolves_the_pill(
    outcome: Outcome,
    copied: bool,
    logged: bool,
    is_vault: bool,
)
    requires
        outcome != Outcome::Noop,
    ensures
        finish_effects(false, outcome, copied, logged, is_vault).len() > 0,
        finish_effects(false, outcome, copied, logged, is_vault).last() is HidePillIn
            || finish_effects(false, outcome, copied, logged, is_vault).last() is HidePill,
{
}

/// A cancel throws away the take that is being transcribed, and a take that goes
/// to the engine throws away every earlier one and no other.
pub proof fn law_newer_takes_supersede(ctx: AppCtx, cancelled: AppCtx, session: u64)
    requires
        ctx.session < u64::MAX,
        session <= ctx.session,
        cancelled == (AppCtx { cancel_xscribe: true, paste_for: None, ..ctx }),
    ensures
        cancelled.discards(session),
        ctx.after_sent().discards(session),
        !ctx.after_sent().discards((ctx.session + 1) as u64),
{
}

/// Every press and every end keeps what is known of the pastes.
pub proof fn law_every_step_keeps_the_pastes(ctx: AppCtx)
    requires
        ctx.wf(),
    ensures
        ctx.after_toggle().wf(),
        ctx.after_paste_press().wf(),
        ctx.session < u64::MAX ==> ctx.after_sent().wf(),
        ctx.recording && !ctx.busy ==> !ctx.paste_recording,
{
}

/// The key that a take is finished on decides: finished by the paste key it is
/// pasted, finished by the dictation key it is not, whichever key started it.
pub proof fn law_the_finishing_key_decides(ctx: AppCtx)
    requires
        ctx.wf(),
        ctx.recording,
        !ctx.busy,
        ctx.session < u64::MAX,
    ensures
        ({
            let by_paste = ctx.after_paste_press().after_sent();
            let by_toggle = ctx.after_toggle().after_sent();
            &&& pastes(by_paste.paste_for, by_paste.session, Outcome::Done, true)
            &&& !pastes(by_toggle.paste_for, by_toggle.session, Outcome::Done, true)
        }),
{
}

/// A press of the paste key while a take is being transcribed asks for the paste of
/// that take, and starts nothing.
pub proof fn law_a_paste_can_be_asked_for_late(ctx: AppCtx)
    requires
        !ctx.recording,
        ctx.xscribing,
    ensures
        ctx.after_paste_press().recording == ctx.recording,
        pastes(ctx.after_paste_press().paste_for, ctx.session, Outcome::Done, true),
{
}

/// The paste of one take is never used up by another, one that was not asked for
/// does not come, and one whose copy failed is not pasted.
pub proof fn law_a_paste_belongs_to_its_take(
    asked: Option<u64>,
    session: u64,
    other: u64,
    outcome: Outcome,
    copied: bool,
)
    requires
        session != other,
    ensures
        !pastes(Some(session), other, outcome, copied),
        !pastes(None, session, outcome, copied),
        outcome != Outcome::Done || !copied ==> !pastes(asked, session, outcome, copied),
{
}

/// What each end shows: a take that was copied plays the sound of that, enters the panel
/// where it was logged, and shows where takes go; any other end that is not thrown away
/// plays the sound of an error and says which, or that of a cancel where nothing was
/// heard.
pub proof fn law_what_each_end_shows(logged: bool, is_vault: bool, copied: bool)
    ensures
        ({
            let done = finish_effects(false, Outcome::Done, true, logged, is_vault);
            &&& done.contains(Effect::Play(Cue::Done))
            &&& done.contains(Effect::AddEntry) <==> logged
            &&& done.contains(Effect::SetStorage(!is_vault))
            &&& done.contains(Effect::Show(Pill::Done))
            &&& done.last() == Effect::HidePillIn(1100)
            &&& done[0] == Effect::SetTray(Tray::Idle)
        }),
        finish_effects(false, Outcome::Error, copied, logged, is_vault) == seq![
            Effect::SetTray(Tray::Idle),
            Effect::Play(Cue::Error),
            Effect::Show(Pill::TranscriptionFailed),
            Effect::HidePillIn(2000),
        ],
        finish_effects(false, Outcome::Model, copied, logged, is_vault) == seq![
            Effect::SetTray(Tray::Idle),
            Effect::Play(Cue::Error),
            Effect::Show(Pill::ModelNotReady),
            Effect::HidePillIn(2000),
        ],
        finish_effects(false, Outcome::CopyFail, copied, logged, is_vault) == seq![
            Effect::SetTray(Tray::Idle),
            Effect::Play(Cue::Error),
            Effect::Show(Pill::CopyFailed),
            Effect::HidePillIn(2000),
        ],
        finish_effects(false, Outcome::Empty, copied, logged, is_vault) == seq![
            Effect::SetTray(Tray::Idle),
            Effect::Play(Cue::Cancel),
            Effect::HidePill,
        ],
        finish_effects(true, Outcome::Done, true, logged, is_vault).contains(
            Effect::Play(Cue::Done),
        ),
{
    let done = finish_effects(false, Outcome::Done, true, logged, is_vault);
    let stale = finish_effects(true, Outcome::Done, true, logged, is_vault);
    assert(stale[0] == Effect::Play(Cue::Done));
    assert(done[1] == Effect::Play(Cue::Done));
    if logged {
        assert(done[2] == Effect::AddEntry);
        assert(done[3] == Effect::SetStorage(!is_vault));
        assert(done[4] == Effect::Show(Pill::Done));
    } else {
        assert(done.len() == 5);
        assert(done[2] == Effect::SetStorage(!is_vault));
        assert(done[3] == Effect::Show(Pill::Done));
        assert(!done.contains(Effect::AddEntry));
    }
}

/// A take is one from three tenths of a second on, where it has any samples.
pub proof fn law_what_is_a_take(samples: usize, rate: u32)
    ensures
        is_take(Some((samples, rate))) <==> samples > 0 && 10 * samples >= 3 * rate,
        !is_take(None),
{
}

/// A take that pastes asks for one paste, and any other for none.
pub proof fn law_one_paste_is_asked_for()
    ensures
        paste_effects(true) == seq![Effect::Paste],
        paste_effects(false) == Seq::<Effect>::empty(),
{
}

} // verus!
