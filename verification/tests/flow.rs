//! Takes from the press of a key to the clipboard and the log.

use tiro::flow::engine::{load_engine, models, serving_slot, target_name};
use tiro::flow::Effect::{
    AddEntry, DiscardRecording, HidePill, HidePillIn, Paste, Play, PushEngine, PushRecording,
    SetStorage, SetTray, Show, StartLevelPusher,
};
use tiro::flow::{
    cue_name, engine_dict, ensure_device, paste_press, pill_name, tray_name, AppCtx, Ask, Cue, Engine,
    EnsureStep, LoadStep, Outcome, Pill, TakeJob, Target, Toggle, Tray, DONE_PILL_MS, ERROR_PILL_MS,
    GPU_REPROBE_SECS,
};
use tiro::hw::{GpuClass, ModelSlot};

const SEC: u64 = 1_000_000_000;

fn recording() -> AppCtx {
    let mut ctx = AppCtx::new();
    assert_eq!(ctx.toggle_record(), Toggle::Start);
    ctx.start_recording(Some(("Mic".to_string(), 48_000)));
    ctx
}

fn transcribing() -> (AppCtx, TakeJob) {
    let mut ctx = recording();
    assert_eq!(ctx.toggle_record(), Toggle::Stop);
    ctx.stop_recording();
    let (_, ready) = ctx.take_stopped(Some((48_000, 48_000)));
    let ready = ready.unwrap();
    ctx.stop_over();
    let job = TakeJob::new(
        ready.session,
        ready.mic,
        "light".to_string(),
        vec![("tyro".to_string(), "Tiro".to_string())],
        "base.en".to_string(),
    );
    (ctx, job)
}

#[test]
fn a_press_starts_and_the_next_one_stops() {
    let mut ctx = AppCtx::new();
    assert_eq!(ctx.toggle_record(), Toggle::Start);
    assert!(!ctx.is_recording());
    assert_eq!(
        ctx.start_recording(Some(("Mic".to_string(), 44_100))),
        [
            Play(Cue::Start),
            Show(Pill::Recording),
            StartLevelPusher,
            SetTray(Tray::Recording),
            PushRecording(true)
        ]
    );
    assert!(ctx.is_recording());
    assert_eq!(ctx.toggle_record(), Toggle::Stop);
    assert_eq!(ctx.toggle_record(), Toggle::Ignore, "it is being stopped");
    assert_eq!(ctx.stop_recording(), [PushRecording(false)]);
    let (effects, ready) = ctx.take_stopped(Some((44_100, 44_100)));
    assert_eq!(
        effects,
        [
            Play(Cue::Stop),
            Show(Pill::Transcribing),
            SetTray(Tray::Transcribing)
        ]
    );
    let ready = ready.unwrap();
    assert_eq!((ready.session, ready.mic.as_str()), (1, "Mic"));
    assert!(ctx.is_transcribing());
    assert_eq!(ctx.toggle_record(), Toggle::Ignore, "not all of it is shown yet");
    ctx.stop_over();
    assert_eq!(ctx.toggle_record(), Toggle::Start, "the flow is free");
}

#[test]
fn a_microphone_that_fails_is_an_error() {
    let mut ctx = AppCtx::default();
    assert_eq!(
        ctx.start_recording(None),
        [
            Play(Cue::Error),
            Show(Pill::NoMicrophone),
            HidePillIn(ERROR_PILL_MS)
        ]
    );
    assert!(!ctx.is_recording());
}

#[test]
fn short_takes_are_discarded() {
    for take in [None, Some((0, 0)), Some((14_399, 48_000))] {
        let mut ctx = recording();
        ctx.toggle_record();
        ctx.stop_recording();
        let (effects, ready) = ctx.take_stopped(take);
        assert_eq!(ready, None);
        assert_eq!(
            effects,
            [
                Play(Cue::Stop),
                SetTray(Tray::Idle),
                HidePill,
                Play(Cue::Cancel)
            ]
        );
        assert_eq!(ctx.session, 0);
    }
}

#[test]
fn a_cancel_discards_what_there_is() {
    assert!(AppCtx::new().cancel_record().is_empty(), "idle");
    let mut ctx = recording();
    assert_eq!(
        ctx.cancel_record(),
        [
            DiscardRecording,
            SetTray(Tray::Idle),
            PushRecording(false),
            HidePill,
            Play(Cue::Cancel)
        ]
    );
    let mut ctx = recording();
    ctx.toggle_record();
    assert!(ctx.cancel_record().is_empty(), "it is being stopped");
    let (mut ctx, mut job) = transcribing();
    assert_eq!(
        ctx.cancel_record(),
        [SetTray(Tray::Idle), HidePill, Play(Cue::Cancel)]
    );
    let answer = Some("too late".to_string());
    assert_eq!(
        job.gpu_answered(&mut ctx, answer),
        Ask::End(Outcome::Noop)
    );
    assert!(ctx.finish(Outcome::Noop, false, false, true, 1).is_empty());
    assert!(!ctx.is_transcribing());
}

#[test]
fn a_take_goes_to_the_clipboard_and_the_log() {
    let (mut ctx, mut job) = transcribing();
    assert_eq!(job.begin(&mut ctx, Target::Gpu, true, false), Ask::Gpu);
    let answer = Some("hello tyro".to_string());
    assert_eq!(
        job.gpu_answered(&mut ctx, answer),
        Ask::Copy("Hello Tiro.".to_string())
    );
    let ask = job.copied(true, String::new(), Target::Gpu);
    assert_eq!(job.clean.as_deref(), Some("Hello Tiro."));
    match ask {
        Ask::Log(line) => {
            assert_eq!(line.verbatim, "hello tyro");
            assert_eq!(line.clean, "Hello Tiro.");
            assert_eq!(line.model, "base.en", "the configured one");
            assert_eq!(line.mic, "Mic");
        }
        other => panic!("{other:?}"),
    }
    assert_eq!(job.written(Some(false)), Ask::End(Outcome::Done));
    assert!(job.logged && !job.is_vault);
    assert_eq!(
        ctx.finish(Outcome::Done, true, true, false, 1),
        [
            SetTray(Tray::Idle),
            Play(Cue::Done),
            AddEntry,
            SetStorage(true),
            Show(Pill::Done),
            HidePillIn(DONE_PILL_MS)
        ]
    );
}

#[test]
fn a_gpu_that_fails_does_not_cost_the_take() {
    let (mut ctx, mut job) = transcribing();
    assert_eq!(job.begin(&mut ctx, Target::Gpu, true, false), Ask::Gpu);
    assert_eq!(job.gpu_answered(&mut ctx, None), Ask::LoadCpu);
    assert!(!ctx.gpu_ok);
    assert_eq!(job.cpu_loaded(true), Ask::Cpu);
    let (ask, effects) = job.cpu_answered(&ctx, Some("um".to_string()));
    assert_eq!(ask, Ask::Copy("Um.".to_string()));
    assert_eq!(effects, [PushEngine]);
    assert_eq!(job.cpu_loaded(false), Ask::End(Outcome::Error));
    assert_eq!(job.cpu_answered(&ctx, None).0, Ask::End(Outcome::Error));
    let (mut ctx, mut job) = transcribing();
    assert_eq!(job.begin(&mut ctx, Target::Gpu, false, false), Ask::LoadCpu);
    let (mut ctx, mut job) = transcribing();
    assert_eq!(
        job.begin(&mut ctx, Target::Cpu, false, false),
        Ask::End(Outcome::Model)
    );
    let empty = Some(String::new());
    assert_eq!(job.cpu_answered(&ctx, empty).0, Ask::End(Outcome::Empty));
    assert_eq!(job.written(None), Ask::End(Outcome::CopyFail));
    assert!(!job.logged);
}

#[test]
fn a_take_whose_copy_fails_is_logged_all_the_same() {
    let (mut ctx, mut job) = transcribing();
    assert_eq!(job.begin(&mut ctx, Target::Cpu, false, true), Ask::Cpu);
    let (ask, _) = job.cpu_answered(&ctx, Some("hello tyro".to_string()));
    assert_eq!(ask, Ask::Copy("Hello Tiro.".to_string()));
    match job.copied(false, "small.en".into(), Target::Cpu) {
        Ask::Log(line) => {
            assert_eq!(line.verbatim, "hello tyro");
            assert_eq!(line.model, "small.en");
        }
        other => panic!("{other:?}"),
    }
    assert_eq!(job.clean, None);
    assert_eq!(job.written(Some(true)), Ask::End(Outcome::CopyFail));
    assert!(job.logged);
}

#[test]
fn the_key_that_a_take_is_finished_on_decides() {
    assert_eq!(paste_press(false, false), (false, true), "it starts a take");
    assert_eq!(paste_press(true, false), (true, true), "it finishes one");
    assert_eq!(paste_press(false, true), (true, false), "it is late, but in time");
    assert_eq!(paste_press(true, true), (true, true), "it finishes the newer one");
    let done = |ctx: &mut AppCtx, session| {
        let effects = ctx.finish(Outcome::Done, true, true, true, session);
        effects.contains(&Paste)
    };
    let mut ctx = recording();
    assert_eq!(ctx.paste_take(), Toggle::Stop);
    ctx.stop_recording();
    ctx.take_stopped(Some((48_000, 48_000)));
    ctx.stop_over();
    assert!(done(&mut ctx, 1));
    assert!(!done(&mut ctx, 1), "once");
    let (mut ctx, _) = transcribing();
    assert!(!done(&mut ctx, 1), "finished on the other key");
    let (mut ctx, _) = transcribing();
    assert_eq!(ctx.paste_take(), Toggle::Ignore);
    assert!(done(&mut ctx, 1), "asked for during the transcription");
}

#[test]
fn a_paste_belongs_to_its_take() {
    let (mut ctx, _) = transcribing();
    assert_eq!(ctx.toggle_record(), Toggle::Start);
    ctx.start_recording(Some(("Mic".to_string(), 48_000)));
    assert_eq!(ctx.paste_take(), Toggle::Stop, "of the newer take");
    let old = ctx.finish(Outcome::Done, true, true, true, 1);
    assert!(!old.contains(&Paste), "the older one does not use it up");
    ctx.stop_recording();
    ctx.take_stopped(Some((48_000, 48_000)));
    let new = ctx.finish(Outcome::Done, true, true, true, 2);
    assert!(new.contains(&Paste));
    let mut ctx = recording();
    ctx.paste_take();
    ctx.stop_recording();
    ctx.take_stopped(None);
    ctx.stop_over();
    assert!(!ctx.paste_recording, "discarded with the take");
    let (mut ctx, _) = transcribing();
    ctx.paste_take();
    ctx.cancel_record();
    assert_eq!(ctx.paste_for, None, "cancelled with the take");
    let (mut ctx, _) = transcribing();
    ctx.paste_take();
    let failed = ctx.finish(Outcome::CopyFail, false, true, true, 1);
    assert!(!failed.contains(&Paste), "there is nothing to paste");
}

#[test]
fn a_newer_take_owns_what_is_shown() {
    let (mut ctx, mut job) = transcribing();
    ctx.toggle_record();
    ctx.start_recording(Some(("Mic".to_string(), 48_000)));
    assert_eq!(
        ctx.finish(Outcome::Done, true, true, true, job.session),
        [Play(Cue::Done), AddEntry, SetStorage(false)]
    );
    assert!(ctx.finish(Outcome::Error, false, false, true, job.session).is_empty());
    ctx.toggle_record();
    ctx.stop_recording();
    ctx.take_stopped(Some((48_000, 48_000)));
    let answer = Some("old".to_string());
    assert_eq!(
        job.cpu_answered(&ctx, answer).0,
        Ask::End(Outcome::Noop),
        "superseded"
    );
    assert!(ctx.is_transcribing(), "the newer one still is");
}

#[test]
fn every_end_resolves_the_pill() {
    let ends = [
        (Outcome::Error, Pill::TranscriptionFailed),
        (Outcome::Model, Pill::ModelNotReady),
        (Outcome::CopyFail, Pill::CopyFailed),
    ];
    for (outcome, pill) in ends {
        let (mut ctx, _) = transcribing();
        assert_eq!(
            ctx.finish(outcome, false, false, true, 1),
            [
                SetTray(Tray::Idle),
                Play(Cue::Error),
                Show(pill),
                HidePillIn(ERROR_PILL_MS)
            ]
        );
    }
    let (mut ctx, _) = transcribing();
    assert_eq!(
        ctx.finish(Outcome::Empty, false, false, true, 1),
        [SetTray(Tray::Idle), Play(Cue::Cancel), HidePill]
    );
}

#[test]
fn stale_timers_do_nothing() {
    let mut ctx = recording();
    let timer = ctx.start_pill_timer();
    assert!(ctx.pill_timer_counts(timer));
    assert!(!ctx.show_pill(false));
    assert!(ctx.pill_timer_counts(timer), "nothing was shown");
    assert!(ctx.show_pill(true));
    assert!(!ctx.pill_timer_counts(timer));
    let first = ctx.start_level_pusher();
    assert!(ctx.feeds_meter(first));
    let second = ctx.start_level_pusher();
    assert!(!ctx.feeds_meter(first));
    ctx.stop_recording();
    assert!(!ctx.feeds_meter(second));
}

#[test]
fn the_device_follows_the_policy() {
    let mut ctx = AppCtx::new();
    let mut on = |device: &str, class, desktop, on_ac| {
        let target = ctx.resolve_target(device, class, desktop, on_ac, 0);
        (target, serving_slot(target, device, class, desktop, on_ac))
    };
    check_laptop(&mut on);
    for on_ac in [true, false] {
        for class in [GpuClass::Integrated, GpuClass::Discrete, GpuClass::Unified] {
            let one = (Target::Gpu, ModelSlot::Single);
            assert_eq!(on("auto", class, true, on_ac), one, "a desktop");
            assert_eq!(on("cuda", class, false, on_ac), one, "forced");
            assert_eq!(on("CPU", class, false, on_ac), (Target::Cpu, ModelSlot::Single));
        }
        let none = on("auto", GpuClass::NoGpu, true, on_ac);
        assert_eq!(none, (Target::Cpu, ModelSlot::Single));
    }
}

fn check_laptop(on: &mut dyn FnMut(&str, GpuClass, bool, bool) -> (Target, ModelSlot)) {
    let discrete = GpuClass::Discrete;
    assert_eq!(on("auto", discrete, false, true), (Target::Gpu, ModelSlot::Ac));
    assert_eq!(on("auto", discrete, false, false), (Target::Cpu, ModelSlot::Battery));
    for class in [GpuClass::Integrated, GpuClass::Unified] {
        assert_eq!(on("auto", class, false, true), (Target::Gpu, ModelSlot::Ac));
        assert_eq!(on("auto", class, false, false), (Target::Gpu, ModelSlot::Battery));
    }
    let none = GpuClass::NoGpu;
    assert_eq!(on("auto", none, false, true), (Target::Cpu, ModelSlot::Ac));
    assert_eq!(on("auto", none, false, false), (Target::Cpu, ModelSlot::Battery));
}

#[test]
fn a_gpu_that_failed_gets_another_chance() {
    let class = GpuClass::Discrete;
    let mut ctx = AppCtx::new();
    ctx.latch_gpu_off();
    assert_eq!(ctx.resolve_target("cpu", class, false, true, 0), Target::Cpu);
    assert!(!ctx.gpu_ok, "it is not wanted");
    let first = ctx.resolve_target("cuda", class, false, true, 5);
    assert_eq!(first, Target::Gpu, "the first chance");
    ctx.latch_gpu_off();
    let soon = 5 + GPU_REPROBE_SECS * SEC - 1;
    assert_eq!(ctx.resolve_target("cuda", class, false, true, soon), Target::Cpu);
    assert_eq!(ctx.resolve_target("cuda", class, false, true, soon + 1), Target::Gpu);
}

#[test]
fn the_cpu_stands_in_with_the_lighter_model() {
    let class = GpuClass::Discrete;
    let slot = |device, desktop| serving_slot(Target::Cpu, device, class, desktop, true);
    assert_eq!(slot("auto", false), ModelSlot::Battery);
    assert_eq!(slot("auto", true), ModelSlot::Single);
    assert_eq!(slot("cuda", false), ModelSlot::Single);
}

#[test]
fn the_engine_is_loaded_step_by_step() {
    let (ac, battery) = (ModelSlot::Ac, ModelSlot::Battery);
    let m = models("base.en", "small.en", "");
    let load = |target, slot, cached| load_engine(target, slot, &m, cached);
    assert_eq!(load(Target::Gpu, ac, true), LoadStep::Worker("small.en".into(), 30));
    assert_eq!(load(Target::Gpu, battery, false), LoadStep::Worker("base.en".into(), 120));
    assert_eq!(load(Target::Cpu, battery, true), LoadStep::Cpu("base.en".into()));
    assert_eq!(load(Target::Cpu, ac, true), LoadStep::Cpu("small.en".into()));
    let one = models("medium.en", "small.en", "tiny.en");
    assert_eq!(
        load_engine(Target::Gpu, ModelSlot::Single, &one, true),
        LoadStep::Worker("medium.en".into(), 30)
    );
    let mut ctx = AppCtx::new();
    let mut engine = Engine::new();
    let step = |engine: &Engine, target, model: &str, alive| {
        ensure_device(engine, target, model, alive)
    };
    assert_eq!(step(&engine, Target::Gpu, "small.en", false), EnsureStep::Load);
    assert_eq!(engine.worker_ready(&mut ctx, ac, &m, true), LoadStep::Loaded);
    assert_eq!(step(&engine, Target::Gpu, "small.en", true), EnsureStep::Healthy);
    assert_eq!(
        step(&engine, Target::Gpu, "base.en", true),
        EnsureStep::StopWorker,
        "the model is swapped on the same device"
    );
    assert_eq!(
        step(&engine, Target::Gpu, "small.en", false),
        EnsureStep::StopWorker,
        "a dead worker does not count"
    );
    assert_eq!(step(&engine, Target::Cpu, "base.en", true), EnsureStep::StopWorker);
    let shown = engine_dict(&engine, true, "base.en", true);
    assert_eq!((shown.model.as_str(), shown.device, shown.power), ("small.en", "GPU", "plugged"));
    assert_eq!(engine_dict(&engine, false, "base.en", false).device, "CPU");
    engine.drop_worker();
    assert_eq!(
        engine.worker_ready(&mut ctx, ac, &m, false),
        LoadStep::Cpu("base.en".into()),
        "the lighter model stands in"
    );
    assert!(!ctx.gpu_ok);
    assert_eq!(
        engine.worker_ready(&mut ctx, ModelSlot::Single, &one, false),
        LoadStep::Cpu("medium.en".into())
    );
    assert_eq!(engine.cpu_ready("base.en", true), LoadStep::Loaded);
    assert_eq!(engine.device, Target::Cpu);
    assert_eq!(engine.model_name, "base.en");
    assert_eq!(step(&engine, Target::Cpu, "base.en", false), EnsureStep::Healthy);
    engine.cpu_ready("base.en", false);
    assert!(!engine.has_transcriber);
    assert_eq!(engine_dict(&engine, false, "base.en", false).model, "base.en");
}

#[test]
fn states_have_their_names() {
    assert_eq!(target_name(Target::Gpu), "gpu");
    assert_eq!(cue_name(Cue::Cancel), "cancel");
    assert_eq!(tray_name(Tray::Transcribing), "transcribing");
    assert_eq!(pill_name(Pill::Done), ("done", None));
    assert_eq!(pill_name(Pill::NoMicrophone), ("error", Some("No microphone")));
    assert_eq!(pill_name(Pill::CopyFailed), ("error", Some("Copy failed")));
}

#[test]
fn a_dead_worker_and_a_new_supply_are_noticed() {
    let m = models("base.en", "small.en", "");
    let mut ctx = AppCtx::new();
    let mut engine = Engine::new();
    assert!(!ctx.watch(&engine, false, false, true, true), "no worker died");
    assert!(ctx.watch(&engine, false, false, true, false), "unplugged");
    assert!(ctx.watch(&engine, false, false, false, true), "plugged in");
    assert!(!ctx.watch(&engine, false, true, true, false), "a desktop");
    engine.worker_ready(&mut ctx, ModelSlot::Ac, &m, true);
    assert!(!ctx.watch(&engine, true, false, true, true));
    assert!(ctx.gpu_ok);
    assert!(ctx.watch(&engine, false, true, true, true), "it died");
    assert!(!ctx.gpu_ok);
}

#[test]
fn a_press_that_finishes_nothing_asks_for_no_paste() {
    let mut ctx = recording();
    assert_eq!(ctx.toggle_record(), Toggle::Stop);
    ctx.stop_recording();
    ctx.take_stopped(None);
    ctx.start_recording(Some(("Mic".to_string(), 48_000)));
    assert_eq!(ctx.paste_take(), Toggle::Ignore, "one is just being stopped");
    ctx.stop_over();
    assert!(!ctx.paste_recording);
    assert_eq!(ctx.toggle_record(), Toggle::Stop);
    ctx.stop_recording();
    ctx.take_stopped(Some((48_000, 48_000)));
    assert_eq!(ctx.paste_for, None, "it was finished by the other key");
}
