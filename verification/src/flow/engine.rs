//! The engine: which device should serve, what is loaded for it, and what the
//! panel shows of it.

use crate::flow::{AppCtx, GPU_REPROBE_SECS};
use crate::gpu;
use crate::hw::{self, GpuClass, ModelSlot, PowerPref};
use crate::text;
use vstd::prelude::*;

verus! {

/// How often the power supply and the worker are looked at.
pub const WATCH_SECS: u64 = 20;

/// A device that transcribes.
#[derive(Clone, Copy, PartialEq, Eq, Structural, Debug)]
pub enum Target {
    Cpu,
    Gpu,
}

/// The name of a device.
pub fn target_name(target: Target) -> (r: &'static str)
    ensures
        r@ == match target {
            Target::Cpu => "cpu"@,
            Target::Gpu => "gpu"@,
        },
{
    match target {
        Target::Cpu => "cpu",
        Target::Gpu => "gpu",
    }
}

/// What serves: a transcriber in this process, or a worker of its own on the
/// GPU.
#[derive(Debug, PartialEq, Eq)]
pub struct Engine {
    pub has_transcriber: bool,
    pub has_worker: bool,
    pub model_name: String,
    pub device: Target,
}

impl Engine {
    /// Never both at once.
    pub open spec fn wf(&self) -> bool {
        !(self.has_transcriber && self.has_worker)
    }

    /// Nothing serves yet.
    pub fn new() -> (r: Engine)
        ensures
            r.wf(),
            !r.has_transcriber,
            !r.has_worker,
            r.model_name@ == Seq::<char>::empty(),
            r.device == Target::Cpu,
    {
        Engine {
            has_transcriber: false,
            has_worker: false,
            model_name: String::new(),
            device: Target::Cpu,
        }
    }

    /// Whether it serves on `target` with this model right now: on the GPU only with
    /// a worker that is alive, on the CPU only with a model that is loaded.
    pub open spec fn healthy(&self, target: Target, model: Seq<char>, worker_alive: bool) -> bool {
        self.device == target && self.model_name@ == model && match target {
            Target::Gpu => self.has_worker && worker_alive,
            Target::Cpu => self.has_transcriber,
        }
    }
}

// ---- which device -----------------------------------------------------------

/// Whether a GPU that failed gets another chance: it is wanted at all, and the
/// last chance is long enough ago.
pub open spec fn probe_is_due(
    gpu_ok: bool,
    device: Seq<char>,
    probe: Option<u64>,
    now: u64,
) -> bool {
    &&& !gpu_ok
    &&& text::lowercase(device) != "cpu"@
    &&& match probe {
        Some(t) => now >= t + GPU_REPROBE_SECS * 1_000_000_000,
        None => true,
    }
}

/// Which device should serve: the GPU where the policy for the machine says so and
/// it has not failed.
pub open spec fn target_of(
    device: Seq<char>,
    gpu_ok: bool,
    class: GpuClass,
    desktop: bool,
    on_ac: bool,
) -> Target {
    if gpu_ok && hw::uses_gpu(class, desktop, on_ac, hw::pref_of(device)) {
        Target::Gpu
    } else {
        Target::Cpu
    }
}

/// The model that stands in where the GPU was to serve and the CPU has to: the one
/// model stays, and of a pair it is the lighter one.
pub open spec fn fallback_slot(slot: ModelSlot) -> ModelSlot {
    if slot == ModelSlot::Single {
        ModelSlot::Single
    } else {
        ModelSlot::Battery
    }
}

/// Which configured model serves on `target`: the one that the policy gives, or its
/// stand-in where the CPU serves for a GPU that has failed.
pub open spec fn slot_on(
    target: Target,
    device: Seq<char>,
    class: GpuClass,
    desktop: bool,
    on_ac: bool,
) -> ModelSlot {
    let pref = hw::pref_of(device);
    let slot = hw::slot_of(desktop, on_ac, pref);
    if target == Target::Cpu && hw::uses_gpu(class, desktop, on_ac, pref) {
        fallback_slot(slot)
    } else {
        slot
    }
}

/// The model that stands in where the GPU was to serve and the CPU has to.
fn stand_in(slot: ModelSlot) -> (r: ModelSlot)
    ensures
        r == fallback_slot(slot),
{
    match slot {
        ModelSlot::Single => ModelSlot::Single,
        _ => ModelSlot::Battery,
    }
}

/// Which configured model serves on `target`, on a machine of this kind, by the
/// configured device and the power supply.
pub fn serving_slot(target: Target, device: &str, class: GpuClass, desktop: bool, on_ac: bool) -> (r:
    ModelSlot)
    ensures
        r == slot_on(target, device@, class, desktop, on_ac),
{
    let (wanted, slot) = hw::policy(class, desktop, on_ac, PowerPref::from_cfg(device));
    proof {
        reveal_strlit("gpu");
        reveal_strlit("cpu");
        assert("gpu"@[0] == 'g' && "cpu"@[0] == 'c');
    }
    if target == Target::Cpu && text::str_eq(wanted, "gpu") {
        stand_in(slot)
    } else {
        slot
    }
}

impl AppCtx {
    /// Give a GPU that failed another chance where one is due. `device` is the
    /// configured one, `now` a time in nanoseconds.
    pub fn maybe_reprobe_gpu(&mut self, device: &str, now: u64)
        ensures
            old(self).wf() ==> final(self).wf(),
            ({
                let due = probe_is_due(old(self).gpu_ok, device@, old(self).gpu_probe, now);
                *final(self) == (AppCtx {
                    gpu_ok: old(self).gpu_ok || due,
                    gpu_probe: if due {
                        Some(now)
                    } else {
                        old(self).gpu_probe
                    },
                    ..*old(self)
                })
            }),
    {
        if self.gpu_ok || text::str_eq(text::to_lowercase(device).as_str(), "cpu") {
            return;
        }
        let due = match self.gpu_probe {
            Some(t) => now.saturating_sub(t) >= GPU_REPROBE_SECS * 1_000_000_000,
            None => true,
        };
        if due {
            self.gpu_probe = Some(now);
            self.gpu_ok = true;
        }
    }

    /// Which device should serve right now, by the configured one, the kind of the
    /// machine, the power supply and whether the GPU works.
    pub fn resolve_target(
        &mut self,
        device: &str,
        class: GpuClass,
        desktop: bool,
        on_ac: bool,
        now: u64,
    ) -> (r: Target)
        ensures
            old(self).wf() ==> final(self).wf(),
            ({
                let due = probe_is_due(old(self).gpu_ok, device@, old(self).gpu_probe, now);
                &&& *final(self) == (AppCtx {
                    gpu_ok: old(self).gpu_ok || due,
                    gpu_probe: if due {
                        Some(now)
                    } else {
                        old(self).gpu_probe
                    },
                    ..*old(self)
                })
                &&& r == target_of(device@, old(self).gpu_ok || due, class, desktop, on_ac)
            }),
    {
        self.maybe_reprobe_gpu(device, now);
        let (wanted, _) = hw::policy(class, desktop, on_ac, PowerPref::from_cfg(device));
        proof {
            reveal_strlit("gpu");
            reveal_strlit("cpu");
            assert("gpu"@[0] == 'g' && "cpu"@[0] == 'c');
        }
        if self.gpu_ok && text::str_eq(wanted, "gpu") {
            Target::Gpu
        } else {
            Target::Cpu
        }
    }

    /// The GPU has failed.
    pub fn latch_gpu_off(&mut self)
        ensures
            old(self).wf() ==> final(self).wf(),
            *final(self) == (AppCtx { gpu_ok: false, ..*old(self) }),
    {
        self.gpu_ok = false;
    }

    /// A look at the worker and the power supply: whether the engine has to be brought
    /// up anew. A worker that died counts as a GPU that failed; a desktop does not
    /// follow its supply.
    pub fn watch(
        &mut self,
        engine: &Engine,
        worker_alive: bool,
        desktop: bool,
        was_ac: bool,
        on_ac: bool,
    ) -> (r: bool)
        ensures
            old(self).wf() ==> final(self).wf(),
            ({
                let died = engine.has_worker && !worker_alive;
                &&& *final(self) == (AppCtx { gpu_ok: old(self).gpu_ok && !died, ..*old(self) })
                &&& r == (died || (!desktop && was_ac != on_ac))
            }),
    {
        let died = engine.has_worker && !worker_alive;
        if died {
            self.latch_gpu_off();
        }
        died || (!desktop && was_ac != on_ac)
    }
}

// ---- what is shown ----------------------------------------------------------

/// What the panel shows of the engine.
#[derive(Debug, PartialEq, Eq)]
pub struct EngineDict {
    pub model: String,
    /// `GPU` or `CPU`.
    pub device: &'static str,
    /// `plugged` or `battery`.
    pub power: &'static str,
}

/// What the panel shows of the engine: its model, or the configured one where
/// none is loaded, and the GPU only while its worker is alive.
pub fn engine_dict(engine: &Engine, worker_alive: bool, configured: &str, on_ac: bool) -> (r:
    EngineDict)
    ensures
        r.model@ == if engine.model_name@.len() == 0 {
            configured@
        } else {
            engine.model_name@
        },
        r.device@ == if engine.device == Target::Gpu && engine.has_worker && worker_alive {
            "GPU"@
        } else {
            "CPU"@
        },
        r.power@ == if on_ac {
            "plugged"@
        } else {
            "battery"@
        },
{
    let model = if text::chars_of(engine.model_name.as_str()).len() == 0 {
        configured.to_string()
    } else {
        engine.model_name.clone()
    };
    let device = if engine.device == Target::Gpu && engine.has_worker && worker_alive {
        "GPU"
    } else {
        "CPU"
    };
    let power = if on_ac {
        "plugged"
    } else {
        "battery"
    };
    EngineDict { model, device, power }
}

// ---- loading ----------------------------------------------------------------

/// The configured models: the one model, and the pair of a laptop, for mains power
/// and for battery.
#[derive(Debug, PartialEq, Eq)]
pub struct Models {
    pub single: String,
    pub ac: String,
    pub battery: String,
}

/// A configured name, or the fallback where there is none.
pub open spec fn name_or(name: Seq<char>, fallback: Seq<char>) -> Seq<char> {
    if name.len() == 0 {
        fallback
    } else {
        name
    }
}

/// A configured name, or the fallback where there is none.
fn or_fallback(name: &str, fallback: &str) -> (r: String)
    ensures
        r@ == name_or(name@, fallback@),
{
    if text::chars_of(name).len() == 0 {
        fallback.to_string()
    } else {
        name.to_string()
    }
}

/// The configured models; the one model stands for one of the pair that is not
/// configured.
pub fn models(model: &str, model_ac: &str, model_battery: &str) -> (r: Models)
    ensures
        r.single@ == model@,
        r.ac@ == name_or(model_ac@, model@),
        r.battery@ == name_or(model_battery@, model@),
{
    Models {
        single: model.to_string(),
        ac: or_fallback(model_ac, model),
        battery: or_fallback(model_battery, model),
    }
}

impl Models {
    /// The name of the model in a slot.
    pub open spec fn in_slot(self, slot: ModelSlot) -> Seq<char> {
        match slot {
            ModelSlot::Single => self.single@,
            ModelSlot::Ac => self.ac@,
            ModelSlot::Battery => self.battery@,
        }
    }

    /// The name of the model in a slot.
    pub fn name(&self, slot: ModelSlot) -> (r: String)
        ensures
            r@ == self.in_slot(slot),
    {
        match slot {
            ModelSlot::Single => self.single.clone(),
            ModelSlot::Ac => self.ac.clone(),
            ModelSlot::Battery => self.battery.clone(),
        }
    }
}

/// What loading waits for.
#[derive(Debug, PartialEq, Eq)]
pub enum LoadStep {
    /// A worker with this model, ready within so many seconds.
    Worker(String, u64),
    /// This model on the CPU, with voice detection where that can be had, warmed
    /// up.
    Cpu(String),
    /// Nothing more.
    Loaded,
}

/// What loading the model of a slot on a device begins with. `cached` says whether
/// that model is there already.
pub fn load_engine(target: Target, slot: ModelSlot, m: &Models, cached: bool) -> (r: LoadStep)
    ensures
        match target {
            Target::Gpu => r matches LoadStep::Worker(name, secs) && name@ == m.in_slot(slot)
                && secs == if cached {
                gpu::READY_TIMEOUT_CACHED
            } else {
                gpu::READY_TIMEOUT_DOWNLOAD
            },
            Target::Cpu => r matches LoadStep::Cpu(name) && name@ == m.in_slot(slot),
        },
{
    match target {
        Target::Gpu => {
            let secs: u64 = if cached {
                gpu::READY_TIMEOUT_CACHED
            } else {
                gpu::READY_TIMEOUT_DOWNLOAD
            };
            LoadStep::Worker(m.name(slot), secs)
        },
        Target::Cpu => LoadStep::Cpu(m.name(slot)),
    }
}

impl Engine {
    /// A worker with the model of a slot was to be started: whether it is ready. One
    /// that is not costs the GPU its good name, and the model that stands in is
    /// loaded on the CPU.
    pub fn worker_ready(&mut self, ctx: &mut AppCtx, slot: ModelSlot, m: &Models, ok: bool) -> (r:
        LoadStep)
        requires
            !old(self).has_worker,
        ensures
            old(ctx).wf() ==> final(ctx).wf(),
            final(self).wf(),
            ok ==> {
                &&& r is Loaded
                &&& *final(ctx) == *old(ctx)
                &&& final(self).has_worker
                &&& !final(self).has_transcriber
                &&& final(self).model_name@ == m.in_slot(slot)
                &&& final(self).device == Target::Gpu
            },
            !ok ==> {
                &&& r matches LoadStep::Cpu(name) && name@ == m.in_slot(fallback_slot(slot))
                &&& *final(ctx) == (AppCtx { gpu_ok: false, ..*old(ctx) })
                &&& *final(self) == *old(self)
            },
    {
        if ok {
            self.has_transcriber = false;
            self.has_worker = true;
            self.model_name = m.name(slot);
            self.device = Target::Gpu;
            LoadStep::Loaded
        } else {
            ctx.gpu_ok = false;
            LoadStep::Cpu(m.name(stand_in(slot)))
        }
    }

    /// This model was to be loaded on the CPU: whether it was. Without one nothing
    /// serves, and a take says so.
    pub fn cpu_ready(&mut self, model: &str, ok: bool) -> (r: LoadStep)
        requires
            !old(self).has_worker,
        ensures
            final(self).wf(),
            r is Loaded,
            final(self).has_transcriber == ok,
            !final(self).has_worker,
            final(self).model_name@ == if ok {
                model@
            } else {
                Seq::<char>::empty()
            },
            final(self).device == Target::Cpu,
    {
        self.has_transcriber = ok;
        self.device = Target::Cpu;
        self.model_name = if ok {
            model.to_string()
        } else {
            String::new()
        };
        LoadStep::Loaded
    }

    /// The worker, where there is one, was stopped.
    pub fn drop_worker(&mut self)
        ensures
            *final(self) == (Engine { has_worker: false, ..*old(self) }),
    {
        self.has_worker = false;
    }
}

/// What bringing the engine to a device begins with.
#[derive(Clone, Copy, PartialEq, Eq, Structural, Debug)]
pub enum EnsureStep {
    /// Nothing: it serves there.
    Healthy,
    /// Stop the worker, then load.
    StopWorker,
    /// Load.
    Load,
}

/// What bringing the engine to `target` with this model begins with. A worker is
/// stopped before anything is loaded, so that the GPU can sleep meanwhile.
pub fn ensure_device(engine: &Engine, target: Target, model: &str, worker_alive: bool) -> (r:
    EnsureStep)
    ensures
        r == if engine.healthy(target, model@, worker_alive) {
            EnsureStep::Healthy
        } else if engine.has_worker {
            EnsureStep::StopWorker
        } else {
            EnsureStep::Load
        },
{
    let serves = engine.device == target && match target {
        Target::Gpu => engine.has_worker && worker_alive,
        Target::Cpu => engine.has_transcriber,
    };
    if serves && text::str_eq(engine.model_name.as_str(), model) {
        EnsureStep::Healthy
    } else if engine.has_worker {
        EnsureStep::StopWorker
    } else {
        EnsureStep::Load
    }
}

// ---- laws -------------------------------------------------------------------

/// The CPU serves where it was chosen, on every machine, whatever the power supply
/// and the GPU, with the one model.
pub proof fn law_a_chosen_cpu_serves(
    device: Seq<char>,
    gpu_ok: bool,
    class: GpuClass,
    desktop: bool,
    on_ac: bool,
)
    requires
        text::lowercase(device) == "cpu"@,
    ensures
        target_of(device, gpu_ok, class, desktop, on_ac) == Target::Cpu,
        slot_on(Target::Cpu, device, class, desktop, on_ac) == ModelSlot::Single,
{
}

/// Left to itself, the discrete GPU of a laptop serves on mains power, with the
/// bigger model, and sleeps on battery, while the CPU serves with the lighter one.
pub proof fn law_discrete_gpus_sleep_on_battery(device: Seq<char>, gpu_ok: bool)
    requires
        hw::pref_of(device) == PowerPref::Auto,
    ensures
        target_of(device, true, GpuClass::Discrete, false, true) == Target::Gpu,
        slot_on(Target::Gpu, device, GpuClass::Discrete, false, true) == ModelSlot::Ac,
        target_of(device, gpu_ok, GpuClass::Discrete, false, false) == Target::Cpu,
        slot_on(Target::Cpu, device, GpuClass::Discrete, false, false) == ModelSlot::Battery,
{
}

/// Left to itself, a laptop whose GPU shares its memory stays on the GPU and just
/// swaps the model.
pub proof fn law_integrated_gpus_swap_the_model(device: Seq<char>, class: GpuClass, on_ac: bool)
    requires
        hw::pref_of(device) == PowerPref::Auto,
        class == GpuClass::Integrated || class == GpuClass::Unified,
    ensures
        target_of(device, true, class, false, on_ac) == Target::Gpu,
        slot_on(Target::Gpu, device, class, false, on_ac) == if on_ac {
            ModelSlot::Ac
        } else {
            ModelSlot::Battery
        },
{
}

/// A desktop with a GPU uses it, whatever the supply seems to be, and every desktop
/// has the one model.
pub proof fn law_desktops_use_the_gpu(device: Seq<char>, class: GpuClass, on_ac: bool, target: Target)
    requires
        hw::pref_of(device) == PowerPref::Auto,
    ensures
        class != GpuClass::NoGpu ==> target_of(device, true, class, true, on_ac) == Target::Gpu,
        slot_on(target, device, class, true, on_ac) == ModelSlot::Single,
{
}

/// Without a GPU, or with one that has failed, the CPU serves.
pub proof fn law_the_cpu_is_always_there(
    device: Seq<char>,
    gpu_ok: bool,
    class: GpuClass,
    desktop: bool,
    on_ac: bool,
)
    requires
        !gpu_ok || (class == GpuClass::NoGpu && hw::pref_of(device) == PowerPref::Auto),
    ensures
        target_of(device, gpu_ok, class, desktop, on_ac) == Target::Cpu,
{
}

/// A worker that fails leaves what is to serve afterwards: the model that is loaded
/// on the CPU in its place is the one that serves there while the GPU counts as
/// failed.
pub proof fn law_stand_ins_stay(device: Seq<char>, class: GpuClass, desktop: bool, on_ac: bool)
    requires
        target_of(device, true, class, desktop, on_ac) == Target::Gpu,
    ensures
        target_of(device, false, class, desktop, on_ac) == Target::Cpu,
        slot_on(Target::Cpu, device, class, desktop, on_ac) == fallback_slot(
            slot_on(Target::Gpu, device, class, desktop, on_ac),
        ),
{
}

/// A GPU that failed gets another chance, but not twice within ten minutes.
pub proof fn law_gpu_chances_are_apart(device: Seq<char>, at: u64, now: u64)
    requires
        text::lowercase(device) != "cpu"@,
        at <= now,
    ensures
        probe_is_due(false, device, None, at),
        probe_is_due(false, device, Some(at), now) <==> now - at >= 600_000_000_000,
{
}

/// An engine serves on a device with a model where it stands on that device with that
/// model: on the GPU by a worker that is alive, on the CPU by a model that is loaded.
pub proof fn law_what_serves(engine: Engine, target: Target, model: Seq<char>, alive: bool)
    ensures
        engine.healthy(Target::Gpu, model, alive) <==> engine.device is Gpu && engine.model_name@
            == model && engine.has_worker && alive,
        engine.healthy(Target::Cpu, model, alive) <==> engine.device is Cpu && engine.model_name@
            == model && engine.has_transcriber,
        engine.wf() && engine.healthy(target, model, alive) ==> engine.has_worker
            != engine.has_transcriber,
{
}

/// Left to itself a laptop serves with the model for its supply, a desktop with the one
/// model; where the GPU has failed, the CPU serves with the model for battery, or the
/// one model.
pub proof fn law_models_follow_the_supply(
    m: Models,
    device: Seq<char>,
    class: GpuClass,
    desktop: bool,
    on_ac: bool,
)
    requires
        hw::pref_of(device) is Auto,
        !(class is NoGpu),
    ensures
        ({
            let gpu = m.in_slot(slot_on(Target::Gpu, device, class, desktop, on_ac));
            let cpu = m.in_slot(slot_on(Target::Cpu, device, class, desktop, on_ac));
            &&& desktop ==> gpu == m.single@ && cpu == m.single@
            &&& !desktop && on_ac ==> gpu == m.ac@ && cpu == m.battery@
            &&& !desktop && !on_ac ==> gpu == m.battery@ && cpu == m.battery@
        }),
{
}

/// A failed GPU is asked again only where it is wanted: never while it works or the CPU
/// is chosen.
pub proof fn law_a_gpu_is_not_asked_needlessly(
    gpu_ok: bool,
    device: Seq<char>,
    probe: Option<u64>,
    now: u64,
)
    ensures
        gpu_ok ==> !probe_is_due(gpu_ok, device, probe, now),
        text::lowercase(device) == "cpu"@ ==> !probe_is_due(gpu_ok, device, probe, now),
{
}

/// A supply without a model of its own uses the one that is set for both.
pub proof fn law_models_fall_back(name: Seq<char>, fallback: Seq<char>)
    ensures
        name_or(Seq::empty(), fallback) == fallback,
        name.len() > 0 ==> name_or(name, fallback) == name,
{
}

} // verus!
