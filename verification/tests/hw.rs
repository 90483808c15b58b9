//! The kinds of graphics cards, and what runs on which.

use tiro::hw::{
    classify, default_gpu_index, is_desktop, number_devices, parse_enum_output, policy, resolve_gpu_device,
    snapshot, Backend, GpuClass, GpuDevice, Listed, ModelSlot, PowerPref,
};
use tiro::hw::GpuClass::{Discrete, Integrated, NoGpu, Unified};
use tiro::hw::ModelSlot::{Ac, Battery, Single};
use tiro::hw::PowerPref::{Auto, ForceCpu, ForceGpu};

fn dev(index: usize, name: &str, kind: &str, vram: u64) -> GpuDevice {
    GpuDevice {
        index,
        name: name.into(),
        kind: kind.into(),
        vram_bytes: vram,
    }
}

#[test]
fn classify_covers_all_lists() {
    assert_eq!(classify(&[]), GpuClass::NoGpu);
    assert_eq!(
        classify(&[dev(0, "iGPU", "integrated", 0)]),
        GpuClass::Integrated
    );
    assert_eq!(
        classify(&[dev(0, "RTX 2070", "discrete", 8 << 30)]),
        GpuClass::Discrete
    );
    assert_eq!(
        classify(&[
            dev(0, "iGPU", "integrated", 0),
            dev(1, "RTX 2070", "discrete", 8 << 30)
        ]),
        GpuClass::Discrete,
        "any discrete device makes the machine discrete-class"
    );
}

/// Every cell of the policy table, in order.
#[test]
fn policy_table_every_cell() {
    // (class, desktop, on_ac, pref) -> (device, slot)
    let cells: &[(GpuClass, bool, bool, PowerPref, &str, ModelSlot)] = &[
        // discrete + laptop: TODAY'S BEHAVIOR EXACTLY (the Blade 14 cell)
        (Discrete, false, true, Auto, "gpu", Ac),
        (Discrete, false, false, Auto, "cpu", Battery),
        // discrete + desktop: always GPU + single model
        (Discrete, true, true, Auto, "gpu", Single),
        (Discrete, true, false, Auto, "gpu", Single),
        // integrated + laptop: GPU always, model follows the power source
        (Integrated, false, true, Auto, "gpu", Ac),
        (Integrated, false, false, Auto, "gpu", Battery),
        // integrated + desktop
        (Integrated, true, true, Auto, "gpu", Single),
        (Integrated, true, false, Auto, "gpu", Single),
        // none: CPU only everywhere; laptop keeps the two model slots
        (NoGpu, false, true, Auto, "cpu", Ac),
        (NoGpu, false, false, Auto, "cpu", Battery),
        (NoGpu, true, true, Auto, "cpu", Single),
        (NoGpu, true, false, Auto, "cpu", Single),
        // unified (future Apple): rides the integrated cells
        (Unified, false, true, Auto, "gpu", Ac),
        (Unified, false, false, Auto, "gpu", Battery),
        (Unified, true, true, Auto, "gpu", Single),
        (Unified, true, false, Auto, "gpu", Single),
    ];
    for &(class, desktop, on_ac, pref, want_dev, want_slot) in cells {
        let (dev, slot) = policy(class, desktop, on_ac, pref);
        assert_eq!(
            (dev, slot),
            (want_dev, want_slot),
            "auto cell {class:?} desktop={desktop} on_ac={on_ac}"
        );
    }
    // Forced modes: single model key on ALL machine classes.
    for class in [NoGpu, Integrated, Discrete, Unified] {
        for desktop in [false, true] {
            for on_ac in [false, true] {
                assert_eq!(
                    policy(class, desktop, on_ac, ForceCpu),
                    ("cpu", Single),
                    "forced-cpu cell {class:?} desktop={desktop} on_ac={on_ac}"
                );
                assert_eq!(
                    policy(class, desktop, on_ac, ForceGpu),
                    ("gpu", Single),
                    "forced-gpu cell {class:?} desktop={desktop} on_ac={on_ac}"
                );
            }
        }
    }
}

#[test]
fn power_pref_parses_cfg_values() {
    assert_eq!(PowerPref::from_cfg("auto"), PowerPref::Auto);
    assert_eq!(PowerPref::from_cfg("cpu"), PowerPref::ForceCpu);
    assert_eq!(PowerPref::from_cfg("cuda"), PowerPref::ForceGpu);
    assert_eq!(PowerPref::from_cfg("CUDA"), PowerPref::ForceGpu);
    assert_eq!(PowerPref::from_cfg("garbage"), PowerPref::Auto);
}

#[test]
fn default_gpu_prefers_discrete_then_vram_then_first() {
    // discrete beats integrated even with less VRAM
    let gpus = vec![
        dev(0, "iGPU", "integrated", 16 << 30),
        dev(1, "RTX", "discrete", 8 << 30),
    ];
    assert_eq!(default_gpu_index(&gpus), 1);
    // among discretes, largest VRAM wins
    let gpus = vec![
        dev(0, "RTX A", "discrete", 8 << 30),
        dev(1, "RTX B", "discrete", 24 << 30),
    ];
    assert_eq!(default_gpu_index(&gpus), 1);
    // all-zero VRAM (driver hides it): first device
    let gpus = vec![dev(0, "A", "discrete", 0), dev(1, "B", "discrete", 0)];
    assert_eq!(default_gpu_index(&gpus), 0);
    // integrated-only machine: the iGPU
    let gpus = vec![dev(0, "iGPU", "integrated", 0)];
    assert_eq!(default_gpu_index(&gpus), 0);
    assert_eq!(default_gpu_index(&[]), 0, "empty list degrades to 0");
}

#[test]
fn resolve_gpu_device_honors_and_invalidates_the_stored_choice() {
    let gpus = vec![
        dev(0, "iGPU", "integrated", 0),
        dev(1, "RTX 2070", "discrete", 8 << 30),
    ];
    // nothing stored -> default (the discrete card), no note
    assert_eq!(resolve_gpu_device("", "", &gpus), (1, None));
    // stored and still matching -> honored exactly, no note
    assert_eq!(resolve_gpu_device("0", "iGPU", &gpus), (0, None));
    // same name at a different index -> follow the name, with a note
    let (idx, note) = resolve_gpu_device("0", "RTX 2070", &gpus);
    assert_eq!(idx, 1);
    assert!(note.is_some(), "index drift is reported");
    // stored card gone -> default, with a note
    let (idx, note) = resolve_gpu_device("2", "GTX 1080", &gpus);
    assert_eq!(idx, 1);
    assert!(note.unwrap().contains("no longer present"));
    // no gpus at all -> harmless 0
    assert_eq!(resolve_gpu_device("1", "RTX 2070", &[]), (0, None));
}

/// Reads the line that the listing process prints.
fn parse_devices(line: &str) -> Option<Vec<GpuDevice>> {
    let value: serde_json::Value = serde_json::from_str(line).ok()?;
    let mut all = Vec::new();
    for entry in value.as_array()? {
        all.push(GpuDevice {
            index: entry.get("index")?.as_u64()? as usize,
            name: entry.get("name")?.as_str()?.to_string(),
            kind: entry.get("kind")?.as_str()?.to_string(),
            vram_bytes: entry.get("vram_bytes")?.as_u64()?,
        });
    }
    Some(all)
}

#[test]
fn enum_output_parses_leniently() {
    let devs = vec![dev(0, "RTX 2070", "discrete", 8 << 30)];
    let json = "[{\"index\":0,\"name\":\"RTX 2070\",\"kind\":\"discrete\",\"vram_bytes\":8589934592}]";
    assert_eq!(parse_enum_output(json, parse_devices), devs, "clean line");
    let noisy = format!("driver spew\n{json}\n");
    assert_eq!(
        parse_enum_output(&noisy, parse_devices),
        devs,
        "noise before the line"
    );
    assert_eq!(parse_enum_output("", parse_devices), Vec::<GpuDevice>::new());
    assert_eq!(parse_enum_output("not json at all", parse_devices), Vec::new());
    assert_eq!(parse_enum_output("[]", parse_devices), Vec::new(), "no devices");
}

#[test]
fn devices_are_numbered_among_processors_alone() {
    let listed = |backend, name: Option<&str>, vram_bytes| Listed {
        backend,
        name: name.map(String::from),
        vram_bytes,
    };
    let all = number_devices(&vec![
        listed(Backend::Other, Some("CPU"), 1),
        listed(Backend::Integrated, Some("iGPU"), 2),
        listed(Backend::Discrete, Some("RTX"), 3),
    ]);
    assert_eq!(
        all,
        [dev(0, "iGPU", "integrated", 2), dev(1, "RTX", "discrete", 3)]
    );
    let hw = snapshot(all, true);
    assert_eq!(hw.class, GpuClass::Discrete);
    assert!(hw.battery_present);
    assert_eq!(GpuClass::NoGpu.as_str(), "none");
    assert_eq!(GpuClass::Discrete.as_str(), "discrete");
}

#[test]
fn processors_that_share_the_memory_are_a_class_of_their_own() {
    let apple = Listed {
        backend: Backend::Unified,
        name: Some("Apple M2".to_string()),
        vram_bytes: 9,
    };
    let all = number_devices(&vec![apple]);
    assert_eq!(all, [dev(0, "Apple M2", "unified", 9)]);
    assert_eq!(classify(&all), Unified);
    assert_eq!(Unified.as_str(), "unified");
    let both = [dev(0, "iGPU", "integrated", 1), dev(1, "Apple M2", "unified", 9)];
    assert_eq!(classify(&both), Unified);
    let three = [dev(0, "Apple M2", "unified", 9), dev(1, "RTX", "discrete", 1)];
    assert_eq!(classify(&three), Discrete);
}

#[test]
fn a_machine_without_a_battery_is_a_desktop() {
    assert!(is_desktop(false, false));
    assert!(!is_desktop(true, false));
    assert!(is_desktop(true, true), "it is said to be one");
    assert!(is_desktop(false, true));
}

#[test]
fn notes_say_what_became_of_the_choice() {
    let gpus = vec![dev(0, "iGPU", "integrated", 0), dev(1, "RTX", "discrete", 1)];
    let (_, note) = resolve_gpu_device("0", "RTX", &gpus);
    assert!(note.unwrap().contains("RTX"));
    assert_eq!(resolve_gpu_device("x", "", &gpus).0, 1);
}
