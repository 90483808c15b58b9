//! Mains, batteries and what they say of the machine.

use tiro::power::{
    any_mains_online, any_system_battery, battery_present, flag_shows_battery, line_status_is_ac,
    on_ac_power, Supply,
};

/// A supply as the kernel lists it; a file that is not there reads as empty.
fn supply(kind: &str, online: Option<&str>, scope: Option<&str>) -> Supply {
    let line = |v: Option<&str>| v.map(|v| format!("{v}\n")).unwrap_or_default();
    Supply {
        kind: format!("{kind}\n"),
        online: line(online),
        scope: line(scope),
    }
}

#[test]
fn mains_online_is_ac() {
    let all = [supply("Mains", Some("1"), None), supply("Battery", None, None)];
    assert!(any_mains_online(&all));
}

#[test]
fn mains_offline_is_battery() {
    let all = [supply("Mains", Some("0"), None), supply("Battery", None, None)];
    assert!(!any_mains_online(&all));
}

#[test]
fn no_supplies_defaults_to_battery() {
    assert!(!any_mains_online(&[]));
    assert!(!on_ac_power(None), "unreadable dir is battery too");
}

#[test]
fn battery_only_machine_reads_battery() {
    assert!(!any_mains_online(&[supply("Battery", None, None)]));
}

#[test]
fn battery_presence_is_detected() {
    let all = [supply("Mains", Some("1"), None), supply("Battery", None, None)];
    assert!(any_system_battery(&all));
}

#[test]
fn no_battery_reads_as_desktop_hardware() {
    assert!(!any_system_battery(&[supply("Mains", Some("1"), None)]));
    assert!(!battery_present(None));
}

#[test]
fn device_scoped_batteries_do_not_count() {
    // a bluetooth mouse battery must not turn a desktop into a laptop
    let mouse = supply("Battery", None, Some("Device"));
    assert!(!any_system_battery(&[mouse]));
    // but an explicit System scope counts
    let mouse = supply("Battery", None, Some("Device"));
    let own = supply("Battery", None, Some("System"));
    assert!(any_system_battery(&[mouse, own]));
}

#[test]
fn what_windows_reports_is_read() {
    assert!(line_status_is_ac(Some(1)));
    assert!(!line_status_is_ac(Some(0)));
    assert!(!line_status_is_ac(Some(255)));
    assert!(!line_status_is_ac(None));
    assert!(flag_shows_battery(Some(0)));
    assert!(flag_shows_battery(Some(9)));
    assert!(!flag_shows_battery(Some(128)));
    assert!(!flag_shows_battery(Some(255)));
    assert!(!flag_shows_battery(None));
}
