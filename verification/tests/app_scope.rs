//! Unit names, and the desktop file that the portal looks for.

use tiro::app_scope::{
    cunescape_relax, current_unit, desktop_candidates, desktop_file_status, ensure_app_scope,
    exec_argv0, exec_resolves, lazy_id_scope, lazy_id_service, parse_app_id_from_unit, scope_name,
    should_migrate, wait_for_migration, with_optional_launcher, xdg_data_dirs, Migration, ScopeStep,
    UnitForm, MIGRATION_POLLS,
};

fn is_executable(path: &str) -> bool {
    path == "/bin/sh" || path == "/usr/bin/sh"
}

fn parse(unit: &str) -> Option<String> {
    parse_app_id_from_unit(unit)
}

#[test]
fn our_own_scope_name_round_trips_through_the_portal_parse() {
    // The whole point: the scope we create must parse back to the
    // tauri.conf.json identifier.
    let scope = scope_name("dev.tiro.app", 41234);
    assert_eq!(scope, "app-dev.tiro.app-41234.scope");
    assert_eq!(parse(&scope).as_deref(), Some("dev.tiro.app"));
}

#[test]
fn scope_and_slice_forms_parse() {
    assert_eq!(
        parse("app-org.kde.konsole-proof24208.scope").as_deref(),
        Some("org.kde.konsole")
    );
    assert_eq!(
        parse("app-org.kde.dolphin-12345.slice").as_deref(),
        Some("org.kde.dolphin")
    );
    // launcher prefix form: app-<launcher>-<id>-<random>.scope
    assert_eq!(
        parse("app-gnome-org.gnome.Baobab-1234.scope").as_deref(),
        Some("org.gnome.Baobab")
    );
}

#[test]
fn scope_form_requires_the_random_suffix() {
    // The portal's regex1 makes `-<RANDOM>` mandatory for scopes, and
    // regex2 only covers .service — so a bare app-<id>.scope yields
    // nothing. (Why scope_name always appends the pid.)
    assert_eq!(parse("app-dev.tiro.app.scope"), None);
}

#[test]
fn service_forms_parse() {
    // KDE's .desktop launches produce app-<id>@<random>.service.
    assert_eq!(
        parse("app-dev.tiro.app@abc123.service").as_deref(),
        Some("dev.tiro.app")
    );
    assert_eq!(
        parse("app-dev.tiro.app.service").as_deref(),
        Some("dev.tiro.app")
    );
    assert_eq!(
        parse("app-org.foo-autostart.service").as_deref(),
        Some("org.foo")
    );
    assert_eq!(
        parse("app-kde-org.kde.kalendarac@deadbeef.service").as_deref(),
        Some("org.kde.kalendarac")
    );
}

#[test]
fn escaped_dashes_unescape_like_the_portal() {
    // The example from the portal source itself.
    assert_eq!(
        parse("app-gnome-org.gnome.Evolution\\x2dalarm\\x2dnotify-2437.scope").as_deref(),
        Some("org.gnome.Evolution-alarm-notify")
    );
}

#[test]
fn non_app_units_yield_nothing() {
    assert_eq!(parse("tmux-spawn-c0a11fb2.scope"), None);
    assert_eq!(parse("app.slice"), None);
    assert_eq!(parse("session-2.scope"), None);
    assert_eq!(parse("app-.scope"), None);
    assert_eq!(parse("app-foo.weird"), None);
}

#[test]
fn cunescape_relax_passes_bad_escapes_through() {
    assert_eq!(cunescape_relax("a\\x2db"), "a-b");
    assert_eq!(cunescape_relax("a\\xZZb"), "a\\xZZb");
    assert_eq!(cunescape_relax("trailing\\x2"), "trailing\\x2");
    assert_eq!(cunescape_relax("plain"), "plain");
}

const OUR_ID: &str = "dev.tiro.app";

#[test]
fn own_id_no_ops_foreign_id_migrates() {
    // Only a unit deriving OUR id may skip migration; inheriting a
    // terminal's app scope must not leave us identified as the terminal.
    assert!(!should_migrate(
        Some("app-dev.tiro.app-41234.scope"),
        OUR_ID
    ));
    assert!(!should_migrate(
        Some("app-dev.tiro.app@deadbeef.service"),
        OUR_ID
    ));
    assert!(should_migrate(
        Some("app-org.kde.konsole-1234.scope"),
        OUR_ID
    ));
    assert!(should_migrate(Some("app-Alacritty-77.scope"), OUR_ID));
    assert!(should_migrate(Some("tmux-spawn-c0a11fb2.scope"), OUR_ID));
    assert!(should_migrate(None, OUR_ID));
}

#[test]
fn exec_argv0_extraction() {
    let entry = "[Desktop Entry]\nType=Application\nExec=/usr/bin/tiro --flag\n";
    assert_eq!(exec_argv0(entry).as_deref(), Some("/usr/bin/tiro"));
    let quoted = "[Desktop Entry]\nExec=\"/opt/spaced dir/tiro\" %U\n";
    assert_eq!(exec_argv0(quoted).as_deref(), Some("/opt/spaced dir/tiro"));
    let spaced_eq = "[Desktop Entry]\nExec = tiro\n";
    assert_eq!(exec_argv0(spaced_eq).as_deref(), Some("tiro"));
    assert_eq!(exec_argv0("[Desktop Entry]\nName=Tiro\n"), None);
    // Exec outside [Desktop Entry] (e.g. a Desktop Action) is GLib-invisible
    assert_eq!(
        exec_argv0("[Desktop Action new]\nExec=/bin/sh\n[Desktop Entry]\nName=T\n"),
        None
    );
}

#[test]
fn exec_resolution_mirrors_glib() {
    // Absolute argv0: checked directly, PATH irrelevant.
    let abs = "[Desktop Entry]\nExec=/bin/sh -c true\n";
    assert!(exec_resolves(abs, &[], is_executable).is_ok());
    // Bare argv0: found via the given PATH dirs.
    let bare = "[Desktop Entry]\nExec=sh\n";
    assert!(exec_resolves(bare, &[String::from("/usr/bin")], is_executable).is_ok());
    // Missing binary: GLib would reject the file -> so do we.
    let missing = "[Desktop Entry]\nExec=definitely-not-a-real-binary-4213\n";
    let err = exec_resolves(missing, &[String::from("/usr/bin")], is_executable).expect_err("must fail");
    assert!(err.contains("definitely-not-a-real-binary-4213"), "{err}");
    assert!(err.contains("does not resolve"), "{err}");
    // No Exec at all: GLib rejects too.
    let none = "[Desktop Entry]\nName=Tiro\n";
    let err = exec_resolves(none, &[], is_executable).expect_err("must fail");
    assert!(err.contains("no Exec"), "{err}");
}

#[test]
fn the_unit_is_the_leaf_of_the_unified_hierarchy() {
    let own = "1:name=systemd:/\n0::/user.slice/app.slice/app-org.foo-77.scope\n";
    assert_eq!(current_unit(own).as_deref(), Some("app-org.foo-77.scope"));
    assert_eq!(current_unit("0::/\n"), None, "no leaf");
    assert_eq!(current_unit("1:cpu:/a/b.scope\n"), None, "no unified line");
}

#[test]
fn the_scope_is_changed_only_where_the_portal_needs_it() {
    let ours = Some("app-dev.tiro.app@abc.service".to_string());
    let foreign = Some("app-Alacritty-77.scope".to_string());
    assert_eq!(
        ensure_app_scope(false, foreign.clone(), OUR_ID, 9),
        ScopeStep::Skip
    );
    assert_eq!(
        ensure_app_scope(true, ours, OUR_ID, 9),
        ScopeStep::AlreadyOurs("app-dev.tiro.app@abc.service".into())
    );
    assert_eq!(
        ensure_app_scope(true, foreign, OUR_ID, 9),
        ScopeStep::Migrate("app-dev.tiro.app-9.scope".into())
    );
    assert_eq!(
        ensure_app_scope(true, None, OUR_ID, 9),
        ScopeStep::Migrate("app-dev.tiro.app-9.scope".into())
    );
}

#[test]
fn a_migration_is_awaited_for_a_while() {
    let scope = "app-dev.tiro.app-9.scope";
    assert_eq!(wait_for_migration(0, Some(scope), scope), Migration::Arrived);
    assert_eq!(
        wait_for_migration(3, Some("session-2.scope"), scope),
        Migration::Wait
    );
    assert_eq!(wait_for_migration(MIGRATION_POLLS, None, scope), Migration::GaveUp);
}

#[test]
fn own_scopes_read_back_and_never_migrate() {
    for (id, pid) in [("dev.tiro.app", 1), ("org.example.Some", 4_294_967_295)] {
        let scope = scope_name(id, pid);
        assert_eq!(parse_app_id_from_unit(&scope).as_deref(), Some(id));
        assert!(!should_migrate(Some(&scope), id));
    }
}

#[test]
fn bytes_that_are_no_text_are_replaced() {
    assert_eq!(cunescape_relax("a\\xffb"), "a\u{fffd}b");
    assert_eq!(cunescape_relax("caf\\xc3\\xa9"), "café");
    assert_eq!(cunescape_relax("Grüße"), "Grüße");
}

#[test]
fn the_identifier_is_as_short_as_it_can_be() {
    assert_eq!(lazy_id_scope("a-b-7").as_deref(), Some("a-b"));
    assert_eq!(lazy_id_scope("a.b-7").as_deref(), Some("a.b"));
    assert_eq!(lazy_id_scope("nodash"), None);
    assert_eq!(lazy_id_service("a@7").as_deref(), Some("a"));
    assert_eq!(lazy_id_service("a-autostart").as_deref(), Some("a"));
    assert_eq!(lazy_id_service(""), None);
    assert_eq!(
        with_optional_launcher(UnitForm::Scope, "gnome-org.foo-1").as_deref(),
        Some("org.foo")
    );
    assert_eq!(
        with_optional_launcher(UnitForm::Scope, "org-1").as_deref(),
        Some("org"),
        "what looks like a launcher is the identifier where nothing else is"
    );
}

#[test]
fn data_directories_follow_the_environment() {
    assert_eq!(
        xdg_data_dirs(Some("/data"), Some("/home/u"), Some("/a::/b")),
        ["/data", "/a", "/b"]
    );
    assert_eq!(
        xdg_data_dirs(Some(""), Some("/home/u"), Some("")),
        ["/home/u/.local/share", "/usr/local/share", "/usr/share"]
    );
    assert_eq!(
        xdg_data_dirs(None, None, None),
        ["/usr/local/share", "/usr/share"]
    );
}

#[test]
fn the_desktop_file_must_be_one_that_runs() {
    let dirs = ["/data".to_string(), "/usr/share".to_string()];
    assert_eq!(
        desktop_candidates(&dirs, OUR_ID),
        [
            "/data/applications/dev.tiro.app.desktop",
            "/usr/share/applications/dev.tiro.app.desktop"
        ]
    );
    let path = "/data/applications/dev.tiro.app.desktop".to_string();
    let bin = ["/usr/bin".to_string()];
    assert_eq!(
        desktop_file_status(OUR_ID, None, &bin, is_executable),
        Err("no dev.tiro.app.desktop in the XDG applications dirs".to_string())
    );
    assert_eq!(
        desktop_file_status(OUR_ID, Some((path.clone(), Err("gone".into()))), &bin, is_executable),
        Err(format!("{path} is unreadable: gone"))
    );
    let runs = Ok("[Desktop Entry]\nExec=sh\n".to_string());
    assert_eq!(
        desktop_file_status(OUR_ID, Some((path.clone(), runs)), &bin, is_executable),
        Ok(path.clone())
    );
    let dead = Ok("[Desktop Entry]\nExec=nope\n".to_string());
    assert_eq!(
        desktop_file_status(OUR_ID, Some((path.clone(), dead)), &bin, is_executable),
        Err(format!(
            "{path}: its Exec argv0 'nope' does not resolve to an executable, \
             so GLib rejects the file (and the portal the app id)"
        ))
    );
}
