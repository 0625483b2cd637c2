use npm_utils::common::{
    add_specs, added_line, default_name, host_of, install_mode, render_in_flight,
    report_installed, report_removed, report_upgraded, resolve_title, tick_resolve, InFlight,
    InstallMode, ResolveEvent, SyncAction, SyncTasks, Tick,
};
use npm_utils::dependency::{split_name_range, Range};
use npm_utils::registry::Registry;
use npm_utils::source::PathKind;

fn flying(names: &[&str]) -> InFlight {
    let mut set = InFlight::new();
    for name in names {
        set = set.with(name);
    }
    set
}

#[test]
fn render_in_flight_caps_at_three_names() {
    assert_eq!(render_in_flight(&flying(&[])), "");
    assert_eq!(render_in_flight(&flying(&["b", "a"])), "fetching a, b");
    assert_eq!(
        render_in_flight(&flying(&["e", "d", "c", "b", "a"])),
        "fetching a, b, c (+2 more)"
    );
}

#[test]
fn split_name_range_handles_scopes_and_bare_names() {
    let split = |text: &str| split_name_range(text);
    let pair = |name: &str, range: Option<&str>| (name.to_string(), range.map(str::to_string));
    assert_eq!(split("lit"), pair("lit", None));
    assert_eq!(split("lit@^3"), pair("lit", Some("^3")));
    assert_eq!(split("@lit/context@^1"), pair("@lit/context", Some("^1")));
    assert_eq!(split("@scope/pkg"), pair("@scope/pkg", None));
}

#[test]
fn names_fly_once_and_land() {
    let set = flying(&["b", "a", "b"]).without("c");
    assert_eq!(render_in_flight(&set), "fetching a, b");
    let set = set.without("a").without("b");
    assert_eq!(render_in_flight(&set), "");
}

#[test]
fn walk_events_tick_the_task() {
    let begin = ResolveEvent::FetchBegin { name: "a".into() };
    let (set, tick) = tick_resolve(InFlight::new(), &begin);
    assert_eq!(tick, Tick::Detail("fetching a".into()));
    let resolved = ResolveEvent::Resolved {
        count: 1,
        name: "a".into(),
        version: "1.0.0".into(),
    };
    let (set, tick) = tick_resolve(set, &resolved);
    assert_eq!(tick, Tick::Count("a@1.0.0".into()));
    let done = ResolveEvent::FetchDone { name: "a".into() };
    let (_, tick) = tick_resolve(set, &done);
    assert_eq!(tick, Tick::Detail("".into()));
}

#[test]
fn the_first_install_ends_resolving() {
    let tasks = SyncTasks::new();
    let resolved = ResolveEvent::Resolved {
        count: 1,
        name: "a".into(),
        version: "1.0.0".into(),
    };
    let (tasks, tick) = tasks.on_resolve(&resolved);
    assert_eq!(tick, Some(Tick::Count("a@1.0.0".into())));
    let (tasks, actions) = tasks.on_install(2, "a", "1.0.0");
    assert_eq!(
        actions,
        [
            SyncAction::FinishResolve("1 packages".into()),
            SyncAction::BeginInstall(2),
            SyncAction::CountInstall("a@1.0.0".into())
        ]
    );
    let (tasks, actions) = tasks.on_install(2, "b", "2.0.0");
    assert_eq!(actions, [SyncAction::CountInstall("b@2.0.0".into())]);
    let (tasks, tick) = tasks.on_resolve(&resolved);
    assert_eq!(tick, None);
    assert_eq!(
        tasks.done(2),
        [SyncAction::FinishInstall("2 packages".into())]
    );
}

#[test]
fn nothing_installed_still_ends_resolving() {
    assert_eq!(
        SyncTasks::new().done(7),
        [SyncAction::FinishResolve("0 packages".into())]
    );
}

#[test]
fn hosts_names_and_titles() {
    assert_eq!(host_of("https://r.example/npm/"), "r.example");
    assert_eq!(host_of("http://localhost:1"), "localhost:1");
    assert_eq!(host_of("r.example/x"), "r.example");
    assert_eq!(default_name(Some("/home/me/demo".into())), "demo");
    assert_eq!(default_name(Some("/".into())), "app");
    assert_eq!(default_name(None), "app");
    assert_eq!(
        resolve_title("localhost:1"),
        "resolving dependency tree from localhost:1"
    );
}

#[test]
fn reports_are_lines() {
    let fetch = |_: &str, _: Option<&str>| -> Result<Vec<u8>, String> {
        Ok(br#"{"versions":{"1.0.0":{}}}"#.to_vec())
    };
    let package = Registry::npm().resolve("a", &Range::any(), &fetch).unwrap();
    assert_eq!(
        report_installed(&vec![package]),
        ["installed 1 package(s)", "  a@1.0.0"]
    );
    assert_eq!(
        report_installed(&Vec::new()),
        ["installed 0 package(s)"]
    );
    assert_eq!(
        report_removed(
            &vec!["a".to_string(), "b".to_string()],
            &vec!["b".to_string()]
        ),
        ["- b", "a: not a dependency (skipped)"]
    );
    assert_eq!(report_upgraded("a", "^1", "^2"), "a: ^1 → ^2");
    assert_eq!(added_line("a", "^1"), "+ a@^1");
}

#[test]
fn flags_select_the_install_mode() {
    assert_eq!(install_mode(false, false), InstallMode::Sync);
    assert_eq!(install_mode(true, false), InstallMode::LockfileOnly);
    assert_eq!(install_mode(false, true), InstallMode::WithoutLockfile);
    assert_eq!(install_mode(true, true), InstallMode::WithoutLockfile);
}

#[test]
fn added_packages_get_the_range_of_their_latest_release() {
    let probe = |_: &str| -> Result<PathKind, String> { Ok(PathKind::Dir) };
    let fetch = |_: &str, _: Option<&str>| -> Result<Vec<u8>, String> {
        Ok(br#"{"versions":{"1.2.0":{},"1.10.0":{},"2.0.0-rc.1":{}}}"#.to_vec())
    };
    let tokens = vec![
        "ms".to_string(),
        "lit@^3".to_string(),
        "./web".to_string(),
        "x".to_string(),
    ];
    let added = add_specs(&tokens, "add", None, &Registry::npm(), &probe, &fetch);
    assert_eq!(
        added.list,
        [
            ("ms".to_string(), "^1.10.0".to_string()),
            ("lit".to_string(), "^3".to_string())
        ]
    );
    let fault = added.fault.unwrap();
    assert!(fault.contains("`add`"), "{fault}");
    let offline = |_: &str, _: Option<&str>| -> Result<Vec<u8>, String> { Err("offline".into()) };
    let added = add_specs(
        &vec!["ms".to_string()],
        "add",
        None,
        &Registry::npm(),
        &probe,
        &offline,
    );
    assert_eq!(added.fault.as_deref(), Some("offline"));
}
