use npm_utils::json::Json;
use npm_utils::lockfile::{
    from_lockfile, from_lockfile_observed, link_bins, link_locals, warn_of_hosts, Install,
    InstallAction, LockInstall, LockedPackage, Lockfile,
};

/// An entry with programs; only `key`, `name` and `bin` matter here.
fn locked(key: &str, bin: &[(&str, &str)]) -> LockedPackage {
    LockedPackage {
        name: key
            .rsplit("node_modules/")
            .next()
            .unwrap_or(key)
            .to_string(),
        key: key.to_string(),
        version: "1.0.0".into(),
        resolved: None,
        integrity: None,
        license: None,
        dev: false,
        optional: false,
        dev_optional: false,
        link: false,
        os: Vec::new(),
        cpu: Vec::new(),
        bin: bin
            .iter()
            .map(|(n, p)| (n.to_string(), p.to_string()))
            .collect(),
    }
}

/// A `link: true` entry with a `resolved` target.
fn locked_link(key: &str, resolved: &str) -> LockedPackage {
    LockedPackage {
        version: String::new(),
        resolved: Some(resolved.to_string()),
        link: true,
        ..locked(key, &[])
    }
}

fn local_links(install: &[npm_utils::lockfile::LocalLink]) -> Vec<(&str, &str)> {
    install
        .iter()
        .map(|l| (l.path.as_str(), l.value.as_str()))
        .collect()
}

fn names(install: &LockInstall) -> Vec<&str> {
    match &install.result {
        Ok(list) => list.iter().map(|r| r.name.as_str()).collect(),
        Err(e) => panic!("{e}"),
    }
}

/// Run an install to its end: what it came to, and a line for each thing that it asked for.
fn run(
    mut install: Install,
    fetch: impl Fn(&str) -> Result<(), String>,
) -> (LockInstall, Vec<String>) {
    let mut asked = Vec::new();
    let mut outcome = None;
    loop {
        assert_eq!(install.is_awaiting(), outcome.is_some());
        match install.next(outcome.take()) {
            InstallAction::Warn(message) => asked.push(format!("warn {message}")),
            InstallAction::Skipped(message) => asked.push(format!("skip {message}")),
            InstallAction::Tell {
                index,
                total,
                name,
                version,
            } => asked.push(format!("tell {index}/{total} {name}@{version}")),
            InstallAction::Fetch {
                name,
                url,
                integrity,
                dir,
            } => {
                let integrity = integrity.unwrap_or_default();
                let start: String = integrity.chars().take(10).collect();
                asked.push(format!("fetch {name} {url} {start} {dir}"));
                outcome = Some(fetch(&name));
            }
            InstallAction::Done(done) => return (done, asked),
        }
    }
}

fn fetched(_: &str) -> Result<(), String> {
    Ok(())
}

fn begin(lock: &Lockfile, placed: Option<&[&str]>) -> Install {
    let placed = placed.map(|paths| paths.iter().map(|p| p.to_string()).collect());
    from_lockfile(lock, "/d", "linux", "x86_64", placed)
}

fn begin_observed(lock: &Lockfile) -> Install {
    from_lockfile_observed(lock, "/d", "linux", "x86_64", None)
}

#[test]
fn link_locals_symlinks_members_relative_to_dest() {
    let pkgs = vec![
        locked_link("node_modules/@schuhkarton/assets-web", "modules/assets/web"),
        locked_link("node_modules/plain", "file:packages/plain"),
    ];
    let locals = link_locals("/d", &pkgs);
    assert_eq!(locals.fault, None);
    assert!(locals.warnings.is_empty());
    assert_eq!(
        local_links(&locals.links),
        [
            (
                "/d/node_modules/@schuhkarton/assets-web",
                "../../modules/assets/web"
            ),
            ("/d/node_modules/plain", "../packages/plain")
        ]
    );
}

#[test]
fn link_locals_skips_a_target_escaping_the_project() {
    let pkgs = vec![locked_link("node_modules/outside", "file:../../../etc")];
    let locals = link_locals("/d", &pkgs);
    assert_eq!(locals.fault, None);
    assert!(locals.links.is_empty(), "an escaping link target creates nothing");
    assert_eq!(
        locals.warnings,
        ["workspace link `node_modules/outside` targets `../../../etc` outside the project; skipping"]
    );
}

#[test]
fn a_link_without_a_target_is_passed_over() {
    let mut link = locked_link("node_modules/a", "x");
    link.resolved = None;
    let locals = link_locals("/d", &vec![link]);
    assert!(locals.links.is_empty());
    assert_eq!(
        locals.warnings,
        ["link `node_modules/a` has no target; skipping"]
    );
}

#[test]
fn a_link_outside_the_project_ends_the_making() {
    let pkgs = vec![
        locked_link("node_modules/../../a", "x"),
        locked_link("node_modules/b", "y"),
    ];
    let locals = link_locals("/d", &pkgs);
    assert!(locals.fault.is_some());
    assert!(locals.links.is_empty());
}

#[test]
fn from_lockfile_materializes_a_workspace_link_offline() {
    let lock = Lockfile::parse(
        r#"{ "name": "root", "version": "1.0.0", "lockfileVersion": 3, "packages": {
            "": { "name": "root", "version": "1.0.0" },
            "packages/member": { "name": "@scope/member", "version": "1.0.0" },
            "node_modules/@scope/member": { "resolved": "packages/member", "link": true }
        } }"#,
    )
    .unwrap();
    let (install, asked) = run(begin(&lock, None), fetched);
    assert!(asked.is_empty());
    assert!(
        names(&install).is_empty(),
        "a link carries no tarball, so it is not in the installed set"
    );
    assert_eq!(
        local_links(&install.locals),
        [("/d/node_modules/@scope/member", "../../packages/member")],
        "the workspace member is symlinked relative to dest"
    );
}

#[test]
fn from_lockfile_observed_emits_fetch_before_each_download() {
    let lock = Lockfile::parse(
        r#"{ "name": "demo", "version": "1.0.0", "lockfileVersion": 3, "packages": {
            "": { "name": "demo", "version": "1.0.0" },
            "node_modules/x": { "version": "1.2.3", "resolved": "https://localhost:1/x.tgz", "integrity": "sha512-AAA" }
        } }"#,
    )
    .unwrap();
    let refuse = |_: &str| -> Result<(), String> { Err("connection refused".to_string()) };
    let (install, asked) = run(begin_observed(&lock), refuse);
    assert_eq!(install.result, Err("connection refused".to_string()));
    assert_eq!(
        asked,
        [
            "warn lockfile fetches tarballs from `localhost:1`, not registry.npmjs.org",
            "tell 1/1 x@1.2.3",
            "fetch x https://localhost:1/x.tgz sha512-AAA /d/node_modules/x"
        ],
        "one event, directly before the download"
    );

    let empty = Lockfile::parse(
        r#"{ "name": "demo", "version": "1.0.0", "lockfileVersion": 3, "packages": {
            "": { "name": "demo", "version": "1.0.0" }
        } }"#,
    )
    .unwrap();
    let (install, asked) = run(begin_observed(&empty), fetched);
    assert!(asked.is_empty());
    assert!(names(&install).is_empty());
}

#[test]
fn link_bins_creates_relative_exec_symlinks_first_wins() {
    let pkgs = vec![
        locked("node_modules/@playwright/test", &[("playwright", "cli.js")]),
        locked("node_modules/playwright", &[("playwright", "cli.js")]),
        locked("node_modules/typescript", &[("tsc", "bin/tsc")]),
    ];
    let bins = link_bins("/nm", &pkgs);
    assert_eq!(bins.fault, None);
    let links: Vec<(&str, String, &str)> = bins
        .links
        .iter()
        .map(|l| (l.name.as_str(), l.value(), l.target.as_str()))
        .collect();
    assert_eq!(
        links,
        [
            (
                "playwright",
                "../@playwright/test/cli.js".to_string(),
                "/nm/@playwright/test/cli.js"
            ),
            (
                "tsc",
                "../typescript/bin/tsc".to_string(),
                "/nm/typescript/bin/tsc"
            )
        ]
    );
}

#[test]
fn link_bins_rejects_a_traversing_bin_target() {
    let pkgs = vec![locked(
        "node_modules/evil",
        &[("evil", "../../../../../../tmp/pwned")],
    )];
    let bins = link_bins("/nm", &pkgs);
    assert!(bins.fault.is_some(), "a traversing bin target is rejected");
    assert!(
        bins.links.is_empty(),
        "no symlink is created for a traversing target"
    );
}

#[test]
fn link_bins_skips_bin_names_that_are_paths() {
    let pkgs = vec![locked(
        "node_modules/p",
        &[("../escape", "cli.js"), ("ok", "cli.js")],
    )];
    let bins = link_bins("/nm", &pkgs);
    assert_eq!(bins.fault, None);
    let made: Vec<&str> = bins.links.iter().map(|l| l.name.as_str()).collect();
    assert_eq!(made, ["ok"], "the valid bin is linked, the path-like one not");
}

#[test]
fn odd_program_names_and_places_are_passed_over() {
    let pkgs = vec![
        locked("node_modules/p", &[("", "a"), (".", "a"), ("..", "a")]),
        locked("packages/q", &[("q", "a")]),
        locked("node_modules/r", &[("r", "././cli.js")]),
    ];
    let bins = link_bins("/nm", &pkgs);
    assert_eq!(bins.fault, None);
    let made: Vec<&str> = bins.links.iter().map(|l| l.rel.as_str()).collect();
    assert_eq!(made, ["r/cli.js"]);
}

const TREE: &str = r#"{
  "name": "fixture",
  "lockfileVersion": 3,
  "packages": {
    "": { "name": "fixture", "dependencies": { "ms": "2.1.3" } },
    "node_modules/ms": {
      "version": "2.1.3",
      "resolved": "https://registry.npmjs.org/ms/-/ms-2.1.3.tgz",
      "integrity": "sha512-6FlzubTLZG3J2a/NVCAleEhjzq5oxgHyaCU9yYXvcLsvoVaHJq/s5xXI6/XXP6tz7R9xAOtHnSO/tXtF3WRTlA==",
      "bin": "cli.js"
    },
    "node_modules/darwin-only": {
      "version": "1.0.0",
      "resolved": "https://example.invalid/never-fetched.tgz",
      "integrity": "sha512-AAAA",
      "optional": true,
      "os": ["darwin"]
    },
    "node_modules/flaky-optional": {
      "version": "1.0.0",
      "resolved": "https://example.invalid/never-resolves.tgz",
      "integrity": "sha512-AAAA",
      "optional": true,
      "bin": { "flaky": "./run.js" }
    }
  }
}"#;

fn only_ms(name: &str) -> Result<(), String> {
    if name == "ms" {
        Ok(())
    } else {
        Err("no such host".to_string())
    }
}

#[test]
fn an_install_skips_other_platforms_and_tolerates_a_failed_optional() {
    let lock = Lockfile::parse(TREE).unwrap();
    let (install, asked) = run(begin_observed(&lock), only_ms);
    assert_eq!(names(&install), ["ms"]);
    assert_eq!(
        asked,
        [
            "warn lockfile fetches tarballs from `example.invalid`, not registry.npmjs.org",
            "tell 1/2 flaky-optional@1.0.0",
            "fetch flaky-optional https://example.invalid/never-resolves.tgz sha512-AAA /d/node_modules/flaky-optional",
            "skip optional dependency `flaky-optional` failed to install (no such host); skipping",
            "tell 2/2 ms@2.1.3",
            "fetch ms https://registry.npmjs.org/ms/-/ms-2.1.3.tgz sha512-6Fl /d/node_modules/ms"
        ],
        "in the order of the install paths, and nothing for another platform"
    );
    assert!(install.warnings.is_empty());
    assert_eq!(install.landed, ["node_modules/ms"]);
    let bins: Vec<(&str, String)> = install
        .bins
        .iter()
        .map(|l| (l.name.as_str(), l.value()))
        .collect();
    assert_eq!(bins, [("ms", "../ms/cli.js".to_string())], "only what landed");
}

#[test]
fn an_unobserved_install_tells_of_nothing() {
    let lock = Lockfile::parse(TREE).unwrap();
    let (install, asked) = run(begin(&lock, None), only_ms);
    assert_eq!(names(&install), ["ms"]);
    assert!(asked.iter().all(|line| !line.starts_with("tell ")));
    assert_eq!(asked.len(), 4);
}

#[test]
fn an_unchanged_tree_is_reported_as_it_was_and_fetches_nothing() {
    let lock = Lockfile::parse(TREE).unwrap();
    let (first, _) = run(begin(&lock, None), only_ms);
    let paths: Vec<&str> = first.landed.iter().map(String::as_str).collect();
    let (again, asked) = run(begin(&lock, Some(&paths)), fetched);
    assert!(asked.is_empty());
    assert_eq!(names(&again), ["ms"], "what was passed over is still left out");
    assert_eq!(again.result, first.result);
    assert_eq!(again.landed, first.landed);
    assert!(again.warnings.is_empty() && again.bins.is_empty());

    let (whole, _) = run(
        begin(&lock, Some(&["node_modules/ms", "node_modules/flaky-optional"])),
        fetched,
    );
    assert_eq!(names(&whole), ["flaky-optional", "ms"]);
    let list = whole.result.unwrap();
    assert_eq!(list[1].version.as_str(), "2.1.3");
    assert_eq!(
        list[1].tarball_url,
        "https://registry.npmjs.org/ms/-/ms-2.1.3.tgz"
    );
    assert_eq!(list[1].license, None);
}

#[test]
fn a_required_failure_ends_the_install() {
    let lock = Lockfile::parse(TREE).unwrap();
    let fetch = |name: &str| -> Result<(), String> { Err(format!("{name}: offline")) };
    let (install, _) = run(begin(&lock, None), fetch);
    assert_eq!(install.result, Err("ms: offline".to_string()));
    assert!(install.bins.is_empty() && install.locals.is_empty() && install.landed.is_empty());
}

#[test]
fn an_entry_outside_the_project_is_refused() {
    let lock = Lockfile::parse(
        r#"{ "packages": { "node_modules/../../x": { "version": "1.0.0", "resolved": "https://registry.npmjs.org/x.tgz" } } }"#,
    )
    .unwrap();
    let (install, asked) = run(begin_observed(&lock), fetched);
    assert!(install.result.is_err());
    assert_eq!(asked, ["tell 1/1 ../../x@1.0.0"], "nothing is fetched");
}

#[test]
fn a_version_that_is_none_is_named() {
    let lock = Lockfile::parse(
        r#"{ "packages": { "node_modules/x": { "version": "one", "resolved": "https://registry.npmjs.org/x.tgz" } } }"#,
    )
    .unwrap();
    let (install, _) = run(begin(&lock, None), fetched);
    let err = install.result.unwrap_err();
    assert!(
        err.starts_with("package `x`: invalid version \"one\": "),
        "{err}"
    );
}

#[test]
fn entries_are_read_by_install_path() {
    let doc = Json::Object(vec![(
        "packages".to_string(),
        Json::Object(
            [
                ("node_modules/b", "1.0.0"),
                ("", "0.1.0"),
                ("node_modules/a", "1.0.0"),
                ("node_modules/b", "2.0.0"),
                ("node_modules/@s/c", "1.0.0"),
            ]
            .iter()
            .map(|(key, version)| {
                let version = Json::Text(version.to_string());
                let meta = Json::Object(vec![("version".to_string(), version)]);
                (key.to_string(), meta)
            })
            .collect(),
        ),
    )]);
    let lock = Lockfile::read(&doc).unwrap();
    let keys: Vec<&str> = lock.packages.iter().map(|p| p.key.as_str()).collect();
    assert_eq!(keys, ["node_modules/@s/c", "node_modules/a", "node_modules/b"]);
    assert_eq!(lock.packages[2].version, "1.0.0", "one entry for each key");
}

#[test]
fn hosts_are_warned_of_once_each() {
    let at = |key: &str, url: &str| LockedPackage {
        resolved: Some(url.to_string()),
        ..locked(key, &[])
    };
    let pkgs = vec![
        at("node_modules/a", "https://b.example/a.tgz"),
        at("node_modules/b", "https://registry.npmjs.org/b.tgz"),
        at("node_modules/c", "https://a.example/c.tgz"),
        at("node_modules/d", "https://b.example/d.tgz"),
    ];
    assert_eq!(
        warn_of_hosts(&pkgs),
        [
            "lockfile fetches tarballs from `b.example`, not registry.npmjs.org",
            "lockfile fetches tarballs from `a.example`, not registry.npmjs.org"
        ]
    );
}

#[test]
fn lockfiles_without_packages_are_refused() {
    assert_eq!(
        Lockfile::parse(r#"{ "lockfileVersion": 1, "dependencies": {} }"#)
            .err()
            .unwrap(),
        "lockfile has no `packages` (lockfileVersion 2 or 3 is needed)"
    );
    assert!(Lockfile::parse("not json").is_err());
}

#[test]
fn platforms_go_by_their_npm_names() {
    let lock = Lockfile::parse(
        r#"{ "packages": {
            "node_modules/mac": { "version": "1.0.0", "resolved": "https://r/m.tgz", "os": ["darwin"] },
            "node_modules/arm": { "version": "1.0.0", "resolved": "https://r/a.tgz", "cpu": ["arm64"] },
            "node_modules/not-win": { "version": "1.0.0", "resolved": "https://r/w.tgz", "os": ["!win32"] },
            "node_modules/git": { "version": "1.0.0", "resolved": "git+ssh://git@host/x.git" }
        } }"#,
    )
    .unwrap();
    let on = |os: &str, arch: &str| -> Vec<String> {
        lock.installable(os, arch)
            .iter()
            .map(|p| p.name.clone())
            .collect()
    };
    assert_eq!(on("macos", "x86_64"), ["mac", "not-win"]);
    assert_eq!(on("linux", "aarch64"), ["arm", "not-win"]);
    assert!(on("windows", "x86_64").is_empty());
}
