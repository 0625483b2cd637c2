use npm_utils::audit::{
    advisories_summary, build_sources, components_from_manifest, components_of_lockfile,
    dedup_advisories, exceeds,
    exit_code, findings, package_manifest, parse_manifest, plan_load, registry_url, source_title,
    AuditLevel, Load, SourceKind,
};
use npm_utils::json::Json;
use npm_utils::lockfile::Lockfile;
use npm_utils::manifest::{audit_roots, scaffold, upsert_dependency};
use npm_utils::osv::{Advisory, Component, Severity};
use npm_utils::registry::Registry;
use npm_utils::source::{PathKind, Source};

fn json(text: &str) -> Json {
    Json::parse(text.as_bytes()).unwrap()
}

fn plan(files: &[&str], source: Source) -> Result<Load, String> {
    let probe = |path: &str| -> Result<PathKind, String> {
        if files.contains(&path) {
            Ok(PathKind::File)
        } else {
            Ok(PathKind::Missing)
        }
    };
    let canonical = |path: &str| -> Result<String, String> { Ok(path.to_string()) };
    plan_load(source, &probe, &canonical)
}

#[test]
fn levels_are_severities() {
    assert_eq!(AuditLevel::Low.severity(), Severity::Low);
    assert_eq!(AuditLevel::Moderate.severity(), Severity::Moderate);
    assert_eq!(AuditLevel::High.severity(), Severity::High);
    assert_eq!(AuditLevel::Critical.severity(), Severity::Critical);
}

fn advisory(package: &str, range: &str, severity: Option<Severity>) -> Advisory {
    Advisory {
        source: "fake",
        id: "GHSA-zzzz".into(),
        aliases: vec!["GHSA-zzzz".into()],
        package: package.into(),
        vulnerable_range: range.into(),
        severity,
        title: "synthetic".into(),
        url: None,
        cwe: vec![],
        cvss_vector: None,
        matched_version: String::new(),
    }
}

fn component(name: &str, version: &str) -> Component {
    Component {
        name: name.into(),
        version: version.into(),
        purl: format!("pkg:npm/{name}@{version}"),
        license: None,
        resolved: None,
        integrity: None,
    }
}

#[test]
fn findings_trip_their_level_and_unknown_ones_trip_all() {
    let rated = |severity| advisory("a", "*", severity);
    let high = vec![rated(Some(Severity::Low)), rated(Some(Severity::High))];
    assert!(exceeds(&high, Severity::High));
    assert!(!exceeds(&high, Severity::Critical));
    assert!(!exceeds(&Vec::new(), Severity::Low));
    assert!(exceeds(&vec![rated(None)], Severity::Low));
    assert!(exceeds(&vec![rated(None)], Severity::Critical));
}

#[test]
fn findings_are_the_advisories_on_installed_versions() {
    let told = vec![
        advisory("lodash", "<4.17.21", Some(Severity::High)),
        advisory("lodash", "<5.0.0", Some(Severity::Moderate)),
        advisory("other", "*", None),
    ];
    let installed = vec![
        component("left-pad", "1.3.0"),
        component("lodash", "4.17.20"),
        component("lodash", "4.17.21"),
        component("lodash", "5.0.0"),
    ];
    let found = findings(&installed, &told);
    let brief: Vec<(&str, &str)> = found
        .iter()
        .map(|f| (f.matched_version.as_str(), f.vulnerable_range.as_str()))
        .collect();
    assert_eq!(
        brief,
        [
            ("4.17.20", "<4.17.21"),
            ("4.17.20", "<5.0.0"),
            ("4.17.21", "<5.0.0")
        ]
    );
    assert_eq!(found[0].title, "synthetic");
    assert!(findings(&Vec::new(), &told).is_empty());
}

#[test]
fn findings_are_reported_once_across_sources() {
    let report = |id: &str, aliases: &[&str], package: &str, version: &str| Advisory {
        id: id.into(),
        aliases: aliases.iter().map(|a| a.to_string()).collect(),
        matched_version: version.into(),
        ..advisory(package, "*", None)
    };
    let list = vec![
        report("GHSA-a", &["CVE-1"], "lodash", "1.0.0"),
        report("OSV-a", &["CVE-1"], "lodash", "1.0.0"),
        report("GHSA-a", &[], "lodash", "2.0.0"),
        report("GHSA-a", &[], "other", "1.0.0"),
        report("GHSA-b", &["GHSA-c"], "lodash", "1.0.0"),
        report("GHSA-c", &[], "lodash", "1.0.0"),
    ];
    let kept: Vec<(String, String, String)> = dedup_advisories(list)
        .into_iter()
        .map(|a| (a.id, a.package, a.matched_version))
        .collect();
    let triple = |a: &str, b: &str, c: &str| (a.to_string(), b.to_string(), c.to_string());
    assert_eq!(
        kept,
        [
            triple("GHSA-a", "lodash", "1.0.0"),
            triple("GHSA-a", "lodash", "2.0.0"),
            triple("GHSA-a", "other", "1.0.0"),
            triple("GHSA-b", "lodash", "1.0.0")
        ]
    );
    assert!(dedup_advisories(Vec::new()).is_empty());
}

#[test]
fn a_confirmed_hit_of_unknown_severity_stays_actionable() {
    let told = vec![advisory("demo", "=1.2.3", None)];
    let found = findings(&vec![component("demo", "1.2.3")], &told);
    assert_eq!(found.len(), 1);
    assert_eq!(found[0].matched_version, "1.2.3");
    assert!(exceeds(&found, Severity::Low) && exceeds(&found, Severity::Critical));
}

#[test]
fn all_sources_failed_is_incomplete_and_exits_two() {
    assert_eq!(exit_code(1, 1, false, 0, false), 2, "all sources failed → exit 2");
    assert_eq!(exit_code(1, 1, false, 0, true), 0, "--allow-incomplete → exit 0");
    assert_eq!(exit_code(2, 1, false, 0, false), 0, "one failed source degrades");
}

#[test]
fn exit_codes_put_findings_before_omissions() {
    assert_eq!(exit_code(2, 0, true, 3, false), 1);
    assert_eq!(exit_code(2, 0, false, 3, false), 2);
    assert_eq!(exit_code(2, 0, false, 3, true), 0);
    assert_eq!(exit_code(2, 2, true, 0, false), 2);
    assert_eq!(exit_code(2, 2, true, 0, true), 1);
    assert_eq!(exit_code(0, 0, false, 0, false), 0);
}

#[test]
fn sources_default_to_both() {
    assert_eq!(build_sources(None), [SourceKind::Npm, SourceKind::Osv]);
    assert_eq!(
        build_sources(Some(Vec::new())),
        [SourceKind::Npm, SourceKind::Osv]
    );
    assert_eq!(build_sources(Some(vec![SourceKind::Osv])), [SourceKind::Osv]);
    assert_eq!(registry_url(None), "https://registry.npmjs.org");
    assert_eq!(registry_url(Some("https://r".into())), "https://r");
}

#[test]
fn source_tasks_have_titles_and_summaries() {
    assert_eq!(source_title("npm"), "querying npm advisories");
    assert_eq!(advisories_summary(1), "1 advisory");
    assert_eq!(advisories_summary(0), "0 advisories");
    assert_eq!(advisories_summary(169), "169 advisories");
}

#[test]
fn directory_prefers_the_lockfile_over_the_manifest() {
    assert_eq!(
        plan(
            &["/d/package-lock.json", "/d/package.json"],
            Source::Dir("/d".into())
        )
        .unwrap(),
        Load::Lockfile("/d/package-lock.json".into())
    );
}

#[test]
fn directory_falls_back_to_the_manifest() {
    assert_eq!(
        plan(&["/d/package.json"], Source::Dir("/d".into())).unwrap(),
        Load::Manifest("/d/package.json".into())
    );
}

#[test]
fn missing_lockfile_and_manifest_errors() {
    let err = plan(&[], Source::Dir("/d".into())).unwrap_err();
    assert!(err.contains("no package-lock.json or package.json"), "{err}");
    assert_eq!(err, "no package-lock.json or package.json in /d");
}

#[test]
fn explicit_lockfile_path_is_used_as_given() {
    assert_eq!(
        plan(&[], Source::File("x/package-lock.json".into())).unwrap(),
        Load::File("x/package-lock.json".into())
    );
}

#[test]
fn packages_without_a_range_are_taken_in_any() {
    assert_eq!(
        plan(
            &[],
            Source::Spec {
                name: "lit".into(),
                range: None
            }
        )
        .unwrap(),
        Load::Package {
            name: "lit".into(),
            range: "*".into()
        }
    );
    let doc = package_manifest("lit", "^3");
    assert_eq!(
        doc,
        json(r#"{"name":"npm-utils-audit","version":"0.0.0","dependencies":{"lit":"^3"}}"#)
            .sorted_like(&doc)
    );
}

/// Member order is not what these tests are about.
trait SortedLike {
    fn sorted_like(self, other: &Json) -> Json;
}

impl SortedLike for Json {
    fn sorted_like(self, other: &Json) -> Json {
        match (self, other) {
            (Json::Object(mut list), Json::Object(order)) => {
                list.sort_by_key(|(key, _)| order.iter().position(|(k, _)| k == key));
                Json::Object(list)
            }
            (doc, _) => doc,
        }
    }
}

#[test]
fn an_empty_lockfile_has_no_components() {
    let lock = Lockfile::parse(
        r#"{ "name": "demo", "version": "1.0.0", "lockfileVersion": 3, "packages": { "": { "name": "demo", "version": "1.0.0" } } }"#,
    )
    .unwrap();
    assert!(components_of_lockfile(&lock.packages).is_empty());
}

#[test]
fn lockfile_components_go_by_their_real_names() {
    let lock = Lockfile::parse(
        r#"{ "lockfileVersion": 3, "packages": {
            "": {},
            "packages/member": { "version": "1.0.0" },
            "packages/member/node_modules/deep": { "version": "2.0.0" },
            "node_modules/aliased": { "name": "real", "version": "3.0.0", "integrity": "sha512-x" },
            "node_modules/@s/p": { "version": "4.0.0", "dev": true },
            "node_modules/member": { "resolved": "packages/member", "link": true }
        } }"#,
    )
    .unwrap();
    let components = components_of_lockfile(&lock.packages);
    let names: Vec<&str> = components.iter().map(|c| c.name.as_str()).collect();
    assert_eq!(names, ["@s/p", "real", "deep"]);
    assert_eq!(components[0].purl, "pkg:npm/%40s/p@4.0.0");
    assert_eq!(components[1].integrity.as_deref(), Some("sha512-x"));
}

#[test]
fn manifest_roots_and_omissions() {
    let doc = json(
        r#"{ "name": "demo",
            "dependencies": { "a": "^1", "g": "user/repo" },
            "optionalDependencies": { "o": "^2" },
            "devDependencies": { "never": "^1" },
            "workspaces": ["packages/*"] }"#,
    );
    let (roots, omissions) = audit_roots(&doc).unwrap();
    let names: Vec<(&str, bool)> = roots
        .iter()
        .map(|e| (e.name.as_str(), e.optional))
        .collect();
    assert_eq!(names, [("a", false), ("o", true)]);
    let texts: Vec<String> = omissions.iter().map(|o| o.to_string()).collect();
    assert_eq!(
        texts,
        [
            "g (user/repo: git dependency)",
            "workspaces (workspace packages are not traversed)"
        ]
    );
    let err = audit_roots(&json(r#"{ "dependencies": { "bad": "%% nope %%" } }"#)).unwrap_err();
    assert!(err.contains("unsupported version"), "{err}");
}

#[test]
fn explicit_manifest_path_audits_in_memory_without_writing_a_lock() {
    let doc = parse_manifest(
        "/d/package.json",
        r#"{ "name": "demo", "version": "1.0.0", "dependencies": {} }"#,
    )
    .unwrap();
    let (components, omissions) =
        components_from_manifest(&Registry::npm(), &doc, Vec::new()).unwrap();
    assert!(components.is_empty() && omissions.is_empty());
    let err = parse_manifest("/d/package.json", "{").unwrap_err();
    assert!(err.starts_with("parsing /d/package.json: "), "{err}");
}

#[test]
fn manifests_are_covered_by_components_and_omissions() {
    let doc = json(r#"{ "dependencies": { "a": "^1", "g": "user/repo" } }"#);
    let a = json(
        r#"{ "versions": { "1.0.0": { "license": "MIT", "dist": { "integrity": "sha512-a" },
            "dependencies": { "p": "file:../p" } } } }"#,
    );
    let documents = vec![("a".to_string(), Ok(a))];
    let (components, omissions) =
        components_from_manifest(&Registry::npm(), &doc, documents).unwrap();
    assert_eq!(
        components,
        [Component {
            name: "a".into(),
            version: "1.0.0".into(),
            purl: "pkg:npm/a@1.0.0".into(),
            license: Some("MIT".into()),
            resolved: Some("https://registry.npmjs.org/a/-/a-1.0.0.tgz".into()),
            integrity: Some("sha512-a".into()),
        }]
    );
    let names: Vec<&str> = omissions.iter().map(|o| o.name.as_str()).collect();
    assert_eq!(names, ["g", "p"], "the manifest's own omissions come first");
}

#[test]
fn recorded_dependencies_are_read_back() {
    let doc = scaffold("demo", "1.0.0");
    assert_eq!(doc.text_at("name").as_deref(), Some("demo"));
    let doc = upsert_dependency(doc, "a", "^1");
    let doc = upsert_dependency(doc, "b", "^2");
    let doc = upsert_dependency(doc, "a", "^3");
    let deps = doc.get("dependencies").unwrap();
    assert_eq!(deps.text_at("a").as_deref(), Some("^3"));
    assert_eq!(deps.text_at("b").as_deref(), Some("^2"));
    assert_eq!(deps.as_object().unwrap().len(), 2);
    assert_eq!(doc.text_at("version").as_deref(), Some("1.0.0"));
    let odd = upsert_dependency(json(r#"{ "dependencies": [] }"#), "a", "^1");
    assert_eq!(
        odd.get("dependencies").unwrap().text_at("a").as_deref(),
        Some("^1")
    );
}
