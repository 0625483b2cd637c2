use npm_utils::source::{
    classify_file, contained_file, expand_home, has_path_marker, is_windows_path, BareToken,
    FileKind, PathKind, Source,
};
use std::collections::HashMap;

/// A probe that never touches the filesystem: answers `kind` for every path.
fn always(kind: PathKind) -> impl Fn(&str) -> Result<PathKind, String> {
    move |_: &str| Ok(kind)
}

fn spec(name: &str, range: Option<&str>) -> Source {
    Source::Spec {
        name: name.into(),
        range: range.map(str::to_string),
    }
}

#[test]
fn equals_splits_at_the_first_equals() {
    let parse = |t| Source::parse_with(t, BareToken::Path, None, &always(PathKind::Missing));
    assert_eq!(parse("lit=^3").unwrap(), spec("lit", Some("^3")));
    assert_eq!(parse("lit=>=1 <2").unwrap(), spec("lit", Some(">=1 <2")));
    assert_eq!(
        parse("@lit/context=^1").unwrap(),
        spec("@lit/context", Some("^1"))
    );
    assert_eq!(parse("lit=").unwrap(), spec("lit", None));
}

#[test]
fn path_markers_force_a_path_even_when_it_looks_like_a_spec() {
    let src =
        Source::parse_with("./lit=^3", BareToken::Path, None, &always(PathKind::File)).unwrap();
    assert_eq!(src, Source::File("./lit=^3".to_string()));
    let src =
        Source::parse_with("../web", BareToken::Spec, None, &always(PathKind::Dir)).unwrap();
    assert_eq!(src, Source::Dir("../web".to_string()));
    let err = Source::parse_with("./gone", BareToken::Path, None, &always(PathKind::Missing))
        .unwrap_err()
        .to_string();
    assert!(
        err.contains("does not exist") && !err.contains("name=range"),
        "{err}"
    );
}

#[test]
fn bare_tokens_are_paths_for_audit() {
    let parse = |t, k| Source::parse_with(t, BareToken::Path, None, &always(k));
    assert_eq!(
        parse("web", PathKind::Dir).unwrap(),
        Source::Dir("web".into())
    );
    assert_eq!(
        parse("pkg/package.json", PathKind::File).unwrap(),
        Source::File("pkg/package.json".into())
    );
    let err = parse("lit@^3", PathKind::Missing).unwrap_err().to_string();
    assert!(err.contains("name=range"), "{err}");
}

#[test]
fn bare_tokens_are_specs_for_installers_without_probing() {
    let never = |path: &str| -> Result<PathKind, String> { panic!("probed {path}") };
    let parse = |t| Source::parse_with(t, BareToken::Spec, None, &never);
    assert_eq!(parse("lit").unwrap(), spec("lit", None));
    assert_eq!(parse("lit@^3").unwrap(), spec("lit", Some("^3")));
    assert_eq!(
        parse("@lit/context@^1").unwrap(),
        spec("@lit/context", Some("^1"))
    );
    assert_eq!(parse("@scope/pkg").unwrap(), spec("@scope/pkg", None));
    assert_eq!(parse("lit@").unwrap(), spec("lit", None));
}

#[test]
fn tilde_expands_against_the_injected_home() {
    let home = || Some("/home/tester".to_string());
    let src =
        Source::parse_with("~/proj", BareToken::Path, home(), &always(PathKind::Dir)).unwrap();
    assert_eq!(src, Source::Dir("/home/tester/proj".into()));
    let src = Source::parse_with("~", BareToken::Path, home(), &always(PathKind::Dir)).unwrap();
    assert_eq!(src, Source::Dir("/home/tester".into()));
    let src = Source::parse_with("~/lit=^3", BareToken::Path, home(), &always(PathKind::File))
        .unwrap();
    assert_eq!(src, Source::File("/home/tester/lit=^3".into()));
    let src = Source::parse_with("~other/x", BareToken::Path, home(), &always(PathKind::File))
        .unwrap();
    assert_eq!(src, Source::File("~other/x".into()));
    let err = Source::parse_with("~/proj", BareToken::Path, None, &always(PathKind::Dir))
        .unwrap_err()
        .to_string();
    assert!(err.contains("no home directory"), "{err}");
}

#[test]
fn windows_prefixes_are_path_markers_on_every_platform() {
    for token in [r"C:\proj\package.json", "c:/proj", r"\\server\share"] {
        assert!(has_path_marker(token), "{token}");
    }
    for token in ["C:", "X:name", "~user/x", "lit"] {
        assert!(!has_path_marker(token), "{token}");
    }
    let src =
        Source::parse_with(r"C:\web", BareToken::Spec, None, &always(PathKind::Dir)).unwrap();
    assert_eq!(src, Source::Dir(r"C:\web".to_string()));
}

#[test]
fn probe_errors_propagate_instead_of_reading_as_missing() {
    let denied = |p: &str| -> Result<PathKind, String> { Err(format!("stat {p}: denied")) };
    let err = Source::parse_with("./locked", BareToken::Path, None, &denied)
        .unwrap_err()
        .to_string();
    assert!(
        err.contains("denied") && !err.contains("does not exist"),
        "{err}"
    );
}

#[test]
fn bare_spec_tokens_with_slashes_get_the_directory_hint() {
    let err = Source::parse_with("some/dir", BareToken::Spec, None, &always(PathKind::Dir))
        .unwrap_err()
        .to_string();
    assert!(err.contains("./some/dir"), "{err}");
}

#[test]
fn invalid_names_and_ranges_error() {
    let parse = |t| Source::parse_with(t, BareToken::Spec, None, &always(PathKind::Missing));
    assert!(
        parse("foo..bar=1").is_err(),
        "path-safety allowlist applies"
    );
    assert!(parse("=^3").is_err(), "empty name");
    assert!(parse("web/pkg=^1").is_err(), "unscoped name with a slash");
    let err = parse("lit=next").unwrap_err().to_string();
    assert!(err.contains("dist-tag"), "{err}");
}

#[test]
fn empty_tokens_are_refused_and_white_space_does_not_count() {
    let parse = |t| Source::parse_with(t, BareToken::Spec, None, &always(PathKind::Missing));
    assert_eq!(parse("  ").unwrap_err(), "empty source");
    assert_eq!(parse(" lit= ^3 ").unwrap(), spec("lit", Some("^3")));
    assert_eq!(
        parse("web/pkg=^1").unwrap_err(),
        "package name \"web/pkg\" contains '/' — scoped names start with '@'"
    );
    assert_eq!(
        parse("./x").unwrap_err(),
        "source path \"./x\" does not exist"
    );
}

#[test]
fn into_spec_rejects_path_sources_naming_the_verb() {
    let (name, range) = spec("lit", Some("^3")).into_spec("add").unwrap();
    assert_eq!((name.as_str(), range.as_deref()), ("lit", Some("^3")));
    let err = Source::Dir("web".into())
        .into_spec("install")
        .unwrap_err()
        .to_string();
    assert!(
        err.contains("`install`") && err.contains("follow-up"),
        "{err}"
    );
    let err = Source::File("package.json".into())
        .into_spec("add")
        .unwrap_err()
        .to_string();
    assert!(err.contains("`add`") && err.contains("audit"), "{err}");
}

/// Files by path, each with the path it resolves to.
fn disk(entries: &[(&str, &str)]) -> HashMap<String, String> {
    entries
        .iter()
        .map(|(path, target)| (path.to_string(), target.to_string()))
        .collect()
}

fn look(entries: &[(&str, &str)], dir: &str, name: &str) -> Result<Option<String>, String> {
    let files = disk(entries);
    let probe = |path: &str| -> Result<PathKind, String> {
        match files.get(path) {
            Some(_) => Ok(PathKind::File),
            None => Ok(PathKind::Missing),
        }
    };
    let canonical = |path: &str| -> Result<String, String> {
        match files.get(path) {
            Some(target) => Ok(target.clone()),
            None => Err(format!("resolving {path}: absent")),
        }
    };
    contained_file(dir, name, &probe, &canonical)
}

#[test]
fn contained_file_finds_regular_files_and_reads_absence_as_none() {
    assert_eq!(look(&[("/d", "/d")], "/d", "package-lock.json").unwrap(), None);
    assert_eq!(
        look(
            &[
                ("/d", "/d"),
                ("/d/package-lock.json", "/d/package-lock.json")
            ],
            "/d",
            "package-lock.json"
        )
        .unwrap(),
        Some("/d/package-lock.json".to_string())
    );
}

#[test]
fn contained_file_allows_symlinks_resolving_inside() {
    let entries = [("/d", "/d"), ("/d/package-lock.json", "/d/real-lock.json")];
    assert!(look(&entries, "/d", "package-lock.json").unwrap().is_some());
    assert_eq!(look(&entries, "/d", "package.json").unwrap(), None);
}

#[test]
fn contained_file_rejects_symlinks_escaping_the_directory() {
    let err = look(
        &[("/d", "/d"), ("/d/package-lock.json", "/outside/secret.json")],
        "/d",
        "package-lock.json",
    )
    .unwrap_err();
    assert!(err.contains("resolves outside"), "{err}");
    assert_eq!(
        err,
        "/d/package-lock.json resolves outside its source directory (to /outside/secret.json)"
    );
    // A sibling whose name merely begins alike is outside too.
    assert!(look(
        &[("/d", "/d"), ("/d/package.json", "/dd/package.json")],
        "/d",
        "package.json"
    )
    .is_err());
}

#[test]
fn contained_file_canonicalizes_the_directory_before_comparing() {
    assert!(look(
        &[("/link", "/real"), ("/link/package.json", "/real/package.json")],
        "/link",
        "package.json"
    )
    .unwrap()
    .is_some());
}

#[test]
fn contained_file_passes_failures_on() {
    let probe = |_: &str| -> Result<PathKind, String> { Err("stat: denied".into()) };
    let canonical = |_: &str| -> Result<String, String> { Err("resolving: denied".into()) };
    assert_eq!(
        contained_file("/d", "x", &probe, &canonical).unwrap_err(),
        "stat: denied"
    );
    assert_eq!(
        contained_file("/d", "x", &always(PathKind::File), &canonical).unwrap_err(),
        "resolving: denied"
    );
}

#[test]
fn classify_file_by_basename_then_content_sniff() {
    let lock_text = r#"{ "lockfileVersion": 3, "packages": {} }"#;
    let manifest_text = r#"{ "name": "demo", "version": "1.0.0" }"#;
    for name in ["package-lock.json", "npm-shrinkwrap.json"] {
        assert_eq!(classify_file(name, manifest_text), FileKind::Lockfile);
    }
    assert_eq!(classify_file("package.json", lock_text), FileKind::Manifest);
    assert_eq!(classify_file("mylock.json", lock_text), FileKind::Lockfile);
    assert_eq!(
        classify_file("other.json", manifest_text),
        FileKind::Manifest
    );
    assert_eq!(classify_file("broken.json", "not json"), FileKind::Manifest);
    let workspaceish = r#"{ "name": "demo", "packages": ["a", "b"] }"#;
    assert_eq!(
        classify_file("weird.json", workspaceish),
        FileKind::Manifest
    );
}

#[test]
fn renamed_lockfile_is_classified_by_content() {
    let text = r#"{ "name": "demo", "version": "1.0.0", "lockfileVersion": 3, "packages": { "": { "name": "demo", "version": "1.0.0" } } }"#;
    assert_eq!(classify_file("/tmp/x/mylock.json", text), FileKind::Lockfile);
}

#[test]
fn homes_and_drives() {
    assert_eq!(expand_home("web", None).unwrap(), "web");
    assert_eq!(expand_home("~/a", Some("/h/".into())).unwrap(), "/h/a");
    assert_eq!(expand_home("~", Some("/h".into())).unwrap(), "/h");
    assert_eq!(
        expand_home("~//x", Some("/home/tester".into())).unwrap(),
        "/home/tester/x",
        "what follows the tilde lies below the home directory"
    );
    assert!(is_windows_path("Z:/"));
    assert!(!is_windows_path("1:/"));
}
