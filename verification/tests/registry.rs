use npm_utils::dependency::Range;
use npm_utils::json::Json;
use npm_utils::registry::{
    classify_dep, dependencies_of, encode_query, license_of, parse_search, push_unique,
    select_version, EdgeAction, Omission, PackumentDetail, Registry,
};
use npm_utils::version::Version;
use std::cell::RefCell;

fn json(text: &str) -> Json {
    Json::parse(text.as_bytes()).unwrap()
}

fn range(text: &str) -> Range {
    Range::parse(text).unwrap()
}

#[test]
fn tarball_url_handles_scoped_and_unscoped() {
    let reg = Registry::npm();
    assert_eq!(
        reg.tarball_url("lit", "3.3.3"),
        "https://registry.npmjs.org/lit/-/lit-3.3.3.tgz"
    );
    assert_eq!(
        reg.tarball_url("@lit/context", "1.1.6"),
        "https://registry.npmjs.org/@lit/context/-/context-1.1.6.tgz"
    );
}

#[test]
fn registries_are_built_from_parts() {
    let reg = Registry::npm();
    assert_eq!(reg.base_url, "https://registry.npmjs.org");
    assert_eq!(reg.detail, PackumentDetail::Abbreviated);
    let mirror = Registry::with_base_url("https://r.example").with_detail(PackumentDetail::Full);
    assert_eq!(mirror.base_url, "https://r.example");
    assert_eq!(mirror.detail, PackumentDetail::Full);
    assert_eq!(
        PackumentDetail::Abbreviated.accept(),
        Some("application/vnd.npm.install-v1+json")
    );
    assert_eq!(PackumentDetail::Full.accept(), None);
}

#[test]
fn packument_urls_escape_the_scope_separator() {
    let reg = Registry::with_base_url("https://r");
    assert_eq!(reg.packument_url("lit"), "https://r/lit");
    assert_eq!(reg.packument_url("@lit/context"), "https://r/@lit%2fcontext");
    assert_eq!(reg.packument_url("@odd"), "https://r/@odd");
    assert_eq!(reg.packument_url("@a/b/c"), "https://r/@a%2fb/c");
}

#[test]
fn search_urls_clamp_the_limit() {
    let reg = Registry::with_base_url("https://r");
    assert_eq!(
        reg.search_url("react dom", 20),
        "https://r/-/v1/search?text=react%20dom&size=20"
    );
    assert_eq!(reg.search_url("a", 0), "https://r/-/v1/search?text=a&size=1");
    assert_eq!(
        reg.search_url("a", 1000),
        "https://r/-/v1/search?text=a&size=250"
    );
}

#[test]
fn packument_is_fetched_with_the_header_of_its_detail() {
    let asked: RefCell<Vec<(String, Option<String>)>> = RefCell::new(Vec::new());
    let fetch = |url: &str, accept: Option<&str>| -> Result<Vec<u8>, String> {
        asked
            .borrow_mut()
            .push((url.to_string(), accept.map(str::to_string)));
        Ok(br#"{"name":"lit"}"#.to_vec())
    };
    let doc = Registry::npm().packument("@lit/context", &fetch).unwrap();
    assert_eq!(doc.text_at("name").as_deref(), Some("lit"));
    assert_eq!(
        *asked.borrow(),
        [(
            "https://registry.npmjs.org/@lit%2fcontext".to_string(),
            Some("application/vnd.npm.install-v1+json".to_string())
        )]
    );
    let refused = |_: &str, _: Option<&str>| -> Result<Vec<u8>, String> { Err("offline".into()) };
    assert_eq!(
        Registry::npm().packument("lit", &refused).unwrap_err(),
        "offline"
    );
    let garbage = |_: &str, _: Option<&str>| -> Result<Vec<u8>, String> { Ok(b"{".to_vec()) };
    assert!(Registry::npm().packument("lit", &garbage).is_err());
}

#[test]
fn resolve_picks_a_version_and_synthesizes_a_missing_tarball() {
    let fetch = |_: &str, _: Option<&str>| -> Result<Vec<u8>, String> {
        Ok(br#"{"versions":{"1.0.0":{},"1.2.0":{},"2.0.0":{}}}"#.to_vec())
    };
    let resolved = Registry::npm().resolve("x", &range("^1"), &fetch).unwrap();
    assert_eq!(resolved.name, "x");
    assert_eq!(resolved.version.to_string(), "1.2.0");
    assert_eq!(
        resolved.tarball_url,
        "https://registry.npmjs.org/x/-/x-1.2.0.tgz"
    );
    assert_eq!(
        Registry::npm()
            .resolve("x", &range("^5"), &fetch)
            .unwrap_err(),
        "no published version of x matches ^5"
    );
}

#[test]
fn search_reads_the_reply() {
    let fetch = |url: &str, accept: Option<&str>| -> Result<Vec<u8>, String> {
        assert_eq!(url, "https://registry.npmjs.org/-/v1/search?text=lit&size=5");
        assert_eq!(accept, None);
        Ok(br#"{"objects":[{"package":{"name":"lit","version":"3.0.0"}}]}"#.to_vec())
    };
    let found = Registry::npm().search("lit", 5, &fetch).unwrap();
    assert_eq!(found.len(), 1);
    assert_eq!(found[0].name, "lit");
    assert_eq!(found[0].version, "3.0.0");
    assert_eq!(found[0].description, None);
}

#[test]
fn select_version_picks_newest_matching() {
    let doc = json(
        r#"{
            "versions": {
                "3.1.0": { "dist": { "tarball": "https://r/lit-3.1.0.tgz" } },
                "3.3.3": {
                    "license": "BSD-3-Clause",
                    "dist": {
                        "tarball": "https://r/lit-3.3.3.tgz",
                        "integrity": "sha512-deadbeef"
                    }
                },
                "4.0.0": { "dist": { "tarball": "https://r/lit-4.0.0.tgz" } },
                "2.9.9": {}
            }
        }"#,
    );
    let (ver, tarball, integrity, license) = select_version(&doc, &range("^3")).unwrap();
    assert_eq!(ver, Version::parse("3.3.3").unwrap());
    assert_eq!(tarball.as_deref(), Some("https://r/lit-3.3.3.tgz"));
    assert_eq!(integrity.as_deref(), Some("sha512-deadbeef"));
    assert_eq!(license.as_deref(), Some("BSD-3-Clause"));
}

#[test]
fn select_version_integrity_is_none_when_absent() {
    let doc = json(
        r#"{ "versions": {
            "1.0.0": { "dist": { "tarball": "https://r/x-1.0.0.tgz" } }
        }}"#,
    );
    let (_, tarball, integrity, _license) = select_version(&doc, &range("^1")).unwrap();
    assert_eq!(tarball.as_deref(), Some("https://r/x-1.0.0.tgz"));
    assert!(integrity.is_none());
}

#[test]
fn select_version_none_when_no_match() {
    let doc = json(r#"{ "versions": { "1.0.0": {}, "2.0.0": {} } }"#);
    assert!(select_version(&doc, &range("^5")).is_none());
}

#[test]
fn select_version_passes_over_what_is_no_version() {
    let doc = json(r#"{ "versions": { "latest": {}, "1.9.0": {}, "1.10.0": {} } }"#);
    let (version, _, _, _) = select_version(&doc, &range("*")).unwrap();
    assert_eq!(version.to_string(), "1.10.0");
    assert!(select_version(&json("{}"), &range("*")).is_none());
    assert!(select_version(&json(r#"{"versions": []}"#), &range("*")).is_none());
}

#[test]
fn license_of_normalizes_string_object_and_array_forms() {
    assert_eq!(
        license_of(&json(r#"{ "license": "MIT" }"#)).as_deref(),
        Some("MIT")
    );
    assert_eq!(
        license_of(&json(
            r#"{ "license": { "type": "Apache-2.0", "url": "x" } }"#
        ))
        .as_deref(),
        Some("Apache-2.0")
    );
    assert_eq!(
        license_of(&json(
            r#"{ "licenses": [{ "type": "MIT" }, { "type": "Apache-2.0" }] }"#
        ))
        .as_deref(),
        Some("MIT OR Apache-2.0")
    );
    assert_eq!(license_of(&json(r#"{ "dist": {} }"#)), None);
}

#[test]
fn dependencies_of_lets_an_optional_entry_override_in_place() {
    let doc = json(
        r#"{ "versions": { "1.0.0": {
            "dependencies": { "x": "^1", "y": "^1" },
            "optionalDependencies": { "x": "^2" }
        } } }"#,
    );
    let version = Version::parse("1.0.0").unwrap();
    assert_eq!(
        dependencies_of(&doc, &version, true),
        [
            ("x".to_string(), "^2".to_string(), true),
            ("y".to_string(), "^1".to_string(), false),
        ],
        "the optional entry replaces the regular one in place, flag flipped"
    );
    assert_eq!(
        dependencies_of(&doc, &version, false),
        [
            ("x".to_string(), "^1".to_string(), false),
            ("y".to_string(), "^1".to_string(), false),
        ],
        "the install walk never sees optionalDependencies"
    );
}

#[test]
fn dependencies_of_an_unknown_version_are_none() {
    let doc = json(r#"{ "versions": { "1.0.0": { "dependencies": { "x": 1, "y": "^1" } } } }"#);
    let other = Version::parse("2.0.0").unwrap();
    assert!(dependencies_of(&doc, &other, true).is_empty());
    let one = Version::parse("1.0.0").unwrap();
    assert_eq!(
        dependencies_of(&doc, &one, true),
        [("y".to_string(), "^1".to_string(), false)]
    );
}

#[test]
fn classify_dep_routes_protocols_aliases_and_ranges() {
    let omit_reason = |spec: &str| match classify_dep("p", spec).unwrap() {
        EdgeAction::Omit(o) => o.reason,
        EdgeAction::Resolve { .. } => panic!("{spec:?} should be an omission"),
    };
    assert_eq!(omit_reason("workspace:*"), "workspace: protocol");
    assert_eq!(omit_reason("link:../x"), "link: protocol");
    assert_eq!(
        omit_reason("git+ssh://git@github.com/x/y.git"),
        "git dependency"
    );
    assert_eq!(omit_reason("user/repo"), "git dependency");
    assert_eq!(omit_reason("https://x.example/p.tgz"), "remote tarball");
    assert_eq!(omit_reason("file:../local"), "local path");
    assert_eq!(
        omit_reason("npm:x@file:../y"),
        "npm: alias to a non-registry target"
    );

    match classify_dep("aliased", "npm:target@^2").unwrap() {
        EdgeAction::Resolve { name, .. } => assert_eq!(name, "target"),
        EdgeAction::Omit(o) => panic!("alias to registry must resolve, got {}", o.to_string()),
    }
    match classify_dep("plain", "^1.2").unwrap() {
        EdgeAction::Resolve { name, .. } => assert_eq!(name, "plain"),
        EdgeAction::Omit(o) => panic!("registry range must resolve, got {}", o.to_string()),
    }
    assert!(classify_dep("bad", "%% nope %%").is_err());
}

#[test]
fn omission_display_names_the_spec_when_present() {
    assert_eq!(
        Omission::new("g", "git+ssh://x/y", "git dependency").to_string(),
        "g (git+ssh://x/y: git dependency)"
    );
    assert_eq!(
        Omission::new("workspaces", "", "not traversed").to_string(),
        "workspaces (not traversed)"
    );
}

#[test]
fn identical_omissions_are_recorded_once() {
    let mut list: Vec<Omission> = Vec::new();
    push_unique(&mut list, Omission::new("g", "x/y", "git dependency"));
    push_unique(&mut list, Omission::new("g", "x/y", "git dependency"));
    push_unique(&mut list, Omission::new("g", "x/z", "git dependency"));
    assert_eq!(list.len(), 2);
    assert_eq!(list[1].spec, "x/z");
}

#[test]
fn parse_search_extracts_packages_and_skips_malformed() {
    let doc = json(
        r#"{
            "objects": [
                { "package": {
                    "name": "lodash",
                    "version": "4.17.21",
                    "description": "Lodash modular utilities.",
                    "keywords": ["util", "functional"],
                    "date": "2021-02-20T15:42:16.891Z",
                    "links": { "npm": "https://www.npmjs.com/package/lodash", "homepage": "https://lodash.com/" }
                }},
                { "package": { "version": "1.0.0" } },
                { "score": {} }
            ],
            "total": 1
        }"#,
    );
    let results = parse_search(&doc);
    assert_eq!(results.len(), 1);
    let r = &results[0];
    assert_eq!(r.name, "lodash");
    assert_eq!(r.version, "4.17.21");
    assert_eq!(r.description.as_deref(), Some("Lodash modular utilities."));
    assert_eq!(r.keywords, ["util", "functional"]);
    assert_eq!(r.homepage.as_deref(), Some("https://lodash.com/"));
    assert!(r.date.is_some());
}

#[test]
fn parse_search_empty_when_no_objects() {
    assert!(parse_search(&json("{}")).is_empty());
    assert!(parse_search(&json(r#"{ "objects": "nope" }"#)).is_empty());
}

#[test]
fn encode_query_escapes_reserved_characters() {
    assert_eq!(encode_query("lodash"), "lodash");
    assert_eq!(encode_query("react dom"), "react%20dom");
    assert_eq!(encode_query("@lit/context"), "%40lit%2Fcontext");
}

#[test]
fn encode_query_escapes_every_byte_of_a_character() {
    assert_eq!(encode_query("ä-_.~"), "%C3%A4-_.~");
}

#[test]
fn registries_default_to_the_public_one_with_abbreviated_documents() {
    let registry = Registry::default();
    assert_eq!(registry.base_url, "https://registry.npmjs.org");
    assert_eq!(registry.detail, PackumentDetail::default());
    assert_eq!(PackumentDetail::default(), PackumentDetail::Abbreviated);
    let full = registry.with_detail(PackumentDetail::Full);
    assert_eq!(full.detail.accept(), None);
    assert_eq!(full.base_url, "https://registry.npmjs.org");
}
