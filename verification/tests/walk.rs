use npm_utils::common::ResolveEvent;
use npm_utils::dependency::Range;
use npm_utils::json::Json;
use npm_utils::registry::{Omission, Registry, Resolved};
use npm_utils::round::Round;
use npm_utils::walk::{Edge, Step, Walk, WalkPolicy};
use std::cell::RefCell;
use std::collections::HashMap;

type Outcome = Result<(Vec<Resolved>, Vec<Omission>), String>;

fn json(text: &str) -> Json {
    Json::parse(text.as_bytes()).unwrap()
}

fn table_text(entries: &[(&str, &str)]) -> String {
    let members: Vec<String> = entries
        .iter()
        .map(|(name, spec)| format!("\"{name}\": \"{spec}\""))
        .collect();
    format!("{{ {} }}", members.join(", "))
}

fn packument_with(version: &str, deps: &[(&str, &str)]) -> String {
    packument_with_optional(version, deps, &[])
}

fn packument_with_optional(
    version: &str,
    deps: &[(&str, &str)],
    optional: &[(&str, &str)],
) -> String {
    format!(
        r#"{{ "versions": {{ "{version}": {{
            "dist": {{ "tarball": "https://r/{version}.tgz", "integrity": "sha512-{version}" }},
            "dependencies": {},
            "optionalDependencies": {}
        }} }} }}"#,
        table_text(deps),
        table_text(optional)
    )
}

type Packages = HashMap<String, String>;

fn packages(list: &[(&str, String)]) -> Packages {
    list.iter()
        .map(|(name, text)| (name.to_string(), text.clone()))
        .collect()
}

fn lookup(pkgs: &Packages, name: &str) -> Result<Json, String> {
    match pkgs.get(name) {
        Some(text) => Ok(json(text)),
        None => Err(format!("no packument for {name}")),
    }
}

fn edge(name: &str, range: &str, optional: bool) -> Edge {
    Edge {
        name: name.to_string(),
        range: Range::parse(range).unwrap(),
        optional,
    }
}

fn root(name: &str, range: &str) -> (String, Range) {
    (name.to_string(), Range::parse(range).unwrap())
}

/// One document at a time, when an edge asks for it.
fn sequential(roots: Vec<Edge>, policy: WalkPolicy, pkgs: &Packages) -> Outcome {
    let mut walk = Walk::new(&Registry::npm(), roots, policy);
    loop {
        match walk.step() {
            Step::Finished => return Ok(walk.finish()),
            Step::Failed(message) => return Err(message),
            Step::Wanted(name) => {
                let reply = lookup(pkgs, &name);
                walk.supply(name, reply);
            }
            _ => {}
        }
    }
}

/// A whole round of documents at a time.
fn in_rounds(roots: Vec<Edge>, policy: WalkPolicy, pkgs: &Packages) -> Outcome {
    let mut walk = Walk::new(&Registry::npm(), roots, policy);
    while walk.pending() > 0 {
        let mut replies: Vec<(String, Result<Json, String>)> = Vec::new();
        for name in walk.missing() {
            let reply = lookup(pkgs, &name);
            replies.push((name, reply));
        }
        walk.supply_all(replies);
        let batch = walk.pending();
        for _ in 0..batch {
            if let Step::Failed(message) = walk.step() {
                return Err(message);
            }
        }
    }
    Ok(walk.finish())
}

fn nested(roots: &[(&str, &str)], pkgs: &Packages) -> Outcome {
    let edges = || roots.iter().map(|(n, r)| edge(n, r, false)).collect();
    let one = sequential(edges(), WalkPolicy::audit(), pkgs);
    assert_eq!(one, in_rounds(edges(), WalkPolicy::audit(), pkgs));
    one
}

fn flat(roots: &[(&str, &str)], pkgs: &Packages) -> Outcome {
    let edges = || roots.iter().map(|(n, r)| edge(n, r, false)).collect();
    let one = sequential(edges(), WalkPolicy::flat(), pkgs);
    assert_eq!(one, in_rounds(edges(), WalkPolicy::flat(), pkgs));
    one
}

fn pairs(resolved: &[Resolved]) -> Vec<String> {
    resolved
        .iter()
        .map(|r| format!("{}@{}", r.name, r.version.to_string()))
        .collect()
}

fn two_versions(name: &str, deps: &str) -> String {
    format!(
        r#"{{ "versions": {{
            "1.0.0": {{ "dist": {{ "tarball": "https://r/{name}1.tgz" }}, "dependencies": {deps} }},
            "2.0.0": {{ "dist": {{ "tarball": "https://r/{name}2.tgz" }}, "dependencies": {deps} }}
        }} }}"#
    )
}

#[test]
fn resolve_tree_walks_transitively_dedups_and_handles_cycles() {
    let pkgs = packages(&[
        ("a", packument_with("1.0.0", &[("b", "^1"), ("c", "^1")])),
        ("b", packument_with("1.2.0", &[("c", "^1")])),
        ("c", packument_with("1.5.0", &[("a", "^1")])),
    ]);
    let documents: Vec<(String, Result<Json, String>)> = ["a", "b", "c"]
        .iter()
        .map(|n| (n.to_string(), lookup(&pkgs, n)))
        .collect();
    let resolved = Registry::npm()
        .resolve_tree(&vec![root("a", "^1")], documents)
        .unwrap();

    let names: Vec<&str> = resolved.iter().map(|r| r.name.as_str()).collect();
    assert_eq!(names, ["a", "b", "c"]);
    let ver = |n: &str| {
        resolved
            .iter()
            .find(|r| r.name == n)
            .unwrap()
            .version
            .to_string()
    };
    assert_eq!(ver("b"), "1.2.0");
    assert_eq!(ver("c"), "1.5.0");

    let integrity = |n: &str| {
        resolved
            .iter()
            .find(|r| r.name == n)
            .unwrap()
            .integrity
            .clone()
    };
    assert_eq!(integrity("b").as_deref(), Some("sha512-1.2.0"));
    assert_eq!(flat(&[("a", "^1")], &pkgs).unwrap().0, resolved);
}

#[test]
fn resolve_tree_resolves_a_transitive_or_range() {
    let pkgs = packages(&[
        ("ctx", packument_with("1.1.6", &[("re", "^1.6.2 || ^2.1.0")])),
        ("re", packument_with("2.1.0", &[])),
    ]);
    let (resolved, _) = flat(&[("ctx", "^1")], &pkgs).unwrap();
    let names: Vec<&str> = resolved.iter().map(|r| r.name.as_str()).collect();
    assert_eq!(
        names,
        ["ctx", "re"],
        "the `||`-ranged transitive dep resolved"
    );
    assert_eq!(
        resolved
            .iter()
            .find(|r| r.name == "re")
            .unwrap()
            .version
            .to_string(),
        "2.1.0"
    );
}

#[test]
fn resolve_tree_errors_on_version_conflict() {
    let pkgs = packages(&[
        ("x", two_versions("x", "{}")),
        ("y", packument_with("1.0.0", &[("x", "^2")])),
    ]);
    let err = flat(&[("x", "^1"), ("y", "^1")], &pkgs).unwrap_err();
    assert!(err.contains("version conflict"), "got: {err}");
    assert_eq!(
        err,
        "version conflict for `x`: resolved 1.0.0 but also required `^2` \
         (flat node_modules install resolves one version per package)"
    );
}

#[test]
fn resolve_tree_nested_keeps_a_version_per_conflicting_range() {
    let pkgs = packages(&[
        ("x", two_versions("x", "{}")),
        ("y", packument_with("1.0.0", &[("x", "^2")])),
    ]);
    let documents: Vec<(String, Result<Json, String>)> = ["x", "y"]
        .iter()
        .map(|n| (n.to_string(), lookup(&pkgs, n)))
        .collect();
    let resolved = Registry::npm()
        .resolve_tree_nested(&vec![root("x", "^1"), root("y", "^1")], documents)
        .unwrap();
    assert_eq!(
        pairs(&resolved),
        ["x@1.0.0", "x@2.0.0", "y@1.0.0"],
        "both conflicting x versions kept, sorted by name then version"
    );
    assert_eq!(nested(&[("x", "^1"), ("y", "^1")], &pkgs).unwrap().0, resolved);
}

#[test]
fn resolve_tree_nested_dedupes_and_terminates_on_a_conflicting_cycle() {
    let pkgs = packages(&[
        ("a", two_versions("a", r#"{ "b": "^1" }"#)),
        ("b", packument_with("1.0.0", &[("a", "^2")])),
    ]);
    let (resolved, _) = nested(&[("a", "^1")], &pkgs).unwrap();
    assert_eq!(pairs(&resolved), ["a@1.0.0", "a@2.0.0", "b@1.0.0"]);
}

#[test]
fn resolve_tree_nested_terminates_on_a_mutual_cycle() {
    let pkgs = packages(&[
        ("a", packument_with("1.0.0", &[("b", "^1")])),
        ("b", packument_with("1.0.0", &[("a", "^1")])),
    ]);
    let (resolved, _) = nested(&[("a", "^1")], &pkgs).unwrap();
    assert_eq!(pairs(&resolved), ["a@1.0.0", "b@1.0.0"]);
}

#[test]
fn resolve_tree_nested_reuses_a_satisfying_version_across_parents() {
    let pkgs = packages(&[
        ("a", packument_with("1.0.0", &[("b", "^1"), ("c", "^1")])),
        ("b", packument_with("1.2.0", &[("c", "^1")])),
        ("c", packument_with("1.5.0", &[])),
    ]);
    let (resolved, _) = nested(&[("a", "^1")], &pkgs).unwrap();
    assert_eq!(pairs(&resolved), ["a@1.0.0", "b@1.2.0", "c@1.5.0"]);
}

#[test]
fn optional_dependencies_traverse_nested_and_stay_ignored_flat() {
    let pkgs = packages(&[
        (
            "root",
            packument_with_optional("1.0.0", &[], &[("opt", "^1")]),
        ),
        ("opt", packument_with("1.1.0", &[("leaf", "^1")])),
        ("leaf", packument_with("1.0.0", &[])),
    ]);
    let (resolved, _) = nested(&[("root", "^1")], &pkgs).unwrap();
    assert_eq!(pairs(&resolved), ["leaf@1.0.0", "opt@1.1.0", "root@1.0.0"]);

    let (resolved, _) = flat(&[("root", "^1")], &pkgs).unwrap();
    assert_eq!(pairs(&resolved), ["root@1.0.0"]);
}

#[test]
fn optional_fetch_failure_is_an_omission_and_siblings_still_resolve() {
    let pkgs = packages(&[
        (
            "root",
            packument_with_optional("1.0.0", &[("b", "^1")], &[("gone", "^2")]),
        ),
        ("b", packument_with("1.0.0", &[])),
    ]);
    let (resolved, omissions) = nested(&[("root", "^1")], &pkgs).unwrap();
    assert_eq!(pairs(&resolved), ["b@1.0.0", "root@1.0.0"]);
    assert_eq!(omissions.len(), 1, "{omissions:?}");
    assert_eq!(omissions[0].name, "gone");
    assert!(
        omissions[0]
            .reason
            .contains("optional dependency failed to fetch"),
        "{}",
        omissions[0].to_string()
    );
    assert_eq!(
        omissions[0].reason,
        "optional dependency failed to fetch: no packument for gone"
    );
    assert_eq!(omissions[0].spec, "^2");
}

#[test]
fn optional_version_mismatch_is_an_omission() {
    let pkgs = packages(&[
        (
            "root",
            packument_with_optional("1.0.0", &[], &[("opt", "^9")]),
        ),
        ("opt", packument_with("1.0.0", &[])),
    ]);
    let (resolved, omissions) = nested(&[("root", "^1")], &pkgs).unwrap();
    assert_eq!(pairs(&resolved), ["root@1.0.0"]);
    assert_eq!(omissions.len(), 1);
    assert!(
        omissions[0].reason.contains("no published version matches"),
        "{}",
        omissions[0].to_string()
    );
}

#[test]
fn required_fetch_failure_still_aborts_the_audit_walk() {
    let pkgs = packages(&[("root", packument_with("1.0.0", &[("gone", "^1")]))]);
    let err = nested(&[("root", "^1")], &pkgs).unwrap_err();
    assert!(err.contains("no packument for gone"), "{err}");
}

#[test]
fn required_version_mismatch_aborts_the_walk() {
    let pkgs = packages(&[("a", packument_with("1.0.0", &[]))]);
    assert_eq!(
        nested(&[("a", "^9")], &pkgs).unwrap_err(),
        "no published version of a matches ^9"
    );
    assert_eq!(
        flat(&[("a", "^9")], &pkgs).unwrap_err(),
        "no published version of a matches ^9"
    );
}

#[test]
fn a_name_needed_by_a_required_edge_aborts_even_after_an_optional_omission() {
    let pkgs = packages(&[
        ("root", packument_with("1.0.0", &[("a", "^1")])),
        (
            "a",
            packument_with_optional("1.0.0", &[("b", "^1")], &[("x", "^1")]),
        ),
        ("b", packument_with("1.0.0", &[("x", "^1")])),
    ]);
    let mut attempts: HashMap<String, usize> = HashMap::new();
    let mut walk = Walk::new(
        &Registry::npm(),
        vec![edge("root", "^1", false)],
        WalkPolicy::audit(),
    );
    let err = loop {
        match walk.step() {
            Step::Finished => panic!("the walk must fail"),
            Step::Failed(message) => break message,
            Step::Wanted(name) => {
                *attempts.entry(name.clone()).or_insert(0) += 1;
                let reply = lookup(&pkgs, &name);
                walk.supply(name, reply);
            }
            _ => {}
        }
    };
    assert!(err.contains("no packument for x"), "{err}");
    assert_eq!(
        attempts.get("x"),
        Some(&1),
        "a failed name is never re-fetched"
    );
}

#[test]
fn transitive_git_spec_is_an_omission_nested_and_an_error_flat() {
    let pkgs = packages(&[
        (
            "a",
            packument_with(
                "1.0.0",
                &[("g", "git+https://github.com/x/y.git"), ("b", "^1")],
            ),
        ),
        ("b", packument_with("1.0.0", &[])),
    ]);
    let (resolved, omissions) = nested(&[("a", "^1")], &pkgs).unwrap();
    assert_eq!(pairs(&resolved), ["a@1.0.0", "b@1.0.0"]);
    assert_eq!(omissions.len(), 1);
    assert_eq!(
        omissions[0].to_string(),
        "g (git+https://github.com/x/y.git: git dependency)"
    );

    let err = flat(&[("a", "^1")], &pkgs).unwrap_err();
    assert!(err.contains("unsupported version"), "{err}");
}

#[test]
fn npm_alias_to_a_registry_range_resolves_the_target() {
    let pkgs = packages(&[
        ("a", packument_with("1.0.0", &[("aliased", "npm:real@^1")])),
        ("real", packument_with("1.5.0", &[])),
    ]);
    let (resolved, _) = nested(&[("a", "^1")], &pkgs).unwrap();
    assert_eq!(
        pairs(&resolved),
        ["a@1.0.0", "real@1.5.0"],
        "the alias target resolves under its real name"
    );
}

#[test]
fn garbage_transitive_range_stays_a_hard_error_under_the_audit_policy() {
    let pkgs = packages(&[("a", packument_with("1.0.0", &[("bad", "%% nope %%")]))]);
    let err = nested(&[("a", "^1")], &pkgs).unwrap_err();
    assert!(
        err.contains("unsupported version"),
        "malformed semver must fail clearly, not become an omission: {err}"
    );
}

fn fan() -> (Vec<String>, Packages) {
    let parents: Vec<String> = (1..=10).map(|i| format!("p{i:02}")).collect();
    let deps: Vec<(&str, &str)> = parents.iter().map(|p| (p.as_str(), "^1")).collect();
    let mut pkgs = packages(&[
        ("root", packument_with("1.0.0", &deps)),
        ("shared", packument_with("1.0.0", &[])),
    ]);
    for p in &parents {
        pkgs.insert(p.clone(), packument_with("1.0.0", &[("shared", "^1")]));
    }
    (parents, pkgs)
}

#[test]
fn parallel_prefetch_is_deterministic_and_fetches_each_name_once() {
    let (parents, pkgs) = fan();
    let mut fetches: HashMap<String, usize> = HashMap::new();
    let mut seen: Vec<usize> = Vec::new();
    let mut walk = Walk::new(
        &Registry::npm(),
        vec![edge("root", "^1", false)],
        WalkPolicy::audit(),
    );
    while walk.pending() > 0 {
        let mut names = walk.missing();
        // Documents may come in any order.
        names.reverse();
        for name in names {
            *fetches.entry(name.clone()).or_insert(0) += 1;
            let reply = lookup(&pkgs, &name);
            walk.supply(name, reply);
        }
        for _ in 0..walk.pending() {
            match walk.step() {
                Step::Resolved => seen.push(walk.resolved().len()),
                Step::Failed(message) => panic!("{message}"),
                Step::Wanted(name) => panic!("{name} was not fetched"),
                _ => {}
            }
        }
    }
    assert_eq!(fetches.len(), 12);
    assert!(
        fetches.values().all(|&n| n == 1),
        "duplicate fetches: {fetches:?}"
    );
    assert_eq!(seen, (1..=12).collect::<Vec<_>>());
    let (resolved, _) = walk.finish();
    let names: Vec<&str> = resolved.iter().map(|r| r.name.as_str()).collect();
    let expected: Vec<String> = parents
        .iter()
        .cloned()
        .chain(["root".to_string(), "shared".to_string()])
        .collect();
    assert_eq!(
        names,
        expected.iter().map(String::as_str).collect::<Vec<_>>()
    );
    assert_eq!(nested(&[("root", "^1")], &pkgs).unwrap().0, resolved);
}

#[test]
fn resolve_walk_reports_each_resolution_to_the_observer() {
    let pkgs = packages(&[
        ("a", packument_with("1.0.0", &[("b", "^1"), ("c", "^1")])),
        ("b", packument_with("1.2.0", &[("c", "^1")])),
        ("c", packument_with("1.5.0", &[])),
    ]);
    let seen: RefCell<Vec<String>> = RefCell::new(Vec::new());
    let mut walk = Walk::new(
        &Registry::npm(),
        vec![edge("a", "^1", false)],
        WalkPolicy::audit(),
    );
    loop {
        match walk.step() {
            Step::Finished => break,
            Step::Failed(message) => panic!("{message}"),
            Step::Wanted(name) => {
                let reply = lookup(&pkgs, &name);
                walk.supply(name, reply);
            }
            Step::Resolved => match walk.latest() {
                Some(ResolveEvent::Resolved {
                    count,
                    name,
                    version,
                }) => seen.borrow_mut().push(format!("{count} {name}@{version}")),
                other => panic!("{other:?}"),
            },
            Step::Satisfied | Step::Omitted => {}
        }
    }
    let (resolved, _) = walk.finish();
    let seen = seen.into_inner();
    assert_eq!(seen, ["1 a@1.0.0", "2 b@1.2.0", "3 c@1.5.0"]);
    assert_eq!(seen.len(), resolved.len());
}

#[test]
fn fetch_events_bracket_each_fetch_once_including_failures() {
    let pkgs = packages(&[("ok", packument_with("1.0.0", &[]))]);
    let mut events: HashMap<String, (usize, usize)> = HashMap::new();
    let mut counts: Vec<usize> = Vec::new();
    let mut walk = Walk::new(
        &Registry::npm(),
        vec![edge("ok", "^1", false), edge("bad", "^1", true)],
        WalkPolicy::audit(),
    );
    while walk.pending() > 0 {
        let mut round = Round::new(walk.missing());
        while let Some((i, begun)) = round.claim() {
            let ResolveEvent::FetchBegin { name } = begun else {
                panic!("{begun:?}")
            };
            events.entry(name.clone()).or_default().0 += 1;
            assert!(round.is_open(i));
            let over = round.close(i, lookup(&pkgs, &name));
            let ResolveEvent::FetchDone { name } = over else {
                panic!("{over:?}")
            };
            events.entry(name).or_default().1 += 1;
            assert!(!round.is_open(i));
        }
        walk.supply_all(round.replies().unwrap());
        for _ in 0..walk.pending() {
            if let Step::Resolved = walk.step() {
                match walk.latest() {
                    Some(ResolveEvent::Resolved { count, .. }) => counts.push(count),
                    other => panic!("{other:?}"),
                }
            }
        }
    }
    assert_eq!(events.get("ok"), Some(&(1, 1)));
    assert_eq!(
        events.get("bad"),
        Some(&(1, 1)),
        "a failed fetch still closes"
    );
    let (resolved, omissions) = walk.finish();
    assert_eq!(counts, [1]);
    assert_eq!(resolved.len(), 1);
    assert_eq!(omissions.len(), 1);
    assert!(
        omissions[0]
            .reason
            .contains("optional dependency failed to fetch"),
        "{}",
        omissions[0].to_string()
    );
}

#[test]
fn replies_come_in_the_order_of_the_packages() {
    let mut round = Round::new(vec!["a".to_string(), "b".to_string()]);
    let (first, _) = round.claim().unwrap();
    let (second, _) = round.claim().unwrap();
    assert!(round.claim().is_none());
    let closed = round.close(second, Err("gone".to_string()));
    assert_eq!(closed, ResolveEvent::FetchDone { name: "b".to_string() });
    let closed = round.close(first, Ok(json("{}")));
    assert_eq!(closed, ResolveEvent::FetchDone { name: "a".to_string() });
    assert_eq!(
        round.replies().unwrap(),
        [
            ("a".to_string(), Ok(json("{}"))),
            ("b".to_string(), Err("gone".to_string()))
        ]
    );
}

#[test]
fn a_round_has_no_replies_while_one_is_awaited() {
    let mut round = Round::new(vec!["a".to_string()]);
    round.claim().unwrap();
    assert!(round.is_open(0) && !round.is_open(1));
    assert_eq!(round.replies(), None);
    assert_eq!(Round::new(Vec::new()).replies().unwrap(), []);
}

#[test]
fn omissions_are_sorted_and_recorded_once() {
    let git = "git+https://github.com/x/y.git";
    let pkgs = packages(&[
        ("a", packument_with("1.0.0", &[("z", git), ("b", "^1")])),
        ("b", packument_with("1.0.0", &[("z", git), ("c", "file:../c")])),
    ]);
    let (_, omissions) = nested(&[("a", "^1")], &pkgs).unwrap();
    let names: Vec<&str> = omissions.iter().map(|o| o.name.as_str()).collect();
    assert_eq!(names, ["c", "z"]);
}

#[test]
fn a_plain_graph_without_conflicts_resolves_alike_flat_and_nested() {
    let pkgs = packages(&[
        ("a", packument_with("1.0.0", &[("b", "^1"), ("c", "^1")])),
        ("b", packument_with("1.2.0", &[("c", ">=1.1")])),
        ("c", packument_with("1.5.0", &[("a", "^1")])),
    ]);
    let (installed, left_out) = flat(&[("a", "^1")], &pkgs).unwrap();
    assert_eq!(pairs(&installed), ["a@1.0.0", "b@1.2.0", "c@1.5.0"]);
    assert!(left_out.is_empty());
    let audited = nested(&[("a", "^1")], &pkgs).unwrap();
    assert_eq!(audited, (installed, left_out));
    let optional = || vec![edge("a", "^1", true)];
    assert_eq!(
        in_rounds(optional(), WalkPolicy::flat(), &pkgs).unwrap(),
        audited
    );
    assert_eq!(
        in_rounds(optional(), WalkPolicy::audit(), &pkgs).unwrap(),
        audited,
        "an optional root that resolves is no different"
    );
}

#[test]
fn an_absent_document_fails_the_walk() {
    let documents: Vec<(String, Result<Json, String>)> = Vec::new();
    assert_eq!(
        Registry::npm()
            .resolve_tree(&vec![root("a", "^1")], documents)
            .unwrap_err(),
        "no packument for a"
    );
}

#[test]
fn an_empty_walk_is_finished() {
    let documents: Vec<(String, Result<Json, String>)> = Vec::new();
    let (resolved, omissions) = Registry::npm()
        .resolve_walk(Vec::new(), documents, WalkPolicy::audit())
        .unwrap();
    assert!(resolved.is_empty() && omissions.is_empty());
}
