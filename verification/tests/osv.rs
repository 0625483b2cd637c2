use npm_utils::json::Json;
use npm_utils::osv::{
    interval, osv_range_string, parse_osv_vuln, querybatch_body, wanted_ids, Advisory, Component,
    OsvSource, QueryAction, Severity, QUERYBATCH_LIMIT,
};
use std::cell::RefCell;

fn json(text: &str) -> Json {
    Json::parse(text.as_bytes()).unwrap()
}

fn component(name: &str, version: &str) -> Component {
    Component {
        name: name.into(),
        version: version.into(),
        purl: format!("pkg:npm/{name}@{version}"),
        license: None,
        resolved: None,
        integrity: None,
    }
}

type Answer = Result<(Vec<Advisory>, Vec<String>), String>;

/// Run a query to its end.
fn run(
    components: Vec<Component>,
    post: impl Fn(&str, &[u8]) -> Result<Vec<u8>, String>,
    fetch: impl Fn(&str) -> Result<Vec<u8>, String>,
) -> Answer {
    let mut query = OsvSource.query(components);
    let mut reply = None;
    loop {
        assert_eq!(query.is_awaiting(), reply.is_some());
        match query.next(reply.take()) {
            QueryAction::Post { url, body } => reply = Some(post(&url, &body)),
            QueryAction::Fetch { url } => reply = Some(fetch(&url)),
            QueryAction::Done(answer) => {
                assert_eq!(query.next(None), QueryAction::Done(answer.clone()));
                return answer;
            }
        }
    }
}

#[test]
fn querybatch_pages_split_at_the_limit() {
    let components: Vec<Component> = (0..=QUERYBATCH_LIMIT)
        .map(|i| component(&format!("pkg{i}"), "1.0.0"))
        .collect();
    let query_counts: Vec<usize> = components
        .chunks(QUERYBATCH_LIMIT)
        .map(|page| querybatch_body(page).array_at("queries").unwrap().len())
        .collect();
    assert_eq!(query_counts, [QUERYBATCH_LIMIT, 1]);

    let posted: RefCell<Vec<usize>> = RefCell::new(Vec::new());
    let post = |_: &str, body: &[u8]| -> Result<Vec<u8>, String> {
        let body = Json::parse(body).unwrap();
        posted
            .borrow_mut()
            .push(body.array_at("queries").unwrap().len());
        Ok(b"{}".to_vec())
    };
    let fetch = |_: &str| -> Result<Vec<u8>, String> { Err("not asked for".into()) };
    let (advisories, warnings) = run(components, post, fetch).unwrap();
    assert!(advisories.is_empty() && warnings.is_empty());
    assert_eq!(*posted.borrow(), [QUERYBATCH_LIMIT, 1]);
}

#[test]
fn querybatch_body_names_each_component() {
    let body = querybatch_body(&[component("a", "1.0.0")]);
    assert_eq!(
        body,
        json(r#"{"queries":[{"package":{"ecosystem":"npm","name":"a"},"version":"1.0.0"}]}"#)
    );
}

#[test]
fn wanted_ids_maps_results_to_the_queried_page_positionally() {
    let queried = [component("a", "1.0.0"), component("b", "2.0.0")];
    let resp = json(
        r#"{ "results": [
            { "vulns": [{ "id": "GHSA-aaaa" }, { "id": "GHSA-bbbb" }] },
            {}
        ]}"#,
    );
    let wanted = wanted_ids(&resp, &queried);
    assert_eq!(
        wanted,
        [
            (
                "a".to_string(),
                "1.0.0".to_string(),
                "GHSA-aaaa".to_string()
            ),
            (
                "a".to_string(),
                "1.0.0".to_string(),
                "GHSA-bbbb".to_string()
            ),
        ]
    );
    assert!(wanted_ids(&json("{}"), &queried).is_empty());
}

#[test]
fn results_beyond_the_queried_page_are_passed_over() {
    let resp = json(r#"{ "results": [ {}, { "vulns": [{ "id": "X" }] } ] }"#);
    assert!(wanted_ids(&resp, &[component("a", "1.0.0")]).is_empty());
}

#[test]
fn osv_range_from_simple_introduced_zero_fixed() {
    let entry = json(
        r#"{
            "package": { "name": "lodash", "ecosystem": "npm" },
            "ranges": [{ "type": "SEMVER", "events": [{ "introduced": "0" }, { "fixed": "4.17.12" }] }]
        }"#,
    );
    assert_eq!(osv_range_string(&entry).as_deref(), Some("<4.17.12"));
}

#[test]
fn osv_range_from_bounded_and_multi_interval() {
    let bounded = json(
        r#"{ "ranges": [{ "type": "SEMVER",
            "events": [{ "introduced": "1.0.0" }, { "fixed": "1.5.0" }] }] }"#,
    );
    assert_eq!(
        osv_range_string(&bounded).as_deref(),
        Some(">=1.0.0 <1.5.0")
    );

    let multi = json(
        r#"{ "ranges": [{ "type": "SEMVER", "events": [
            { "introduced": "1.0.0" }, { "fixed": "1.2.0" },
            { "introduced": "2.0.0" }, { "fixed": "2.2.0" }
        ] }] }"#,
    );
    assert_eq!(
        osv_range_string(&multi).as_deref(),
        Some(">=1.0.0 <1.2.0 || >=2.0.0 <2.2.0")
    );

    let open =
        json(r#"{ "ranges": [{ "type": "SEMVER", "events": [{ "introduced": "3.0.0" }] }] }"#);
    assert_eq!(osv_range_string(&open).as_deref(), Some(">=3.0.0"));
}

#[test]
fn osv_range_reads_last_affected_and_unbounded_ranges() {
    let last = json(
        r#"{ "ranges": [{ "type": "SEMVER",
            "events": [{ "introduced": "1.0.0" }, { "last_affected": "1.5.0" }] }] }"#,
    );
    assert_eq!(osv_range_string(&last).as_deref(), Some(">=1.0.0 <=1.5.0"));
    let all = json(r#"{ "ranges": [{ "type": "SEMVER", "events": [{ "introduced": "0" }] }] }"#);
    assert_eq!(osv_range_string(&all).as_deref(), Some("*"));
    assert_eq!(osv_range_string(&json("{}")), None);
    assert_eq!(interval(Some("1"), Some(("<", "2"))), ">=1 <2");
    assert_eq!(interval(None, None), "*");
}

#[test]
fn osv_range_falls_back_to_explicit_versions_list() {
    let entry = json(
        r#"{
            "ranges": [{ "type": "ECOSYSTEM", "events": [{ "introduced": "0" }] }],
            "versions": ["1.2.3", "1.2.4"]
        }"#,
    );
    assert_eq!(
        osv_range_string(&entry).as_deref(),
        Some("=1.2.3 || =1.2.4")
    );
}

fn lodash_record() -> Json {
    json(
        r#"{
            "id": "GHSA-jf85-cpcp-j695",
            "summary": "Prototype Pollution in lodash",
            "aliases": ["CVE-2019-10744"],
            "database_specific": { "severity": "CRITICAL", "cwe_ids": ["CWE-1321", "CWE-20"] },
            "references": [{ "type": "ADVISORY", "url": "https://nvd.nist.gov/vuln/detail/CVE-2019-10744" }],
            "affected": [
                { "package": { "name": "lodash", "ecosystem": "npm" },
                  "ranges": [{ "type": "SEMVER", "events": [{ "introduced": "0" }, { "fixed": "4.17.12" }] }] },
                { "package": { "name": "lodash-rails", "ecosystem": "RubyGems" },
                  "ranges": [{ "type": "ECOSYSTEM", "events": [{ "introduced": "0" }, { "fixed": "4.17.12" }] }] }
            ]
        }"#,
    )
}

#[test]
fn parse_osv_vuln_matches_npm_package_only() {
    let record = lodash_record();
    let adv = parse_osv_vuln(&record, "lodash", "4.17.11").expect("npm lodash affected");
    assert_eq!(adv.source, "osv");
    assert_eq!(adv.id, "GHSA-jf85-cpcp-j695");
    assert_eq!(adv.aliases, vec!["CVE-2019-10744"]);
    assert_eq!(adv.severity, Some(Severity::Critical));
    assert_eq!(adv.vulnerable_range, "<4.17.12");
    assert_eq!(adv.cwe, vec!["CWE-1321", "CWE-20"]);
    assert_eq!(
        adv.url.as_deref(),
        Some("https://nvd.nist.gov/vuln/detail/CVE-2019-10744")
    );
    assert_eq!(adv.title, "Prototype Pollution in lodash");
    assert_eq!(adv.matched_version, "");

    assert!(parse_osv_vuln(&record, "lodash-rails", "4.17.11").is_none());
    assert!(parse_osv_vuln(&record, "express", "1.0.0").is_none());
}

#[test]
fn parse_osv_vuln_keeps_a_confirmed_hit_without_a_semver_range() {
    let record = json(
        r#"{
            "id": "GHSA-xxxx-yyyy-zzzz",
            "summary": "Something in demo",
            "severity": [{ "type": "CVSS_V3", "score": "CVSS:3.1/AV:N/AC:L/PR:N/UI:N/S:U/C:H/I:H/A:H" }],
            "affected": [
                { "package": { "name": "demo", "ecosystem": "npm" },
                  "ranges": [{ "type": "ECOSYSTEM", "events": [{ "introduced": "0" }] }] }
            ]
        }"#,
    );
    let adv = parse_osv_vuln(&record, "demo", "1.2.3").expect("confirmed hit is kept");
    assert_eq!(adv.vulnerable_range, "=1.2.3");
    assert_eq!(adv.severity, None);
    assert!(adv.cvss_vector.is_some());
    assert_eq!(
        adv.url.as_deref(),
        Some("https://osv.dev/vulnerability/GHSA-xxxx-yyyy-zzzz")
    );
    assert!(adv.applies_to("1.2.3"));
    assert!(!adv.applies_to("1.2.4"));
}

#[test]
fn a_range_that_misses_the_confirmed_version_is_replaced() {
    let adv = parse_osv_vuln(&lodash_record(), "lodash", "5.0.0").unwrap();
    assert_eq!(adv.vulnerable_range, "=5.0.0");
    assert!(adv.applies_to("5.0.0"));
    let pre = parse_osv_vuln(&lodash_record(), "lodash", "5.0.0-rc.1+b.2").unwrap();
    assert_eq!(pre.vulnerable_range, "=5.0.0-rc.1+b.2");
    assert!(pre.applies_to("5.0.0-rc.1+b.2"));
}

#[test]
fn records_without_id_or_entries_give_nothing() {
    assert!(parse_osv_vuln(&json("{}"), "a", "1.0.0").is_none());
    assert!(parse_osv_vuln(&json(r#"{"id":"X"}"#), "a", "1.0.0").is_none());
}

#[test]
fn severities_are_read_loosely() {
    assert_eq!(Severity::from_str_loose("Low"), Some(Severity::Low));
    assert_eq!(Severity::from_str_loose("MODERATE"), Some(Severity::Moderate));
    assert_eq!(Severity::from_str_loose("medium"), Some(Severity::Moderate));
    assert_eq!(Severity::from_str_loose("high"), Some(Severity::High));
    assert_eq!(Severity::from_str_loose("bad"), None);
}

#[test]
fn query_looks_each_record_up_once_and_warns_of_missing_ones() {
    let components = vec![component("lodash", "4.17.11"), component("demo", "1.0.0")];
    let post = |url: &str, body: &[u8]| -> Result<Vec<u8>, String> {
        assert_eq!(url, "https://api.osv.dev/v1/querybatch");
        assert_eq!(
            body,
            br#"{"queries":[{"package":{"ecosystem":"npm","name":"lodash"},"version":"4.17.11"},{"package":{"ecosystem":"npm","name":"demo"},"version":"1.0.0"}]}"#
        );
        Ok(br#"{ "results": [
                { "vulns": [{ "id": "GHSA-jf85-cpcp-j695" }, { "id": "GONE" }] },
                { "vulns": [{ "id": "GHSA-jf85-cpcp-j695" }] }
            ] }"#
            .to_vec())
    };
    let asked: RefCell<Vec<String>> = RefCell::new(Vec::new());
    let fetch = |url: &str| -> Result<Vec<u8>, String> {
        asked.borrow_mut().push(url.to_string());
        if url.ends_with("/GONE") {
            Err("404".into())
        } else {
            Ok(br#"{ "id": "GHSA-jf85-cpcp-j695", "affected": [
                { "package": { "name": "lodash", "ecosystem": "npm" } } ] }"#
                .to_vec())
        }
    };
    assert_eq!(OsvSource.name(), "osv");
    let (advisories, warnings) = run(components, post, fetch).unwrap();
    assert_eq!(advisories.len(), 1);
    assert_eq!(advisories[0].vulnerable_range, "=4.17.11");
    assert_eq!(
        warnings,
        ["OSV record GONE could not be fetched; audit results may be incomplete"]
    );
    assert_eq!(
        *asked.borrow(),
        [
            "https://api.osv.dev/v1/vulns/GHSA-jf85-cpcp-j695",
            "https://api.osv.dev/v1/vulns/GONE"
        ]
    );
}

#[test]
fn an_unanswered_page_fails_the_query() {
    let fetch = |_: &str| -> Result<Vec<u8>, String> { panic!("nothing is fetched") };
    let unreachable = "OSV querybatch endpoint unreachable or returned no usable data";
    let refused = |_: &str, _: &[u8]| -> Result<Vec<u8>, String> { Err("refused".into()) };
    assert_eq!(
        run(vec![component("a", "1.0.0")], refused, fetch).unwrap_err(),
        unreachable
    );
    let garbage = |_: &str, _: &[u8]| -> Result<Vec<u8>, String> { Ok(b"<html>".to_vec()) };
    assert_eq!(
        run(vec![component("a", "1.0.0")], garbage, fetch).unwrap_err(),
        unreachable
    );
}

#[test]
fn nothing_is_asked_for_no_components() {
    let mut query = OsvSource.query(Vec::new());
    assert_eq!(
        query.next(None),
        QueryAction::Done(Ok((Vec::new(), Vec::new())))
    );
    assert!(!query.is_awaiting());
}
