//! The audit verb: what is loaded for a source, which advisory sources are asked, and what the
//! exit code says.

use crate::json::Json;
use crate::lockfile::{LockedPackage, LockedView};
use crate::manifest::{audit_roots, scaffold, upsert_dependency};
use crate::osv::{Advisory, AdvisoryView, Component, ComponentView, Severity};
use crate::registry::{Omission, Registry, Resolved, ResolvedView};
use crate::source::{contained_file, PathKind, Source};
use crate::text::{after_prefix, contains, is_listed, number_text, same, Text};
use vstd::prelude::*;
use vstd::string::*;

verus! {

// ---------------------------------------------------------------------------
// Flags
// ---------------------------------------------------------------------------

/// The least severity that makes an audit fail.
#[derive(Clone, Copy, Debug, PartialEq, Eq)]
pub enum AuditLevel {
    Low,
    Moderate,
    High,
    Critical,
}

/// How a report is printed.
#[derive(Clone, Copy, Debug, PartialEq, Eq)]
pub enum Format {
    Summary,
    Json,
}

/// An advisory source.
#[derive(Clone, Copy, Debug, PartialEq, Eq)]
pub enum SourceKind {
    Npm,
    Osv,
}

/// How bad a severity is.
pub open spec fn rank(severity: Severity) -> int {
    match severity {
        Severity::Low => 0,
        Severity::Moderate => 1,
        Severity::High => 2,
        Severity::Critical => 3,
    }
}

impl AuditLevel {
    /// The level as a severity.
    pub fn severity(self) -> (r: Severity)
        ensures
            r == (match self {
                AuditLevel::Low => Severity::Low,
                AuditLevel::Moderate => Severity::Moderate,
                AuditLevel::High => Severity::High,
                AuditLevel::Critical => Severity::Critical,
            }),
    {
        match self {
            AuditLevel::Low => Severity::Low,
            AuditLevel::Moderate => Severity::Moderate,
            AuditLevel::High => Severity::High,
            AuditLevel::Critical => Severity::Critical,
        }
    }
}

fn rank_of(severity: Severity) -> (r: u8)
    ensures
        r == rank(severity),
{
    match severity {
        Severity::Low => 0,
        Severity::Moderate => 1,
        Severity::High => 2,
        Severity::Critical => 3,
    }
}

/// A finding of this severity trips `level`; one whose severity is unknown trips every level.
pub open spec fn trips(severity: Option<Severity>, level: Severity) -> bool {
    match severity {
        Some(s) => rank(level) <= rank(s),
        None => true,
    }
}

/// Whether one of the findings trips `level`.
pub fn exceeds(findings: &Vec<Advisory>, level: Severity) -> (r: bool)
    ensures
        r == exists|i: int|
            0 <= i < findings@.len() && trips((#[trigger] findings@[i])@.severity, level),
{
    let mut i: usize = 0;
    while i < findings.len()
        invariant
            i <= findings@.len(),
            forall|k: int| 0 <= k < i ==> !trips((#[trigger] findings@[k])@.severity, level),
        decreases findings@.len() - i,
    {
        let tripped = match findings[i].severity {
            Some(s) => rank_of(level) <= rank_of(s),
            None => true,
        };
        if tripped {
            assert(trips(findings@[i as int]@.severity, level));
            return true;
        }
        i = i + 1;
    }
    false
}

/// The sources that are asked: those that were named, or npm and OSV when none was.
pub fn build_sources(named: Option<Vec<SourceKind>>) -> (r: Vec<SourceKind>)
    ensures
        r@ == (match named {
            Some(list) => if list@.len() > 0 {
                list@
            } else {
                seq![SourceKind::Npm, SourceKind::Osv]
            },
            None => seq![SourceKind::Npm, SourceKind::Osv],
        }),
{
    if let Some(list) = named {
        if list.len() > 0 {
            return list;
        }
    }
    let mut both: Vec<SourceKind> = Vec::new();
    both.push(SourceKind::Npm);
    both.push(SourceKind::Osv);
    assert(both@ == seq![SourceKind::Npm, SourceKind::Osv]);
    both
}

/// The registry's URL: the one that was given, or the public registry's.
pub fn registry_url(given: Option<String>) -> (r: String)
    ensures
        r@ == (match given {
            Some(url) => url@,
            None => "https://registry.npmjs.org"@,
        }),
{
    match given {
        Some(url) => url,
        None => "https://registry.npmjs.org".to_owned(),
    }
}

// ---------------------------------------------------------------------------
// The outcome
// ---------------------------------------------------------------------------

/// The exit code of an audit. When every source failed it did not run: it fails closed, unless
/// that is allowed. A finding at the level comes next; then dependencies that were not audited.
pub open spec fn exit_status(
    active: nat,
    failed: nat,
    tripped: bool,
    omissions: nat,
    allow_incomplete: bool,
) -> int {
    if active > 0 && failed == active && !allow_incomplete {
        2
    } else if tripped {
        1
    } else if omissions > 0 && !allow_incomplete {
        2
    } else {
        0
    }
}

/// The exit code of an audit: `failed` of `active` sources failed, `tripped` says that a finding
/// is at the level, and `omissions` dependencies were not audited.
pub fn exit_code(
    active: usize,
    failed: usize,
    tripped: bool,
    omissions: usize,
    allow_incomplete: bool,
) -> (r: i32)
    ensures
        r == exit_status(
            active as nat,
            failed as nat,
            tripped,
            omissions as nat,
            allow_incomplete,
        ),
{
    if active > 0 && failed == active && !allow_incomplete {
        2
    } else if tripped {
        1
    } else if omissions > 0 && !allow_incomplete {
        2
    } else {
        0
    }
}

/// The title of the task that asks a source.
pub fn source_title(name: &str) -> (r: String)
    ensures
        r@ == "querying "@ + name@ + " advisories"@,
{
    let mut out = "querying ".to_owned();
    out.append(name);
    out.append(" advisories");
    out
}

/// What a source gave.
pub open spec fn advisories_text(n: nat) -> Text {
    crate::text::decimal(n) + " advisor"@ + (if n == 1 {
        "y"@
    } else {
        "ies"@
    })
}

/// What a source gave.
pub fn advisories_summary(n: usize) -> (r: String)
    ensures
        r@ == advisories_text(n as nat),
{
    let mut out = number_text(n as u64);
    out.append(" advisor");
    if n == 1 {
        out.append("y");
    } else {
        out.append("ies");
    }
    out
}

// ---------------------------------------------------------------------------
// Components
// ---------------------------------------------------------------------------

/// A package's identifier across ecosystems; a scope's `@` is escaped in it.
pub open spec fn package_url(name: Text, version: Text) -> Text {
    "pkg:npm/"@ + (if crate::text::begins(name, "@"@) {
        "%40"@ + name.skip("@"@.len() as int)
    } else {
        name
    }) + "@"@ + version
}

fn purl(name: &str, version: &str) -> (r: String)
    ensures
        r@ == package_url(name@, version@),
{
    let mut out = "pkg:npm/".to_owned();
    match after_prefix(name, "@") {
        Some(rest) => {
            out.append("%40");
            out.append(rest.as_str());
            out.append("@");
            out.append(version);
            assert(out@ == package_url(name@, version@));
        },
        None => {
            out.append(name);
            out.append("@");
            out.append(version);
        },
    }
    out
}

/// `component` is the resolved package.
pub open spec fn is_resolved_component(component: Component, package: ResolvedView) -> bool {
    &&& component.name@ == package.name
    &&& component.version@ == package.version
    &&& component.purl@ == package_url(package.name, package.version)
    &&& crate::text::optional_text(component.license) == package.license
    &&& crate::text::optional_text(component.resolved) == Some(package.tarball_url)
    &&& crate::text::optional_text(component.integrity) == package.integrity
}

/// `list` are the resolved packages, in order.
pub open spec fn are_resolved_components(
    list: Seq<Component>,
    packages: Seq<ResolvedView>,
) -> bool {
    &&& list.len() == packages.len()
    &&& forall|i: int|
        0 <= i < list.len() ==> is_resolved_component(#[trigger] list[i], packages[i])
}

/// The resolved packages as components.
pub fn components_from_resolved(packages: &Vec<Resolved>) -> (r: Vec<Component>)
    ensures
        are_resolved_components(r@, crate::walk::package_views(packages@)),
{
    let ghost all = crate::walk::package_views(packages@);
    let mut list: Vec<Component> = Vec::new();
    let mut i: usize = 0;
    while i < packages.len()
        invariant
            i <= packages@.len(),
            list@.len() == i,
            all == crate::walk::package_views(packages@),
            forall|k: int| 0 <= k < i ==> is_resolved_component(#[trigger] list@[k], all[k]),
        decreases packages@.len() - i,
    {
        let package = &packages[i];
        assert(all[i as int] == package@);
        let component = Component {
            name: package.name.clone(),
            version: package.version.to_string(),
            purl: purl(package.name.as_str(), package.version.as_str()),
            license: package.license.clone(),
            resolved: Some(package.tarball_url.clone()),
            integrity: package.integrity.clone(),
        };
        assert(is_resolved_component(component, all[i as int]));
        list.push(component);
        i = i + 1;
    }
    list
}

/// The entry is a package that is installed: in some `node_modules`, and no link.
pub open spec fn is_pinned(package: LockedView) -> bool {
    !package.link && crate::text::first_occurrence(package.key, "node_modules/"@) is Some
}

/// `component` is the entry.
pub open spec fn is_locked_component(component: Component, package: LockedView) -> bool {
    &&& component.name@ == package.name
    &&& component.version@ == package.version
    &&& component.purl@ == package_url(package.name, package.version)
    &&& crate::text::optional_text(component.license) == package.license
    &&& crate::text::optional_text(component.resolved) == package.resolved
    &&& crate::text::optional_text(component.integrity) == package.integrity
}

/// `list` are the installed entries, in order.
pub open spec fn are_locked_components(list: Seq<Component>, packages: Seq<LockedView>) -> bool {
    let pinned = packages.filter(|p: LockedView| is_pinned(p));
    &&& list.len() == pinned.len()
    &&& forall|i: int| 0 <= i < list.len() ==> is_locked_component(#[trigger] list[i], pinned[i])
}

/// What a lockfile pins, as components: development dependencies and entries below workspaces
/// among them.
pub fn components_of_lockfile(packages: &Vec<LockedPackage>) -> (r: Vec<Component>)
    ensures
        are_locked_components(r@, crate::lockfile::locked_views(packages@)),
{
    let ghost all = crate::lockfile::locked_views(packages@);
    let ghost keep = |p: LockedView| is_pinned(p);
    let mut list: Vec<Component> = Vec::new();
    let mut i: usize = 0;
    assert(all.take(0).filter(keep).len() == 0) by {
        reveal(Seq::filter);
    }
    while i < packages.len()
        invariant
            i <= packages@.len(),
            all == crate::lockfile::locked_views(packages@),
            keep == (|p: LockedView| is_pinned(p)),
            list@.len() == all.take(i as int).filter(keep).len(),
            forall|k: int|
                0 <= k < list@.len() ==> is_locked_component(
                    #[trigger] list@[k],
                    all.take(i as int).filter(keep)[k],
                ),
        decreases packages@.len() - i,
    {
        let package = &packages[i];
        let ghost before = all.take(i as int).filter(keep);
        let ghost listed = list@;
        assert(all.take(i + 1).drop_last() == all.take(i as int));
        assert(all.take(i + 1).last() == package@);
        if !package.link && contains(package.key.as_str(), "node_modules/") {
            let component = Component {
                name: package.name.clone(),
                version: package.version.clone(),
                purl: purl(package.name.as_str(), package.version.as_str()),
                license: package.license.clone(),
                resolved: package.resolved.clone(),
                integrity: package.integrity.clone(),
            };
            assert(is_locked_component(component, package@));
            list.push(component);
        }
        proof {
            reveal(Seq::filter);
            let now = all.take(i + 1).filter(keep);
            assert forall|k: int| 0 <= k < list@.len() implies is_locked_component(
                #[trigger] list@[k],
                now[k],
            ) by {
                if k < listed.len() {
                    assert(list@[k] == listed[k]);
                    assert(now[k] == before[k]);
                }
            }
        }
        i = i + 1;
    }
    assert(all.take(i as int) == all);
    list
}

// ---------------------------------------------------------------------------
// Loading
// ---------------------------------------------------------------------------

/// What is loaded for a source.
#[derive(Debug, Clone, PartialEq, Eq)]
pub enum Load {
    /// The lockfile at this path.
    Lockfile(String),
    /// The manifest at this path.
    Manifest(String),
    /// The file at this path, whichever of the two it is.
    File(String),
    /// A package of the registry, in this range.
    Package { name: String, range: String },
}

/// The mathematical value of a [`Load`].
pub enum LoadView {
    Lockfile(Text),
    Manifest(Text),
    File(Text),
    Package(Text, Text),
}

impl View for Load {
    type V = LoadView;

    open spec fn view(&self) -> LoadView {
        match *self {
            Load::Lockfile(path) => LoadView::Lockfile(path@),
            Load::Manifest(path) => LoadView::Manifest(path@),
            Load::File(path) => LoadView::File(path@),
            Load::Package { name, range } => LoadView::Package(name@, range@),
        }
    }
}

/// What is loaded for a directory, given its lockfile and its manifest: the lockfile first.
pub open spec fn directory_load(
    dir: Text,
    lock: Result<Option<Text>, Text>,
    manifest: Result<Option<Text>, Text>,
) -> Result<LoadView, Text> {
    match lock {
        Err(message) => Err(message),
        Ok(Some(path)) => Ok(LoadView::Lockfile(path)),
        Ok(None) => match manifest {
            Err(message) => Err(message),
            Ok(Some(path)) => Ok(LoadView::Manifest(path)),
            Ok(None) => Err("no package-lock.json or package.json in "@ + dir),
        },
    }
}

/// `r` is what is loaded for `source`. The files of a directory must lie inside it; a file is
/// used as it is given; a package without a range is taken in any.
pub open spec fn is_load<
    F: Fn(&str) -> Result<PathKind, String>,
    G: Fn(&str) -> Result<String, String>,
>(
    probe: F,
    canonical: G,
    source: crate::source::SourceView,
    r: Result<LoadView, Text>,
) -> bool {
    match source {
        crate::source::SourceView::File(path) => r == Ok::<LoadView, Text>(LoadView::File(path)),
        crate::source::SourceView::Spec(name, range) => r == Ok::<LoadView, Text>(
            LoadView::Package(
                name,
                match range {
                    Some(range) => range,
                    None => "*"@,
                },
            ),
        ),
        crate::source::SourceView::Dir(dir) => exists|
            lock: Result<Option<Text>, Text>,
            manifest: Result<Option<Text>, Text>,
        |
            #[trigger] is_directory(probe, canonical, dir, lock, manifest) && r
                == directory_load(dir, lock, manifest),
    }
}

/// `lock` and `manifest` are what a directory holds; the manifest is looked for only where there
/// is no lockfile.
pub open spec fn is_directory<
    F: Fn(&str) -> Result<PathKind, String>,
    G: Fn(&str) -> Result<String, String>,
>(
    probe: F,
    canonical: G,
    dir: Text,
    lock: Result<Option<Text>, Text>,
    manifest: Result<Option<Text>, Text>,
) -> bool {
    &&& crate::source::finds_contained(probe, canonical, dir, "package-lock.json"@, lock)
    &&& lock == Ok::<Option<Text>, Text>(None) ==> crate::source::finds_contained(
        probe,
        canonical,
        dir,
        "package.json"@,
        manifest,
    )
}

/// The value of a result.
pub open spec fn load_result(r: Result<Load, String>) -> Result<LoadView, Text> {
    match r {
        Ok(load) => Ok(load@),
        Err(message) => Err(message@),
    }
}

/// What to load for `source`.
pub fn plan_load<
    F: Fn(&str) -> Result<PathKind, String>,
    G: Fn(&str) -> Result<String, String>,
>(source: Source, probe: &F, canonical: &G) -> (r: Result<Load, String>)
    requires
        forall|p: &str| #[trigger] call_requires(*probe, (p,)),
        forall|p: &str| #[trigger] call_requires(*canonical, (p,)),
    ensures
        is_load(*probe, *canonical, source@, load_result(r)),
{
    match source {
        Source::File(path) => Ok(Load::File(path)),
        Source::Spec { name, range } => {
            let range = match range {
                Some(range) => range,
                None => "*".to_owned(),
            };
            Ok(Load::Package { name, range })
        },
        Source::Dir(dir) => {
            let lock = contained_file(dir.as_str(), "package-lock.json", probe, canonical);
            let ghost locked = crate::source::file_outcome(lock);
            let ghost mut listed: Result<Option<Text>, Text> = Ok(None);
            let r = match lock {
                Err(message) => Err(message),
                Ok(Some(path)) => Ok(Load::Lockfile(path)),
                Ok(None) => {
                    let manifest = contained_file(
                        dir.as_str(),
                        "package.json",
                        probe,
                        canonical,
                    );
                    proof {
                        listed = crate::source::file_outcome(manifest);
                    }
                    match manifest {
                        Err(message) => Err(message),
                        Ok(Some(path)) => Ok(Load::Manifest(path)),
                        Ok(None) => {
                            let mut message =
                                "no package-lock.json or package.json in ".to_owned();
                            message.append(dir.as_str());
                            Err(message)
                        },
                    }
                },
            };
            assert(is_directory(*probe, *canonical, dir@, locked, listed));
            assert(load_result(r) == directory_load(dir@, locked, listed));
            r
        },
    }
}

/// A manifest that depends on one package.
pub open spec fn package_document(name: Text, range: Text) -> crate::json::JsonView {
    crate::manifest::with_dependency(
        crate::manifest::fresh_manifest("npm-utils-audit"@, "0.0.0"@),
        name,
        range,
    )
}

/// A manifest that depends on one package, so that auditing it audits what the package pulls in.
pub fn package_manifest(name: &str, range: &str) -> (r: Json)
    ensures
        r@ == package_document(name@, range@),
{
    upsert_dependency(scaffold("npm-utils-audit", "0.0.0"), name, range)
}

/// What is said of a manifest that does not parse.
pub open spec fn parse_fault(path: Text, cause: Text) -> Text {
    "parsing "@ + path + ": "@ + cause
}

/// Read the manifest at `path` from its text.
pub fn parse_manifest(path: &str, text: &str) -> (r: Result<Json, String>)
    ensures
        crate::registry::is_document(
            r,
            match crate::json::json_document(vstd::utf8::encode_utf8(text@)) {
                Ok(doc) => Ok(doc),
                Err(cause) => Err(parse_fault(path@, cause)),
            },
        ),
{
    match Json::parse(text.as_bytes()) {
        Ok(doc) => Ok(doc),
        Err(cause) => {
            let mut message = "parsing ".to_owned();
            message.append(path);
            message.append(": ");
            message.append(cause.as_str());
            Err(message)
        },
    }
}

/// `r` is what auditing a manifest covers: the packages of its resolved tree, and what it could
/// not follow, its own omissions first.
pub open spec fn is_coverage(
    base: Text,
    doc: crate::json::JsonView,
    documents: Seq<(Text, crate::walk::Reply)>,
    r: Result<(Vec<Component>, Vec<Omission>), String>,
) -> bool {
    match crate::manifest::audit_start(doc) {
        Err(fault) => r matches Err(message) && message@ == fault,
        Ok((edges, omissions)) => {
            let start = crate::walk::at_roots(
                base,
                crate::walk::nested_audit(),
                edges,
                documents,
            );
            exists|n: nat|
                #![trigger crate::walk::walked(start, n)]
                match crate::walk::walk_result(crate::walk::walked(start, n)) {
                    Some(Ok((packages, skipped))) => r matches Ok((components, listed))
                        && are_resolved_components(components@, packages)
                        && crate::registry::omission_views(listed@) == omissions + skipped,
                    Some(Err(fault)) => r matches Err(message) && message@ == fault,
                    None => false,
                }
        },
    }
}

/// Resolve a manifest's tree with all documents at hand: its packages as components, and what
/// could not be followed.
pub fn components_from_manifest(
    registry: &Registry,
    doc: &Json,
    documents: Vec<(String, Result<Json, String>)>,
) -> (r: Result<(Vec<Component>, Vec<Omission>), String>)
    ensures
        is_coverage(
            registry.base_url@,
            doc@,
            crate::walk::reply_views(documents@),
            r,
        ),
{
    match audit_roots(doc) {
        Err(message) => Err(message),
        Ok((edges, omissions)) => match registry.resolve_tree_nested_observed(edges, documents) {
            Err(message) => Err(message),
            Ok((packages, skipped)) => {
                let ghost first = omissions@;
                let ghost second = skipped@;
                let mut omissions = omissions;
                let mut skipped = skipped;
                omissions.append(&mut skipped);
                assert(crate::registry::omission_views(omissions@)
                    == crate::registry::omission_views(first) + crate::registry::omission_views(
                    second,
                ));
                Ok((components_from_resolved(&packages), omissions))
            },
        },
    }
}

// ---------------------------------------------------------------------------
// Findings
// ---------------------------------------------------------------------------

/// `advisory` is about `component`: it names the package, and its range covers the version.
pub open spec fn concerns(advisory: AdvisoryView, component: ComponentView) -> bool {
    &&& advisory.package == component.0
    &&& crate::dependency::covers(advisory.vulnerable_range, component.1)
}

/// `advisory` as found on `component`.
pub open spec fn found(advisory: AdvisoryView, component: ComponentView) -> AdvisoryView {
    AdvisoryView { matched_version: component.1, ..advisory }
}

/// Those of `advisories` that are about `component`, in order.
pub open spec fn findings_on(
    component: ComponentView,
    advisories: Seq<AdvisoryView>,
) -> Seq<AdvisoryView>
    decreases advisories.len(),
{
    if advisories.len() == 0 {
        Seq::empty()
    } else {
        let earlier = findings_on(component, advisories.drop_last());
        if concerns(advisories.last(), component) {
            earlier.push(found(advisories.last(), component))
        } else {
            earlier
        }
    }
}

/// What `advisories` say of `components`, component by component.
pub open spec fn findings_in(
    components: Seq<ComponentView>,
    advisories: Seq<AdvisoryView>,
) -> Seq<AdvisoryView>
    decreases components.len(),
{
    if components.len() == 0 {
        Seq::empty()
    } else {
        findings_in(components.drop_last(), advisories) + findings_on(
            components.last(),
            advisories,
        )
    }
}

fn add_findings(out: &mut Vec<Advisory>, component: &Component, advisories: &Vec<Advisory>)
    ensures
        crate::osv::advisory_views(final(out)@) == crate::osv::advisory_views(old(out)@)
            + findings_on(component@, crate::osv::advisory_views(advisories@)),
{
    let ghost all = crate::osv::advisory_views(advisories@);
    let ghost start = crate::osv::advisory_views(out@);
    let mut i: usize = 0;
    assert(all.take(0).len() == 0);
    assert(start + Seq::<AdvisoryView>::empty() == start);
    while i < advisories.len()
        invariant
            i <= advisories@.len(),
            all == crate::osv::advisory_views(advisories@),
            crate::osv::advisory_views(out@) == start + findings_on(component@, all.take(i as int)),
        decreases advisories@.len() - i,
    {
        let advisory = &advisories[i];
        let ghost before = out@;
        assert(all.take(i + 1).drop_last() == all.take(i as int));
        assert(all.take(i + 1).last() == advisory@);
        if same(advisory.package.as_str(), component.name.as_str()) && advisory.applies_to(
            component.version.as_str(),
        ) {
            let mut finding = advisory.clone();
            finding.matched_version = component.version.clone();
            assert(finding@ == found(advisory@, component@));
            out.push(finding);
            assert(crate::osv::advisory_views(out@) == crate::osv::advisory_views(before).push(
                finding@,
            ));
            assert(crate::osv::advisory_views(out@) == start + findings_on(
                component@,
                all.take(i as int),
            ).push(finding@));
        }
        i = i + 1;
    }
    assert(all.take(i as int) == all);
}

/// The findings: each advisory on each installed version that it is about. Every version counts
/// where several of one package are installed.
pub fn findings(components: &Vec<Component>, advisories: &Vec<Advisory>) -> (r: Vec<Advisory>)
    ensures
        crate::osv::advisory_views(r@) == findings_in(
            crate::osv::component_views(components@),
            crate::osv::advisory_views(advisories@),
        ),
{
    let ghost all = crate::osv::component_views(components@);
    let ghost told = crate::osv::advisory_views(advisories@);
    let mut out: Vec<Advisory> = Vec::new();
    let mut i: usize = 0;
    assert(all.take(0).len() == 0);
    assert(crate::osv::advisory_views(out@) == Seq::<AdvisoryView>::empty());
    while i < components.len()
        invariant
            i <= components@.len(),
            all == crate::osv::component_views(components@),
            told == crate::osv::advisory_views(advisories@),
            crate::osv::advisory_views(out@) == findings_in(all.take(i as int), told),
        decreases components@.len() - i,
    {
        assert(all.take(i + 1).drop_last() == all.take(i as int));
        assert(all.take(i + 1).last() == components@[i as int]@);
        add_findings(&mut out, &components[i], advisories);
        i = i + 1;
    }
    assert(all.take(i as int) == all);
    out
}

/// `advisory` goes by `name`: that is its id or one of its aliases.
pub open spec fn goes_by(advisory: AdvisoryView, name: Text) -> bool {
    advisory.id == name || advisory.aliases.contains(name)
}

/// The two report one vulnerability of one installed package: they are about the same package,
/// matched with the same version, and share an id or alias.
pub open spec fn is_same_finding(a: AdvisoryView, b: AdvisoryView) -> bool {
    &&& a.package == b.package
    &&& a.matched_version == b.matched_version
    &&& exists|name: Text| #[trigger] goes_by(a, name) && goes_by(b, name)
}

/// One of `list` reports the same as `finding`.
pub open spec fn is_reported(list: Seq<AdvisoryView>, finding: AdvisoryView) -> bool {
    exists|i: int| 0 <= i < list.len() && #[trigger] is_same_finding(list[i], finding)
}

/// `list` without what was already reported; the first report is kept.
pub open spec fn deduped(list: Seq<AdvisoryView>) -> Seq<AdvisoryView>
    decreases list.len(),
{
    if list.len() == 0 {
        Seq::empty()
    } else {
        let earlier = deduped(list.drop_last());
        if is_reported(earlier, list.last()) {
            earlier
        } else {
            earlier.push(list.last())
        }
    }
}

fn is_named(advisory: &Advisory, name: &str) -> (r: bool)
    ensures
        r == goes_by(advisory@, name@),
{
    same(advisory.id.as_str(), name) || is_listed(&advisory.aliases, name)
}

fn share_a_name(a: &Advisory, b: &Advisory) -> (r: bool)
    ensures
        r == exists|name: Text| #[trigger] goes_by(a@, name) && goes_by(b@, name),
{
    if is_named(b, a.id.as_str()) {
        assert(goes_by(a@, a.id@));
        return true;
    }
    let ghost aliases = crate::text::texts(a.aliases@);
    let mut i: usize = 0;
    while i < a.aliases.len()
        invariant
            i <= a.aliases@.len(),
            aliases == crate::text::texts(a.aliases@),
            aliases == a@.aliases,
            !goes_by(b@, a@.id),
            forall|k: int| 0 <= k < i ==> !goes_by(b@, #[trigger] aliases[k]),
        decreases a.aliases@.len() - i,
    {
        if is_named(b, a.aliases[i].as_str()) {
            assert(aliases[i as int] == a.aliases@[i as int]@);
            assert(goes_by(a@, aliases[i as int]));
            return true;
        }
        assert(!goes_by(b@, aliases[i as int]));
        i = i + 1;
    }
    false
}

/// Keep one report of each vulnerability of each installed package, the first: sources that know
/// a vulnerability under the same id or alias report it together.
pub fn dedup_advisories(list: Vec<Advisory>) -> (r: Vec<Advisory>)
    ensures
        crate::osv::advisory_views(r@) == deduped(crate::osv::advisory_views(list@)),
{
    let ghost all = crate::osv::advisory_views(list@);
    let mut out: Vec<Advisory> = Vec::new();
    let mut i: usize = 0;
    assert(all.take(0).len() == 0);
    assert(crate::osv::advisory_views(out@) == Seq::<AdvisoryView>::empty());
    while i < list.len()
        invariant
            i <= list@.len(),
            all == crate::osv::advisory_views(list@),
            crate::osv::advisory_views(out@) == deduped(all.take(i as int)),
        decreases list@.len() - i,
    {
        let finding = &list[i];
        let ghost kept = crate::osv::advisory_views(out@);
        assert(all.take(i + 1).drop_last() == all.take(i as int));
        assert(all.take(i + 1).last() == finding@);
        let mut known = false;
        let mut k: usize = 0;
        while k < out.len() && !known
            invariant
                k <= out@.len(),
                kept == crate::osv::advisory_views(out@),
                known ==> is_reported(kept, finding@),
                !known ==> forall|j: int|
                    0 <= j < k ==> !#[trigger] is_same_finding(kept[j], finding@),
            decreases out@.len() - k,
        {
            let earlier = &out[k];
            assert(kept[k as int] == earlier@);
            known = same(earlier.package.as_str(), finding.package.as_str()) && same(
                earlier.matched_version.as_str(),
                finding.matched_version.as_str(),
            ) && share_a_name(earlier, finding);
            assert(known == is_same_finding(kept[k as int], finding@));
            k = k + 1;
        }
        if !known {
            let copy = finding.clone();
            out.push(copy);
            assert(crate::osv::advisory_views(out@) == kept.push(finding@));
        }
        i = i + 1;
    }
    assert(all.take(i as int) == all);
    out
}

// ---------------------------------------------------------------------------
// Laws
// ---------------------------------------------------------------------------

/// An audit that is incomplete never exits clean, unless that is allowed: not when every source
/// failed, and not when a dependency was left out.
pub proof fn law_incomplete_audits_fail_closed(
    active: nat,
    failed: nat,
    tripped: bool,
    omissions: nat,
)
    requires
        active > 0 && failed == active || omissions > 0,
    ensures
        exit_status(active, failed, tripped, omissions, false) != 0,
{
}

/// A finding fails the audit, whatever is allowed.
pub proof fn law_findings_fail_the_audit(
    active: nat,
    failed: nat,
    omissions: nat,
    allow_incomplete: bool,
)
    ensures
        exit_status(active, failed, true, omissions, allow_incomplete) != 0,
{
}

/// A finding takes precedence over what was left out.
pub proof fn law_findings_come_before_omissions(active: nat, failed: nat, omissions: nat)
    requires
        failed < active,
    ensures
        exit_status(active, failed, true, omissions, false) == 1,
{
}

/// A lower level fails on whatever a higher one fails on.
pub proof fn law_lower_levels_are_stricter(
    severity: Option<Severity>,
    lower: Severity,
    higher: Severity,
)
    requires
        rank(lower) <= rank(higher),
        trips(severity, higher),
    ensures
        trips(severity, lower),
{
}

/// Nothing that applies is lost: an advisory about an installed version is a finding on it.
pub proof fn law_advisories_that_apply_are_findings(
    components: Seq<ComponentView>,
    advisories: Seq<AdvisoryView>,
    c: int,
    a: int,
)
    requires
        0 <= c < components.len(),
        0 <= a < advisories.len(),
        concerns(advisories[a], components[c]),
    ensures
        findings_in(components, advisories).contains(found(advisories[a], components[c])),
    decreases components.len(),
{
    let earlier = findings_in(components.drop_last(), advisories);
    let last = findings_on(components.last(), advisories);
    let wanted = found(advisories[a], components[c]);
    if c < components.len() - 1 {
        law_advisories_that_apply_are_findings(components.drop_last(), advisories, c, a);
        let i = earlier.index_of(wanted);
        assert((earlier + last)[i] == wanted);
    } else {
        lemma_finding_on(components[c], advisories, a);
        let i = last.index_of(wanted);
        assert((earlier + last)[earlier.len() + i] == wanted);
    }
}

proof fn lemma_finding_on(component: ComponentView, advisories: Seq<AdvisoryView>, a: int)
    requires
        0 <= a < advisories.len(),
        concerns(advisories[a], component),
    ensures
        findings_on(component, advisories).contains(found(advisories[a], component)),
    decreases advisories.len(),
{
    let earlier = findings_on(component, advisories.drop_last());
    let wanted = found(advisories[a], component);
    if a < advisories.len() - 1 {
        lemma_finding_on(component, advisories.drop_last(), a);
        let i = earlier.index_of(wanted);
        assert(findings_on(component, advisories)[i] == wanted);
    } else {
        assert(findings_on(component, advisories)[earlier.len() as int] == wanted);
    }
}

/// No false alarm: a finding is an advisory about a version that is installed.
pub proof fn law_findings_apply(
    components: Seq<ComponentView>,
    advisories: Seq<AdvisoryView>,
    i: int,
)
    requires
        0 <= i < findings_in(components, advisories).len(),
    ensures
        exists|c: int, a: int|
            0 <= c < components.len() && 0 <= a < advisories.len() && #[trigger] concerns(
                advisories[a],
                components[c],
            ) && findings_in(components, advisories)[i] == found(advisories[a], components[c]),
    decreases components.len(),
{
    let shorter = components.drop_last();
    let earlier = findings_in(shorter, advisories);
    if i < earlier.len() {
        law_findings_apply(shorter, advisories, i);
        let (c, a) = choose|c: int, a: int|
            0 <= c < shorter.len() && 0 <= a < advisories.len() && #[trigger] concerns(
                advisories[a],
                shorter[c],
            ) && earlier[i] == found(advisories[a], shorter[c]);
        assert(concerns(advisories[a], components[c]));
    } else {
        lemma_findings_on_apply(components.last(), advisories, i - earlier.len());
        let a = choose|a: int|
            0 <= a < advisories.len() && #[trigger] concerns(advisories[a], components.last())
                && findings_on(components.last(), advisories)[i - earlier.len()] == found(
                advisories[a],
                components.last(),
            );
        assert(concerns(advisories[a], components[components.len() - 1]));
    }
}

proof fn lemma_findings_on_apply(
    component: ComponentView,
    advisories: Seq<AdvisoryView>,
    i: int,
)
    requires
        0 <= i < findings_on(component, advisories).len(),
    ensures
        exists|a: int|
            0 <= a < advisories.len() && #[trigger] concerns(advisories[a], component)
                && findings_on(component, advisories)[i] == found(advisories[a], component),
    decreases advisories.len(),
{
    let shorter = advisories.drop_last();
    let earlier = findings_on(component, shorter);
    if i < earlier.len() {
        lemma_findings_on_apply(component, shorter, i);
        let a = choose|a: int|
            0 <= a < shorter.len() && #[trigger] concerns(shorter[a], component) && earlier[i]
                == found(shorter[a], component);
        assert(concerns(advisories[a], component));
    } else {
        assert(concerns(advisories[advisories.len() - 1], component));
    }
}

/// No vulnerability of an installed package is reported twice.
pub proof fn law_no_finding_is_reported_twice(list: Seq<AdvisoryView>, i: int, j: int)
    requires
        0 <= i < j < deduped(list).len(),
    ensures
        !is_same_finding(deduped(list)[i], deduped(list)[j]),
    decreases list.len(),
{
    let earlier = deduped(list.drop_last());
    if j < earlier.len() {
        law_no_finding_is_reported_twice(list.drop_last(), i, j);
    } else {
        assert(deduped(list)[i] == earlier[i]);
        assert(!is_reported(earlier, list.last()));
    }
}

/// Every finding is reported: by itself, or by an earlier report of the same vulnerability. One
/// that is the first of its vulnerability is kept as it is.
pub proof fn law_every_finding_is_reported(list: Seq<AdvisoryView>, i: int)
    requires
        0 <= i < list.len(),
    ensures
        is_reported(deduped(list), list[i]),
        (forall|k: int| 0 <= k < i ==> !#[trigger] is_same_finding(list[k], list[i]))
            ==> deduped(list).contains(list[i]),
    decreases list.len(),
{
    let shorter = list.drop_last();
    let earlier = deduped(shorter);
    let now = deduped(list);
    if i < shorter.len() {
        law_every_finding_is_reported(shorter, i);
        assert(shorter[i] == list[i]);
        let k = choose|k: int|
            0 <= k < earlier.len() && #[trigger] is_same_finding(earlier[k], list[i]);
        assert(now[k] == earlier[k]);
        assert(is_same_finding(now[k], list[i]));
        if forall|m: int| 0 <= m < i ==> !#[trigger] is_same_finding(list[m], list[i]) {
            assert forall|m: int| 0 <= m < i implies !#[trigger] is_same_finding(
                shorter[m],
                shorter[i],
            ) by {
                assert(!is_same_finding(list[m], list[i]));
            }
            let at = choose|at: int| 0 <= at < earlier.len() && earlier[at] == list[i];
            assert(now[at] == list[i]);
        }
    } else if is_reported(earlier, list[i]) {
        let k = choose|k: int|
            0 <= k < earlier.len() && #[trigger] is_same_finding(earlier[k], list[i]);
        assert(now == earlier);
        lemma_deduped_is_from(shorter, k);
        let m = choose|m: int| 0 <= m < shorter.len() && shorter[m] == earlier[k];
        assert(is_same_finding(list[m], list[i]));
    } else {
        let at = earlier.len() as int;
        assert(now[at] == list[i]);
        assert(goes_by(list[i], list[i].id));
        assert(is_same_finding(now[at], list[i]));
    }
}

proof fn lemma_deduped_is_from(list: Seq<AdvisoryView>, k: int)
    requires
        0 <= k < deduped(list).len(),
    ensures
        exists|m: int| 0 <= m < list.len() && list[m] == deduped(list)[k],
    decreases list.len(),
{
    let earlier = deduped(list.drop_last());
    if k < earlier.len() {
        lemma_deduped_is_from(list.drop_last(), k);
        let m = choose|m: int| 0 <= m < list.len() - 1 && list.drop_last()[m] == earlier[k];
        assert(list[m] == deduped(list)[k]);
    } else {
        assert(list[list.len() - 1] == deduped(list)[k]);
    }
}

/// Every exit code, and when it comes: 2 where the audit did not run or did not cover all, and
/// that is not allowed; 1 on findings; 0 on neither. Only an audit that did not run at all keeps
/// findings from deciding.
pub proof fn law_exit_codes(
    active: nat,
    failed: nat,
    tripped: bool,
    omissions: nat,
    allow_incomplete: bool,
)
    ensures
        ({
            let code = exit_status(active, failed, tripped, omissions, allow_incomplete);
            let silent = active > 0 && failed == active;
            &&& code == 0 <==> !tripped && (allow_incomplete || !silent && omissions == 0)
            &&& code == 1 <==> tripped && (allow_incomplete || !silent)
            &&& code == 2 <==> !allow_incomplete && (silent || !tripped && omissions > 0)
        }),
{
}

/// A level fails on its own severity and all above it, and on none below it; whatever has no
/// known severity fails on every level.
pub proof fn law_levels_fail_upwards(severity: Severity, level: Severity)
    ensures
        trips(None, level),
        trips(Some(severity), level) <==> (match level {
            Severity::Low => true,
            Severity::Moderate => severity != Severity::Low,
            Severity::High => severity == Severity::High || severity == Severity::Critical,
            Severity::Critical => severity == Severity::Critical,
        }),
{
}

/// A package's identifier spells the name and the version; of a scoped name the `@` is escaped,
/// the rest stands as it is.
pub proof fn law_package_urls_spell_the_package(name: Text, rest: Text, version: Text)
    requires
        name.len() == 0 || name[0] != '@',
    ensures
        package_url(name, version) == "pkg:npm/"@ + name + "@"@ + version,
        package_url(seq!['@'] + rest, version) == "pkg:npm/%40"@ + rest + "@"@ + version,
{
    reveal_strlit("@");
    reveal_strlit("pkg:npm/");
    reveal_strlit("%40");
    reveal_strlit("pkg:npm/%40");
    let scoped = seq!['@'] + rest;
    assert("@"@ =~= seq!['@']);
    assert(scoped.take(1) =~= "@"@);
    assert(scoped.skip(1) =~= rest);
    assert(crate::text::begins(scoped, "@"@));
    if crate::text::begins(name, "@"@) {
        assert(name.take(1)[0] == '@');
    }
    assert(package_url(scoped, version) =~= "pkg:npm/%40"@ + rest + "@"@ + version);
}

/// One advisory is counted in the singular, any other number in the plural.
pub proof fn law_advisories_are_counted(n: nat)
    ensures
        advisories_text(1) == crate::text::decimal(1) + " advisory"@,
        n != 1 ==> advisories_text(n) == crate::text::decimal(n) + " advisories"@,
{
    reveal_strlit(" advisor");
    reveal_strlit("y");
    reveal_strlit("ies");
    reveal_strlit(" advisory");
    reveal_strlit(" advisories");
    assert(" advisor"@ + "y"@ =~= " advisory"@);
    assert(" advisor"@ + "ies"@ =~= " advisories"@);
    assert(advisories_text(1) =~= crate::text::decimal(1) + " advisory"@);
    assert(n != 1 ==> advisories_text(n) =~= crate::text::decimal(n) + " advisories"@);
}

/// The components of a resolved tree are its packages, one by one, each with all that is known of
/// it.
pub proof fn law_resolved_packages_are_components(
    list: Seq<Component>,
    packages: Seq<ResolvedView>,
    i: int,
)
    requires
        are_resolved_components(list, packages),
        0 <= i < packages.len(),
    ensures
        list.len() == packages.len(),
        list[i].name@ == packages[i].name,
        list[i].version@ == packages[i].version,
        list[i].purl@ == package_url(packages[i].name, packages[i].version),
        match packages[i].license {
            Some(license) => list[i].license matches Some(held) && held@ == license,
            None => list[i].license is None,
        },
        list[i].resolved matches Some(held) && held@ == packages[i].tarball_url,
        match packages[i].integrity {
            Some(integrity) => list[i].integrity matches Some(held) && held@ == integrity,
            None => list[i].integrity is None,
        },
{
    assert(is_resolved_component(list[i], packages[i]));
}

/// The components of a lockfile are its entries that lie in some `node_modules` and are no links,
/// in order, each with all that is known of it. No other entry is one.
pub proof fn law_locked_packages_are_components(
    list: Seq<Component>,
    packages: Seq<LockedView>,
    i: int,
)
    requires
        are_locked_components(list, packages),
        0 <= i < list.len(),
    ensures
        ({
            let pinned = packages.filter(
                |p: LockedView|
                    !p.link && exists|k: int|
                        0 <= k <= p.key.len() - "node_modules/"@.len() && #[trigger] p.key.subrange(
                            k,
                            k + "node_modules/"@.len(),
                        ) == "node_modules/"@,
            );
            &&& list.len() == pinned.len()
            &&& list[i].name@ == pinned[i].name
            &&& list[i].version@ == pinned[i].version
            &&& list[i].purl@ == package_url(pinned[i].name, pinned[i].version)
            &&& match pinned[i].license {
                Some(license) => list[i].license matches Some(held) && held@ == license,
                None => list[i].license is None,
            }
            &&& match pinned[i].resolved {
                Some(resolved) => list[i].resolved matches Some(held) && held@ == resolved,
                None => list[i].resolved is None,
            }
            &&& match pinned[i].integrity {
                Some(integrity) => list[i].integrity matches Some(held) && held@ == integrity,
                None => list[i].integrity is None,
            }
        }),
{
    let stated = |p: LockedView|
        !p.link && exists|k: int|
            0 <= k <= p.key.len() - "node_modules/"@.len() && #[trigger] p.key.subrange(
                k,
                k + "node_modules/"@.len(),
            ) == "node_modules/"@;
    let used = |p: LockedView| is_pinned(p);
    assert forall|p: LockedView| #[trigger] stated(p) == used(p) by {
        crate::text::law_first_occurrences(p.key, "node_modules/"@);
    }
    crate::lockfile_laws::lemma_filters_agree(packages, stated, used);
    assert(is_locked_component(list[i], packages.filter(used)[i]));
}

/// Of a directory the lockfile is loaded where there is one, else the manifest; without either it
/// is refused, and so it is where the one that would be loaded is.
pub proof fn law_lockfiles_come_first(
    dir: Text,
    lock: Text,
    manifest: Text,
    fault: Text,
    any: Result<Option<Text>, Text>,
)
    ensures
        directory_load(dir, Ok(Some(lock)), any) == Ok::<LoadView, Text>(LoadView::Lockfile(lock)),
        directory_load(dir, Ok(None), Ok(Some(manifest))) == Ok::<LoadView, Text>(
            LoadView::Manifest(manifest),
        ),
        directory_load(dir, Err(fault), any) == Err::<LoadView, Text>(fault),
        directory_load(dir, Ok(None), Err(fault)) == Err::<LoadView, Text>(fault),
        directory_load(dir, Ok(None), Ok(None)) == Err::<LoadView, Text>(
            "no package-lock.json or package.json in "@ + dir,
        ),
{
}

/// An advisory is about a component exactly where it names the package and some alternative of its
/// range admits the version.
pub proof fn law_advisories_concern_versions_in_range(
    advisory: AdvisoryView,
    component: ComponentView,
)
    ensures
        concerns(advisory, component) <==> advisory.package == component.0
            && crate::version::is_version(component.1) && match crate::dependency::range_of(
            advisory.vulnerable_range,
        ) {
            Ok(range) => exists|k: int|
                0 <= k < range.len() && crate::version::admits(#[trigger] range[k], component.1),
            Err(_) => false,
        },
{
}

/// The findings are, component by component and for each in the order of the advisories, all the
/// advisories about it; each is the advisory as it came, with the component's version noted.
pub proof fn law_findings_are_all_that_apply(
    components: Seq<ComponentView>,
    advisories: Seq<AdvisoryView>,
)
    ensures
        findings_in(components, advisories) == components.map_values(
            |component: ComponentView|
                advisories.filter_map(
                    |advisory: AdvisoryView|
                        if concerns(advisory, component) {
                            Some(AdvisoryView { matched_version: component.1, ..advisory })
                        } else {
                            None
                        },
                ),
        ).flatten(),
    decreases components.len(),
{
    let on = |component: ComponentView|
        advisories.filter_map(
            |advisory: AdvisoryView|
                if concerns(advisory, component) {
                    Some(AdvisoryView { matched_version: component.1, ..advisory })
                } else {
                    None
                },
        );
    let lists = components.map_values(on);
    if components.len() > 0 {
        let shorter = components.drop_last();
        law_findings_are_all_that_apply(shorter, advisories);
        lemma_findings_on_are_all(components.last(), advisories);
        assert(lists.drop_last() =~= shorter.map_values(on));
        lists.lemma_flatten_and_flatten_alt_are_equivalent();
        lists.drop_last().lemma_flatten_and_flatten_alt_are_equivalent();
        assert(lists.last() == on(components.last()));
    } else {
        assert(lists =~= Seq::empty());
    }
}

proof fn lemma_findings_on_are_all(component: ComponentView, advisories: Seq<AdvisoryView>)
    ensures
        findings_on(component, advisories) == advisories.filter_map(
            |advisory: AdvisoryView|
                if concerns(advisory, component) {
                    Some(AdvisoryView { matched_version: component.1, ..advisory })
                } else {
                    None
                },
        ),
    decreases advisories.len(),
{
    if advisories.len() > 0 {
        lemma_findings_on_are_all(component, advisories.drop_last());
    }
}

/// Two findings are the same where they are about one package at one version, and an id or alias
/// of the one is an id or alias of the other.
pub proof fn law_same_findings_share_a_name(a: AdvisoryView, b: AdvisoryView)
    ensures
        is_same_finding(a, b) <==> a.package == b.package && a.matched_version
            == b.matched_version && (a.id == b.id || b.aliases.contains(a.id)
            || a.aliases.contains(b.id) || exists|i: int|
            0 <= i < a.aliases.len() && b.aliases.contains(#[trigger] a.aliases[i])),
{
    if is_same_finding(a, b) {
        let name = choose|name: Text| #[trigger] goes_by(a, name) && goes_by(b, name);
        if name != a.id && name != b.id {
            let i = choose|i: int| 0 <= i < a.aliases.len() && a.aliases[i] == name;
            assert(b.aliases.contains(a.aliases[i]));
        }
    } else if a.package == b.package && a.matched_version == b.matched_version {
        assert(goes_by(a, a.id) && goes_by(b, b.id));
        assert(!goes_by(b, a.id) && !goes_by(a, b.id));
        assert forall|i: int| 0 <= i < a.aliases.len() implies !b.aliases.contains(
            #[trigger] a.aliases[i],
        ) by {
            assert(a.aliases.contains(a.aliases[i]));
            assert(goes_by(a, a.aliases[i]));
            assert(!goes_by(b, a.aliases[i]));
        }
    }
}

/// What is reported was found, and is reported in the order in which it was found.
pub proof fn law_reports_keep_their_order(list: Seq<AdvisoryView>, i: int, j: int)
    requires
        0 <= i < j < deduped(list).len(),
    ensures
        exists|a: int, b: int|
            #![trigger list[a], list[b]]
            0 <= a < b < list.len() && deduped(list)[i] == list[a] && deduped(list)[j] == list[b],
    decreases list.len(),
{
    let shorter = list.drop_last();
    let earlier = deduped(shorter);
    if j < earlier.len() {
        law_reports_keep_their_order(shorter, i, j);
        let (a, b) = choose|a: int, b: int|
            #![trigger shorter[a], shorter[b]]
            0 <= a < b < shorter.len() && earlier[i] == shorter[a] && earlier[j] == shorter[b];
        assert(list[a] == shorter[a] && list[b] == shorter[b]);
    } else {
        law_reports_were_found(shorter, i);
        let a = choose|a: int| 0 <= a < shorter.len() && #[trigger] shorter[a] == earlier[i];
        assert(list[a] == earlier[i] && list[list.len() - 1] == deduped(list)[j]);
    }
}

/// What is reported was found.
pub proof fn law_reports_were_found(list: Seq<AdvisoryView>, i: int)
    requires
        0 <= i < deduped(list).len(),
    ensures
        exists|a: int| 0 <= a < list.len() && #[trigger] list[a] == deduped(list)[i],
    decreases list.len(),
{
    let shorter = list.drop_last();
    let earlier = deduped(shorter);
    if i < earlier.len() {
        law_reports_were_found(shorter, i);
        let a = choose|a: int| 0 <= a < shorter.len() && #[trigger] shorter[a] == earlier[i];
        assert(list[a] == earlier[i]);
    } else {
        assert(list[list.len() - 1] == deduped(list)[i]);
    }
}

/// Where no two findings are the same, all of them are reported, as they are.
pub proof fn law_different_findings_are_all_reported(list: Seq<AdvisoryView>)
    requires
        forall|i: int, j: int|
            0 <= i < j < list.len() ==> !is_same_finding(#[trigger] list[i], #[trigger] list[j]),
    ensures
        deduped(list) == list,
    decreases list.len(),
{
    if list.len() > 0 {
        let shorter = list.drop_last();
        assert forall|i: int, j: int| 0 <= i < j < shorter.len() implies !is_same_finding(
            #[trigger] shorter[i],
            #[trigger] shorter[j],
        ) by {
            assert(list[i] == shorter[i] && list[j] == shorter[j]);
        }
        law_different_findings_are_all_reported(shorter);
        if is_reported(shorter, list.last()) {
            let i = choose|i: int|
                0 <= i < shorter.len() && #[trigger] is_same_finding(shorter[i], list.last());
            assert(list[i] == shorter[i] && list[list.len() - 1] == list.last());
        }
        assert(shorter.push(list.last()) =~= list);
    }
}

/// An audit of one package starts at a manifest that asks for that package in that range, and for
/// nothing else.
pub proof fn law_one_package_is_audited(name: Text, range: Text)
    ensures
        crate::json::as_members(
            crate::json::member(package_document(name, range), "dependencies"@),
        ) == Some(seq![(name, crate::json::JsonView::Text(range))]),
        crate::json::member(package_document(name, range), "optionalDependencies"@) is None,
        crate::json::member(package_document(name, range), "workspaces"@) is None,
{
    reveal_strlit("name");
    reveal_strlit("version");
    reveal_strlit("dependencies");
    reveal_strlit("optionalDependencies");
    reveal_strlit("workspaces");
    assert("name"@.len() == 4 && "version"@.len() == 7);
    assert("dependencies"@.len() == 12 && "optionalDependencies"@.len() == 20);
    assert("workspaces"@.len() == 10);
    let fresh = crate::manifest::fresh_manifest("npm-utils-audit"@, "0.0.0"@);
    crate::manifest::law_fresh_manifests_are_plain("npm-utils-audit"@, "0.0.0"@, "dependencies"@);
    crate::manifest::law_fresh_manifests_are_plain(
        "npm-utils-audit"@,
        "0.0.0"@,
        "optionalDependencies"@,
    );
    crate::manifest::law_fresh_manifests_are_plain("npm-utils-audit"@, "0.0.0"@, "workspaces"@);
    crate::manifest::law_recording_leaves_the_rest(fresh, name, range, "optionalDependencies"@);
    crate::manifest::law_recording_leaves_the_rest(fresh, name, range, "workspaces"@);
    crate::manifest::law_dependencies_are_recorded(fresh, name, range);
    assert(crate::manifest::with_member(
        Seq::empty(),
        name,
        crate::json::JsonView::Text(range),
    ) =~= seq![(name, crate::json::JsonView::Text(range))]);
}

/// An audit covers every dependency that a manifest declares. One that reads as a range of a
/// package has a version among the components, or, where it is optional, an omission; what cannot
/// be followed is listed.
pub proof fn law_audits_cover_every_dependency(
    base: Text,
    doc: crate::json::JsonView,
    documents: Seq<(Text, crate::walk::Reply)>,
    r: Result<(Vec<Component>, Vec<Omission>), String>,
    d: int,
)
    requires
        is_coverage(base, doc, documents, r),
        r is Ok,
        0 <= d < crate::registry::dependencies_in(Some(doc), true).len(),
    ensures
        ({
            let dep = crate::registry::dependencies_in(Some(doc), true)[d];
            let components = r->Ok_0.0@;
            let listed = crate::registry::omission_views(r->Ok_0.1@);
            match crate::registry::edge_action(dep.0, dep.1) {
                Ok(crate::registry::EdgeActionView::Resolve(name, range)) => {
                    ||| has_component(components, name, range)
                    ||| dep.2 && crate::walk_laws::has_omission(listed, name)
                },
                Ok(crate::registry::EdgeActionView::Omit(omission)) => listed.contains(omission),
                Err(_) => false,
            }
        }),
{
    let deps = crate::registry::dependencies_in(Some(doc), true);
    let dep = deps[d];
    crate::manifest::law_every_dependency_is_a_root(deps);
    let (edges, omissions) = crate::manifest::audit_start(doc)->Ok_0;
    let (roots, skipped_roots) = crate::manifest::roots_of(deps)->Ok_0;
    let start = crate::walk::at_roots(base, crate::walk::nested_audit(), edges, documents);
    let n = choose|n: nat|
        #![trigger crate::walk::walked(start, n)]
        match crate::walk::walk_result(crate::walk::walked(start, n)) {
            Some(Ok((packages, skipped))) => r matches Ok((components, listed))
                && are_resolved_components(components@, packages)
                && crate::registry::omission_views(listed@) == omissions + skipped,
            Some(Err(fault)) => r matches Err(message) && message@ == fault,
            None => false,
        };
    let (packages, skipped) = crate::walk::walk_result(crate::walk::walked(start, n))->0->Ok_0;
    let components = r->Ok_0.0@;
    let listed = crate::registry::omission_views(r->Ok_0.1@);
    match crate::registry::edge_action(dep.0, dep.1) {
        Ok(crate::registry::EdgeActionView::Resolve(name, range)) => {
            crate::manifest::law_roots_hold_every_range(deps, d);
            let k = choose|k: int|
                0 <= k < roots.len() && roots[k] == (crate::walk::EdgeView {
                    name,
                    range,
                    optional: dep.2,
                });
            crate::walk_laws::law_roots_are_in_the_result(
                base,
                crate::walk::nested_audit(),
                edges,
                documents,
                n,
                packages,
                skipped,
                k,
            );
            if crate::walk_laws::has_version(packages, name, range) {
                let (i, m) = choose|i: int, m: int|
                    #![trigger packages[i], range[m]]
                    0 <= i < packages.len() && 0 <= m < range.len() && packages[i].name == name
                        && crate::version::admits(range[m], packages[i].version);
                assert(is_resolved_component(components[i], packages[i]));
                assert(components[i].name@ == name && crate::version::admits(
                    range[m],
                    components[i].version@,
                ));
            } else {
                let i = choose|i: int|
                    0 <= i < skipped.len() && (#[trigger] skipped[i]).name == name;
                assert(listed[omissions.len() + i] == skipped[i]);
            }
        },
        Ok(crate::registry::EdgeActionView::Omit(omission)) => {
            crate::manifest::law_roots_hold_every_range(deps, d);
            let i = choose|i: int| 0 <= i < skipped_roots.len() && skipped_roots[i] == omission;
            assert(omissions[i] == omission);
            assert(listed[i] == omission);
        },
        Err(_) => {},
    }
}

/// One of `components` is a version of `name` that one of the requirements of `range` admits.
pub open spec fn has_component(components: Seq<Component>, name: Text, range: Seq<Text>) -> bool {
    exists|i: int, k: int|
        #![trigger components[i], range[k]]
        0 <= i < components.len() && 0 <= k < range.len() && components[i].name@ == name
            && crate::version::admits(range[k], components[i].version@)
}

/// What is loaded for a directory, on a filesystem that does not change: its lockfile where there
/// is one, else its manifest. One that really lies outside the directory is refused, and so is a
/// directory with neither.
pub proof fn law_directories_load_what_they_hold<
    F: Fn(&str) -> Result<PathKind, String>,
    G: Fn(&str) -> Result<String, String>,
>(
    probe: F,
    canonical: G,
    disk: spec_fn(Text) -> PathKind,
    real_path: spec_fn(Text) -> Text,
    dir: Text,
    r: Result<LoadView, Text>,
)
    requires
        is_load(probe, canonical, crate::source::SourceView::Dir(dir), r),
        crate::source::has_at(probe, disk),
        crate::source::leads_by(canonical, real_path),
    ensures
        ({
            let lock = crate::path::joined_path(dir, "package-lock.json"@);
            let manifest = crate::path::joined_path(dir, "package.json"@);
            let root = real_path(dir);
            r == if disk(lock) != PathKind::Missing {
                if crate::path::lies_within(real_path(lock), root) {
                    Ok::<LoadView, Text>(LoadView::Lockfile(lock))
                } else {
                    Err(crate::source::escape_fault(lock, real_path(lock)))
                }
            } else if disk(manifest) != PathKind::Missing {
                if crate::path::lies_within(real_path(manifest), root) {
                    Ok(LoadView::Manifest(manifest))
                } else {
                    Err(crate::source::escape_fault(manifest, real_path(manifest)))
                }
            } else {
                Err("no package-lock.json or package.json in "@ + dir)
            }
        }),
{
    let (lock, manifest) = choose|
        lock: Result<Option<Text>, Text>,
        manifest: Result<Option<Text>, Text>,
    |
        #[trigger] is_directory(probe, canonical, dir, lock, manifest) && r == directory_load(
            dir,
            lock,
            manifest,
        );
    crate::source::law_files_are_found_in_their_directory(
        probe,
        canonical,
        disk,
        real_path,
        dir,
        "package-lock.json"@,
        lock,
    );
    if lock == Ok::<Option<Text>, Text>(None) {
        crate::source::law_files_are_found_in_their_directory(
            probe,
            canonical,
            disk,
            real_path,
            dir,
            "package.json"@,
            manifest,
        );
    }
}

/// A file is loaded as it is given, and a package in its range, or in any where it has none.
pub proof fn law_files_and_packages_load_as_given<
    F: Fn(&str) -> Result<PathKind, String>,
    G: Fn(&str) -> Result<String, String>,
>(
    probe: F,
    canonical: G,
    path: Text,
    name: Text,
    range: Text,
    r: Result<LoadView, Text>,
)
    ensures
        is_load(probe, canonical, crate::source::SourceView::File(path), r) ==> r == Ok::<
            LoadView,
            Text,
        >(LoadView::File(path)),
        is_load(probe, canonical, crate::source::SourceView::Spec(name, Some(range)), r) ==> r
            == Ok::<LoadView, Text>(LoadView::Package(name, range)),
        is_load(probe, canonical, crate::source::SourceView::Spec(name, None), r) ==> r == Ok::<
            LoadView,
            Text,
        >(LoadView::Package(name, seq!['*'])),
{
    reveal_strlit("*");
    assert("*"@ =~= seq!['*']);
}

}
