//! The OSV (osv.dev) advisory source.
//!
//! A batch query gives the ids of the advisories for each queried component, by position; each
//! id is then looked up for its record. A record spans packages and ecosystems: it counts when
//! one of its `affected` entries is the npm package that was asked about. Posting and fetching
//! are the caller's: a query hands out its requests and takes the replies.

use crate::dependency::range_covers;
use crate::json::Json;
use crate::text::{copy_texts, is_listed, join, same, to_lower, Text};
use vstd::prelude::*;
use vstd::string::*;

verus! {

/// The most queries that OSV accepts in one request; larger sets are sent as pages.
pub const QUERYBATCH_LIMIT: usize = 1000;

/// A package that is installed.
#[derive(Debug, Clone, PartialEq, Eq)]
pub struct Component {
    pub name: String,
    pub version: String,
    pub purl: String,
    pub license: Option<String>,
    pub resolved: Option<String>,
    pub integrity: Option<String>,
}

/// A component's name and version.
pub type ComponentView = (Text, Text);

impl View for Component {
    type V = ComponentView;

    open spec fn view(&self) -> ComponentView {
        (self.name@, self.version@)
    }
}

/// The components of a list.
pub open spec fn component_views(list: Seq<Component>) -> Seq<ComponentView> {
    Seq::new(list.len(), |i: int| list[i]@)
}

/// How bad an advisory is.
#[derive(Debug, Clone, Copy, PartialEq, Eq, Structural)]
pub enum Severity {
    Low,
    Moderate,
    High,
    Critical,
}

/// The severity that `word` names, in any case; `medium` is another word for moderate.
pub open spec fn severity_of(word: Text) -> Option<Severity> {
    let word = crate::text::lowered(word);
    if word == "low"@ {
        Some(Severity::Low)
    } else if word == "moderate"@ || word == "medium"@ {
        Some(Severity::Moderate)
    } else if word == "high"@ {
        Some(Severity::High)
    } else if word == "critical"@ {
        Some(Severity::Critical)
    } else {
        None
    }
}

impl Severity {
    /// The severity that `word` names.
    pub fn from_str_loose(word: &str) -> (r: Option<Severity>)
        ensures
            r == severity_of(word@),
    {
        let word = to_lower(word);
        let word = word.as_str();
        if same(word, "low") {
            Some(Severity::Low)
        } else if same(word, "moderate") || same(word, "medium") {
            Some(Severity::Moderate)
        } else if same(word, "high") {
            Some(Severity::High)
        } else if same(word, "critical") {
            Some(Severity::Critical)
        } else {
            None
        }
    }
}

/// A known vulnerability of a package.
#[derive(Debug, PartialEq, Eq)]
pub struct Advisory {
    pub source: &'static str,
    pub id: String,
    pub aliases: Vec<String>,
    pub package: String,
    /// The affected versions, as an npm range.
    pub vulnerable_range: String,
    /// `None` when the record names no severity.
    pub severity: Option<Severity>,
    pub title: String,
    pub url: Option<String>,
    pub cwe: Vec<String>,
    pub cvss_vector: Option<String>,
    /// The installed version that it was matched with; empty until then.
    pub matched_version: String,
}

/// The mathematical value of an [`Advisory`].
pub struct AdvisoryView {
    pub source: Text,
    pub id: Text,
    pub aliases: Seq<Text>,
    pub package: Text,
    pub vulnerable_range: Text,
    pub severity: Option<Severity>,
    pub title: Text,
    pub url: Option<Text>,
    pub cwe: Seq<Text>,
    pub cvss_vector: Option<Text>,
    pub matched_version: Text,
}

impl View for Advisory {
    type V = AdvisoryView;

    open spec fn view(&self) -> AdvisoryView {
        AdvisoryView {
            source: self.source@,
            id: self.id@,
            aliases: crate::text::texts(self.aliases@),
            package: self.package@,
            vulnerable_range: self.vulnerable_range@,
            severity: self.severity,
            title: self.title@,
            url: crate::text::optional_text(self.url),
            cwe: crate::text::texts(self.cwe@),
            cvss_vector: crate::text::optional_text(self.cvss_vector),
            matched_version: self.matched_version@,
        }
    }
}

impl Clone for Advisory {
    /// The same advisory again.
    fn clone(&self) -> (r: Advisory)
        ensures
            r@ == self@,
    {
        Advisory {
            source: self.source,
            id: self.id.clone(),
            aliases: copy_texts(&self.aliases),
            package: self.package.clone(),
            vulnerable_range: self.vulnerable_range.clone(),
            severity: self.severity,
            title: self.title.clone(),
            url: self.url.clone(),
            cwe: copy_texts(&self.cwe),
            cvss_vector: self.cvss_vector.clone(),
            matched_version: self.matched_version.clone(),
        }
    }
}

/// The advisories of a list.
pub open spec fn advisory_views(list: Seq<Advisory>) -> Seq<AdvisoryView> {
    Seq::new(list.len(), |i: int| list[i]@)
}

// ---------------------------------------------------------------------------
// Affected ranges
// ---------------------------------------------------------------------------

/// One affected interval as comparators; without bounds, all versions.
pub open spec fn interval_text(lower: Option<Text>, upper: Option<(Text, Text)>) -> Text {
    match (lower, upper) {
        (Some(l), Some((operator, v))) => ">="@ + l + " "@ + operator + v,
        (Some(l), None) => ">="@ + l,
        (None, Some((operator, v))) => operator + v,
        (None, None) => "*"@,
    }
}

/// What the events of a range have said so far.
pub struct Events {
    /// The intervals that were closed.
    pub intervals: Seq<Text>,
    /// The lower bound of the interval that is open.
    pub lower: Option<Text>,
    /// Whether an interval is open.
    pub open: bool,
}

/// What `events` say: `introduced` opens an interval, `fixed` and `last_affected` close it.
pub open spec fn events_read(events: Seq<crate::json::JsonView>) -> Events
    decreases events.len(),
{
    if events.len() == 0 {
        Events { intervals: Seq::empty(), lower: None, open: false }
    } else {
        let earlier = events_read(events.drop_last());
        let event = events.last();
        match crate::json::text_member(event, "introduced"@) {
            Some(introduced) => Events {
                lower: if introduced == "0"@ {
                    None
                } else {
                    Some(introduced)
                },
                open: true,
                ..earlier
            },
            None => match crate::json::text_member(event, "fixed"@) {
                Some(fixed) => Events {
                    intervals: earlier.intervals.push(
                        interval_text(earlier.lower, Some(("<"@, fixed))),
                    ),
                    lower: None,
                    open: false,
                },
                None => match crate::json::text_member(event, "last_affected"@) {
                    Some(last) => Events {
                        intervals: earlier.intervals.push(
                            interval_text(earlier.lower, Some(("<="@, last))),
                        ),
                        lower: None,
                        open: false,
                    },
                    None => earlier,
                },
            },
        }
    }
}

/// The intervals of one range; one that is still open at the end has no upper bound. Only
/// `SEMVER` ranges count.
pub open spec fn range_intervals(range: crate::json::JsonView) -> Seq<Text> {
    if crate::json::text_member(range, "type"@) != Some("SEMVER"@) {
        Seq::empty()
    } else {
        match crate::json::as_items(crate::json::member(range, "events"@)) {
            None => Seq::empty(),
            Some(events) => {
                let read = events_read(events);
                if read.open {
                    read.intervals.push(interval_text(read.lower, None))
                } else {
                    read.intervals
                }
            },
        }
    }
}

/// The intervals of several ranges, in order.
pub open spec fn all_intervals(ranges: Seq<crate::json::JsonView>) -> Seq<Text>
    decreases ranges.len(),
{
    if ranges.len() == 0 {
        Seq::empty()
    } else {
        all_intervals(ranges.drop_last()) + range_intervals(ranges.last())
    }
}

/// Each of `versions` pinned.
pub open spec fn pins(versions: Seq<Text>) -> Seq<Text> {
    Seq::new(versions.len(), |i: int| crate::version::exactly(versions[i]))
}

/// The alternatives of an affected entry: its intervals, or else its listed versions.
pub open spec fn alternatives(entry: crate::json::JsonView) -> Seq<Text> {
    let intervals = match crate::json::as_items(crate::json::member(entry, "ranges"@)) {
        Some(ranges) => all_intervals(ranges),
        None => Seq::empty(),
    };
    if intervals.len() > 0 {
        intervals
    } else {
        pins(crate::json::string_list(crate::json::member(entry, "versions"@)))
    }
}

/// An affected entry as an npm range; `None` when it gives neither ranges nor versions.
pub open spec fn entry_range(entry: crate::json::JsonView) -> Option<Text> {
    if alternatives(entry).len() == 0 {
        None
    } else {
        Some(crate::text::joined(alternatives(entry), " || "@))
    }
}

/// One affected interval as comparators.
pub fn interval(lower: Option<&str>, upper: Option<(&str, &str)>) -> (r: String)
    ensures
        r@ == interval_text(
            crate::registry::optional_str(lower),
            match upper {
                Some((operator, version)) => Some((operator@, version@)),
                None => None,
            },
        ),
{
    match lower {
        Some(l) => {
            let mut out = ">=".to_owned();
            out.append(l);
            if let Some((operator, version)) = upper {
                out.append(" ");
                out.append(operator);
                out.append(version);
            }
            out
        },
        None => match upper {
            Some((operator, version)) => {
                let mut out = operator.to_owned();
                out.append(version);
                out
            },
            None => "*".to_owned(),
        },
    }
}

fn borrowed(value: &Option<String>) -> (r: Option<&str>)
    ensures
        crate::registry::optional_str(r) == crate::text::optional_text(*value),
{
    match value {
        Some(text) => Some(text.as_str()),
        None => None,
    }
}

/// The intervals of one range.
fn intervals_of(range: &Json) -> (r: Vec<String>)
    ensures
        crate::text::texts(r@) == range_intervals(range@),
{
    let mut out: Vec<String> = Vec::new();
    assert(crate::text::texts(out@) == Seq::<Text>::empty());
    let is_semver = match range.text_at("type") {
        Some(kind) => same(kind.as_str(), "SEMVER"),
        None => false,
    };
    if !is_semver {
        return out;
    }
    let list = match range.array_at("events") {
        None => {
            return out;
        },
        Some(list) => list,
    };
    let ghost all = crate::json::documents(list@);
    let mut lower: Option<String> = None;
    let mut open = false;
    let mut i: usize = 0;
    assert(all.take(0).len() == 0);
    while i < list.len()
        invariant
            i <= list@.len(),
            all == crate::json::documents(list@),
            events_read(all.take(i as int)) == (Events {
                intervals: crate::text::texts(out@),
                lower: crate::text::optional_text(lower),
                open,
            }),
        decreases list@.len() - i,
    {
        let event = &list[i];
        let ghost before = out@;
        assert(all.take(i + 1).drop_last() == all.take(i as int));
        assert(all.take(i + 1).last() == event@);
        if let Some(introduced) = event.text_at("introduced") {
            if same(introduced.as_str(), "0") {
                lower = None;
            } else {
                lower = Some(introduced);
            }
            open = true;
        } else if let Some(fixed) = event.text_at("fixed") {
            let closed = interval(borrowed(&lower), Some(("<", fixed.as_str())));
            out.push(closed);
            assert(crate::text::texts(out@) == crate::text::texts(before).push(closed@));
            lower = None;
            open = false;
        } else if let Some(last) = event.text_at("last_affected") {
            let closed = interval(borrowed(&lower), Some(("<=", last.as_str())));
            out.push(closed);
            assert(crate::text::texts(out@) == crate::text::texts(before).push(closed@));
            lower = None;
            open = false;
        }
        i = i + 1;
    }
    assert(all.take(i as int) == all);
    if open {
        let ghost before = out@;
        let unbounded = interval(borrowed(&lower), None);
        out.push(unbounded);
        assert(crate::text::texts(out@) == crate::text::texts(before).push(unbounded@));
    }
    out
}

/// An affected entry as an npm range: its `SEMVER` intervals, or else its listed versions,
/// joined with ` || `.
pub fn osv_range_string(entry: &Json) -> (r: Option<String>)
    ensures
        crate::text::optional_text(r) == entry_range(entry@),
{
    let mut out: Vec<String> = Vec::new();
    assert(crate::text::texts(out@) == Seq::<Text>::empty());
    if let Some(list) = entry.array_at("ranges") {
        let ghost all = crate::json::documents(list@);
        let mut i: usize = 0;
        assert(all.take(0).len() == 0);
        while i < list.len()
            invariant
                i <= list@.len(),
                all == crate::json::documents(list@),
                crate::text::texts(out@) == all_intervals(all.take(i as int)),
            decreases list@.len() - i,
        {
            let ghost before = out@;
            assert(all.take(i + 1).drop_last() == all.take(i as int));
            assert(all.take(i + 1).last() == list@[i as int]@);
            let mut more = intervals_of(&list[i]);
            let ghost added = more@;
            out.append(&mut more);
            assert(crate::text::texts(out@) == crate::text::texts(before) + crate::text::texts(
                added,
            ));
            i = i + 1;
        }
        assert(all.take(i as int) == all);
    }
    if out.len() == 0 {
        let versions = entry.strings_at("versions");
        let ghost listed = crate::text::texts(versions@);
        let mut i: usize = 0;
        while i < versions.len()
            invariant
                i <= versions@.len(),
                listed == crate::text::texts(versions@),
                crate::text::texts(out@) == pins(listed).take(i as int),
            decreases versions@.len() - i,
        {
            let ghost before = out@;
            let pin = pinning(versions[i].as_str());
            out.push(pin);
            assert(crate::text::texts(out@) == crate::text::texts(before).push(pin@));
            assert(pins(listed)[i as int] == pin@);
            i = i + 1;
        }
        assert(pins(listed).take(i as int) == pins(listed));
    }
    if out.len() == 0 {
        None
    } else {
        Some(join(&out, " || "))
    }
}

/// `=` followed by `version`.
fn pinning(version: &str) -> (r: String)
    ensures
        r@ == crate::version::exactly(version@),
{
    let mut out = "=".to_owned();
    proof {
        reveal_strlit("=");
    }
    assert(out@ == seq!['=']);
    out.append(version);
    out
}

// ---------------------------------------------------------------------------
// Records
// ---------------------------------------------------------------------------

/// `entry` is about the npm package `name`.
pub open spec fn is_about(entry: crate::json::JsonView, name: Text) -> bool {
    match crate::json::member(entry, "package"@) {
        Some(package) => crate::json::text_member(package, "ecosystem"@) == Some("npm"@)
            && crate::json::text_member(package, "name"@) == Some(name),
        None => false,
    }
}

/// The first of `entries` that is about the npm package `name`.
pub open spec fn first_about(entries: Seq<crate::json::JsonView>, name: Text) -> Option<int>
    decreases entries.len(),
{
    if entries.len() == 0 {
        None
    } else {
        match first_about(entries.drop_last(), name) {
            Some(i) => Some(i),
            None => if is_about(entries.last(), name) {
                Some(entries.len() - 1)
            } else {
                None
            },
        }
    }
}

/// The first text at `key` among `items`.
pub open spec fn first_text(items: Seq<crate::json::JsonView>, key: Text) -> Option<Text>
    decreases items.len(),
{
    if items.len() == 0 {
        None
    } else {
        match first_text(items.drop_last(), key) {
            Some(text) => Some(text),
            None => crate::json::text_member(items.last(), key),
        }
    }
}

/// The first text at `key` in the array member `list` of a record.
pub open spec fn first_text_at(record: crate::json::JsonView, list: Text, key: Text) -> Option<
    Text,
> {
    match crate::json::as_items(crate::json::member(record, list)) {
        Some(items) => first_text(items, key),
        None => None,
    }
}

/// The range that an entry is reported with: its own where that covers the version that OSV
/// confirmed as affected, else the confirmed version itself.
pub open spec fn reported_range(entry: crate::json::JsonView, version: Text) -> Text {
    match entry_range(entry) {
        Some(range) => if crate::dependency::covers(range, version) {
            range
        } else {
            crate::version::exactly(version)
        },
        None => crate::version::exactly(version),
    }
}

/// The severity in a record's own words.
pub open spec fn record_severity(record: crate::json::JsonView) -> Option<Severity> {
    match crate::json::member(record, "database_specific"@) {
        Some(specific) => match crate::json::text_member(specific, "severity"@) {
            Some(word) => severity_of(word),
            None => None,
        },
        None => None,
    }
}

/// A record's title: its summary, or else its details; empty when that is no text.
pub open spec fn record_title(record: crate::json::JsonView) -> Text {
    let title = match crate::json::member(record, "summary"@) {
        Some(summary) => Some(summary),
        None => crate::json::member(record, "details"@),
    };
    match crate::json::as_text(title) {
        Some(text) => text,
        None => Seq::empty(),
    }
}

/// What a record says of the npm package `name` at `version`; `None` when it has no id or is not
/// about that package.
pub open spec fn advisory_in(
    record: crate::json::JsonView,
    name: Text,
    version: Text,
) -> Option<AdvisoryView> {
    match (
        crate::json::text_member(record, "id"@),
        crate::json::as_items(crate::json::member(record, "affected"@)),
    ) {
        (Some(id), Some(affected)) => match first_about(affected, name) {
            Some(i) => Some(
                AdvisoryView {
                    source: "osv"@,
                    id,
                    aliases: crate::json::string_list(crate::json::member(record, "aliases"@)),
                    package: name,
                    vulnerable_range: reported_range(affected[i], version),
                    severity: record_severity(record),
                    title: record_title(record),
                    url: Some(
                        match first_text_at(record, "references"@, "url"@) {
                            Some(url) => url,
                            None => "https://osv.dev/vulnerability/"@ + id,
                        },
                    ),
                    cwe: match crate::json::member(record, "database_specific"@) {
                        Some(specific) => crate::json::string_list(
                            crate::json::member(specific, "cwe_ids"@),
                        ),
                        None => Seq::empty(),
                    },
                    cvss_vector: first_text_at(record, "severity"@, "score"@),
                    matched_version: Seq::empty(),
                },
            ),
            None => None,
        },
        _ => None,
    }
}

fn about(entry: &Json, name: &str) -> (r: bool)
    ensures
        r == is_about(entry@, name@),
{
    match entry.get("package") {
        Some(package) => {
            let npm = match package.text_at("ecosystem") {
                Some(ecosystem) => same(ecosystem.as_str(), "npm"),
                None => false,
            };
            let named = match package.text_at("name") {
                Some(found) => same(found.as_str(), name),
                None => false,
            };
            npm && named
        },
        None => false,
    }
}

fn find_about(list: &Vec<Json>, name: &str) -> (r: Option<usize>)
    ensures
        first_about(crate::json::documents(list@), name@) == (match r {
            Some(i) => Some(i as int),
            None => None,
        }),
        r matches Some(i) ==> i < list@.len(),
{
    let ghost all = crate::json::documents(list@);
    let mut found: Option<usize> = None;
    let mut i: usize = 0;
    while i < list.len()
        invariant
            i <= list@.len(),
            all == crate::json::documents(list@),
            first_about(all.take(i as int), name@) == (match found {
                Some(at) => Some(at as int),
                None => None,
            }),
            found matches Some(at) ==> at < i,
        decreases list@.len() - i,
    {
        assert(all.take(i + 1).drop_last() == all.take(i as int));
        assert(all.take(i + 1).last() == list@[i as int]@);
        if found.is_none() && about(&list[i], name) {
            found = Some(i);
        }
        i = i + 1;
    }
    assert(all.take(i as int) == all);
    found
}

fn find_text(record: &Json, list: &str, key: &str) -> (r: Option<String>)
    ensures
        crate::text::optional_text(r) == first_text_at(record@, list@, key@),
{
    match record.array_at(list) {
        None => None,
        Some(items) => {
            let ghost all = crate::json::documents(items@);
            let mut found: Option<String> = None;
            let mut i: usize = 0;
            assert(all.take(0).len() == 0);
            while i < items.len()
                invariant
                    i <= items@.len(),
                    all == crate::json::documents(items@),
                    crate::text::optional_text(found) == first_text(all.take(i as int), key@),
                decreases items@.len() - i,
            {
                assert(all.take(i + 1).drop_last() == all.take(i as int));
                assert(all.take(i + 1).last() == items@[i as int]@);
                if found.is_none() {
                    found = items[i].text_at(key);
                }
                i = i + 1;
            }
            assert(all.take(i as int) == all);
            found
        },
    }
}

/// Read a record as an advisory for the npm package `want_name` at `want_version`. A hit that OSV
/// confirmed is never dropped: the reported range covers the version, or pins it.
pub fn parse_osv_vuln(record: &Json, want_name: &str, want_version: &str) -> (r: Option<Advisory>)
    ensures
        advisory_in(record@, want_name@, want_version@) == (match r {
            Some(advisory) => Some(advisory@),
            None => None,
        }),
{
    let id = match record.text_at("id") {
        None => {
            return None;
        },
        Some(id) => id,
    };
    let affected = match record.array_at("affected") {
        None => {
            return None;
        },
        Some(affected) => affected,
    };
    let at = match find_about(affected, want_name) {
        None => {
            return None;
        },
        Some(at) => at,
    };
    let entry = &affected[at];
    assert(crate::json::documents(affected@)[at as int] == entry@);
    let vulnerable_range = match osv_range_string(entry) {
        Some(range) => if range_covers(range.as_str(), want_version) {
            range
        } else {
            pinning(want_version)
        },
        None => pinning(want_version),
    };
    let empty: Vec<String> = Vec::new();
    assert(crate::text::texts(empty@) == Seq::<Text>::empty());
    let (severity, cwe) = match record.get("database_specific") {
        Some(specific) => (
            match specific.text_at("severity") {
                Some(word) => Severity::from_str_loose(word.as_str()),
                None => None,
            },
            specific.strings_at("cwe_ids"),
        ),
        None => (None, empty),
    };
    let url = match find_text(record, "references", "url") {
        Some(url) => url,
        None => {
            let mut url = "https://osv.dev/vulnerability/".to_owned();
            url.append(id.as_str());
            url
        },
    };
    let title = match record.get("summary") {
        Some(summary) => Some(summary),
        None => record.get("details"),
    };
    let title = match title {
        Some(title) => match title.as_str() {
            Some(text) => text.to_owned(),
            None => String::new(),
        },
        None => String::new(),
    };
    let matched_version = String::new();
    assert(matched_version@ == Seq::<char>::empty());
    assert(title@ == record_title(record@));
    Some(
        Advisory {
            source: "osv",
            id,
            aliases: record.strings_at("aliases"),
            package: want_name.to_owned(),
            vulnerable_range,
            severity,
            title,
            url: Some(url),
            cwe,
            cvss_vector: find_text(record, "severity", "score"),
            matched_version,
        },
    )
}

/// A confirmed hit is never dropped: where the record is about the package, an advisory comes
/// out, and its range covers the confirmed version or pins it.
pub proof fn law_confirmed_hits_are_kept(record: crate::json::JsonView, name: Text, version: Text)
    requires
        crate::json::text_member(record, "id"@) is Some,
        crate::json::as_items(crate::json::member(record, "affected"@)) matches Some(affected)
            && first_about(affected, name) is Some,
    ensures
        advisory_in(record, name, version) is Some,
        ({
            let range = advisory_in(record, name, version)->0.vulnerable_range;
            crate::dependency::covers(range, version) || range == crate::version::exactly(version)
        }),
{
}

impl Advisory {
    /// Whether the advisory is about `version` of its package. It is, where its range covers the
    /// version or pins it.
    pub fn applies_to(&self, version: &str) -> (r: bool)
        ensures
            r == crate::dependency::covers(self@.vulnerable_range, version@),
            crate::version::is_version(version@) && self@.vulnerable_range
                == crate::version::exactly(version@) ==> r,
    {
        range_covers(self.vulnerable_range.as_str(), version)
    }
}

// ---------------------------------------------------------------------------
// Queries
// ---------------------------------------------------------------------------

/// The query for one component.
pub open spec fn query_document(component: ComponentView) -> crate::json::JsonView {
    crate::json::JsonView::Object(
        seq![
            (
                "package"@,
                crate::json::JsonView::Object(
                    seq![
                        ("ecosystem"@, crate::json::JsonView::Text("npm"@)),
                        ("name"@, crate::json::JsonView::Text(component.0)),
                    ],
                ),
            ),
            ("version"@, crate::json::JsonView::Text(component.1)),
        ],
    )
}

/// The body of a batch query: one query per component, in order.
pub open spec fn batch_document(components: Seq<ComponentView>) -> crate::json::JsonView {
    crate::json::JsonView::Object(
        seq![
            (
                "queries"@,
                crate::json::JsonView::Array(
                    Seq::new(components.len(), |i: int| query_document(components[i])),
                ),
            ),
        ],
    )
}

/// An object of two members.
fn pair(first: &str, a: Json, second: &str, b: Json) -> (r: Json)
    ensures
        r@ == crate::json::JsonView::Object(seq![(first@, a@), (second@, b@)]),
{
    let mut members: Vec<(String, Json)> = Vec::new();
    members.push((first.to_owned(), a));
    members.push((second.to_owned(), b));
    let r = Json::Object(members);
    assert(r@->Object_0 == seq![(first@, a@), (second@, b@)]);
    r
}

fn query_json(component: &Component) -> (r: Json)
    ensures
        r@ == query_document(component@),
{
    let ecosystem = Json::Text("npm".to_owned());
    let name = Json::Text(component.name.clone());
    let package = pair("ecosystem", ecosystem, "name", name);
    let version = Json::Text(component.version.clone());
    pair("package", package, "version", version)
}

/// The body of a batch query for `components`.
pub fn querybatch_body(components: &[Component]) -> (r: Json)
    ensures
        r@ == batch_document(component_views(components@)),
{
    let ghost all = component_views(components@);
    let mut queries: Vec<Json> = Vec::new();
    let mut i: usize = 0;
    while i < components.len()
        invariant
            i <= components@.len(),
            all == component_views(components@),
            queries@.len() == i,
            forall|k: int| 0 <= k < i ==> (#[trigger] queries@[k])@ == query_document(all[k]),
        decreases components@.len() - i,
    {
        assert(all[i as int] == components@[i as int]@);
        queries.push(query_json(&components[i]));
        i = i + 1;
    }
    let list = Json::Array(queries);
    assert(list@->Array_0 == Seq::new(all.len(), |k: int| query_document(all[k])));
    let mut members: Vec<(String, Json)> = Vec::new();
    members.push(("queries".to_owned(), list));
    let r = Json::Object(members);
    assert(r@->Object_0 == seq![("queries"@, list@)]);
    r
}

/// An advisory to look up: the component's name and version, and the advisory's id.
pub type WantedView = (Text, Text, Text);

/// The wanted advisories of a list.
pub open spec fn wanted_views(list: Seq<(String, String, String)>) -> Seq<WantedView> {
    Seq::new(list.len(), |i: int| (list[i].0@, list[i].1@, list[i].2@))
}

/// The ids among `vulns`, each with the component.
pub open spec fn ids_for(
    component: ComponentView,
    vulns: Seq<crate::json::JsonView>,
) -> Seq<WantedView>
    decreases vulns.len(),
{
    if vulns.len() == 0 {
        Seq::empty()
    } else {
        match crate::json::text_member(vulns.last(), "id"@) {
            Some(id) => ids_for(component, vulns.drop_last()).push(
                (component.0, component.1, id),
            ),
            None => ids_for(component, vulns.drop_last()),
        }
    }
}

/// The ids that one result names for the component it belongs to.
pub open spec fn ids_in(
    component: ComponentView,
    result: crate::json::JsonView,
) -> Seq<WantedView> {
    match crate::json::as_items(crate::json::member(result, "vulns"@)) {
        Some(vulns) => ids_for(component, vulns),
        None => Seq::empty(),
    }
}

/// The ids that the results name; the result at a position belongs to the component at it, and a
/// result beyond the components to none.
pub open spec fn ids_by_position(
    results: Seq<crate::json::JsonView>,
    queried: Seq<ComponentView>,
) -> Seq<WantedView>
    decreases results.len(),
{
    if results.len() == 0 {
        Seq::empty()
    } else {
        let i = results.len() - 1;
        let earlier = ids_by_position(results.drop_last(), queried);
        if i < queried.len() {
            earlier + ids_in(queried[i], results[i])
        } else {
            earlier
        }
    }
}

/// The ids that a response names.
pub open spec fn wanted_in(
    response: crate::json::JsonView,
    queried: Seq<ComponentView>,
) -> Seq<WantedView> {
    match crate::json::as_items(crate::json::member(response, "results"@)) {
        Some(results) => ids_by_position(results, queried),
        None => Seq::empty(),
    }
}

fn read_ids(component: &Component, result: &Json) -> (r: Vec<(String, String, String)>)
    ensures
        wanted_views(r@) == ids_in(component@, result@),
{
    let mut out: Vec<(String, String, String)> = Vec::new();
    assert(wanted_views(out@) == Seq::<WantedView>::empty());
    if let Some(list) = result.array_at("vulns") {
        let ghost all = crate::json::documents(list@);
        let mut i: usize = 0;
        assert(all.take(0).len() == 0);
        while i < list.len()
            invariant
                i <= list@.len(),
                all == crate::json::documents(list@),
                wanted_views(out@) == ids_for(component@, all.take(i as int)),
            decreases list@.len() - i,
        {
            let ghost before = out@;
            assert(all.take(i + 1).drop_last() == all.take(i as int));
            assert(all.take(i + 1).last() == list@[i as int]@);
            if let Some(id) = list[i].text_at("id") {
                out.push((component.name.clone(), component.version.clone(), id));
                assert(wanted_views(out@) == wanted_views(before).push(
                    (component@.0, component@.1, id@),
                ));
            }
            i = i + 1;
        }
        assert(all.take(i as int) == all);
    }
    out
}

/// The advisories that a response names for the components of its request, by position.
pub fn wanted_ids(response: &Json, queried: &[Component]) -> (r: Vec<(String, String, String)>)
    ensures
        wanted_views(r@) == wanted_in(response@, component_views(queried@)),
{
    let ghost components = component_views(queried@);
    let mut out: Vec<(String, String, String)> = Vec::new();
    assert(wanted_views(out@) == Seq::<WantedView>::empty());
    if let Some(list) = response.array_at("results") {
        let ghost all = crate::json::documents(list@);
        let mut i: usize = 0;
        assert(all.take(0).len() == 0);
        while i < list.len()
            invariant
                i <= list@.len(),
                all == crate::json::documents(list@),
                components == component_views(queried@),
                wanted_views(out@) == ids_by_position(all.take(i as int), components),
            decreases list@.len() - i,
        {
            let ghost before = out@;
            assert(all.take(i + 1).drop_last() == all.take(i as int));
            assert(all.take(i + 1)[i as int] == list@[i as int]@);
            if i < queried.len() {
                assert(components[i as int] == queried@[i as int]@);
                let mut more = read_ids(&queried[i], &list[i]);
                let ghost added = more@;
                out.append(&mut more);
                assert(wanted_views(out@) == wanted_views(before) + wanted_views(added));
            }
            i = i + 1;
        }
        assert(all.take(i as int) == all);
    }
    out
}

// ---------------------------------------------------------------------------
// The source
// ---------------------------------------------------------------------------

/// How many pages `n` components take.
pub open spec fn page_count(n: int) -> int {
    (n + QUERYBATCH_LIMIT - 1) / (QUERYBATCH_LIMIT as int)
}

/// Where page `k` of `n` components begins.
pub open spec fn page_start(n: int, k: int) -> int {
    if k * QUERYBATCH_LIMIT < n {
        k * QUERYBATCH_LIMIT
    } else {
        n
    }
}

/// Page `k` of `components`.
pub open spec fn page(components: Seq<ComponentView>, k: int) -> Seq<ComponentView> {
    let n = components.len() as int;
    components.subrange(page_start(n, k), page_start(n, k + 1))
}

/// Every reply is there.
pub open spec fn all_replied(replies: Seq<Option<crate::json::JsonView>>) -> bool {
    forall|k: int| 0 <= k < replies.len() ==> (#[trigger] replies[k]) is Some
}

/// What the replies to the pages of `components` name; each is read against its own page.
pub open spec fn wanted_in_pages(
    components: Seq<ComponentView>,
    replies: Seq<Option<crate::json::JsonView>>,
) -> Seq<WantedView>
    decreases replies.len(),
{
    if replies.len() == 0 {
        Seq::empty()
    } else {
        wanted_in_pages(components, replies.drop_last()) + wanted_in(
            replies.last()->0,
            page(components, replies.len() - 1),
        )
    }
}

/// Where the record of an advisory is.
pub open spec fn record_address(id: Text) -> Text {
    "https://api.osv.dev/v1/vulns/"@ + id
}

/// The document in a reply; `None` when there is none that can be used.
pub open spec fn document_in(reply: Result<Vec<u8>, String>) -> Option<crate::json::JsonView> {
    match reply {
        Ok(bytes) => match crate::json::json_document(bytes@) {
            Ok(doc) => Some(doc),
            Err(_) => None,
        },
        Err(_) => None,
    }
}

/// The document of an optional [`Json`].
pub open spec fn optional_document(json: Option<Json>) -> Option<crate::json::JsonView> {
    match json {
        Some(json) => Some(json@),
        None => None,
    }
}

/// The document in a reply.
pub fn hydrate(reply: Result<Vec<u8>, String>) -> (r: Option<Json>)
    ensures
        optional_document(r) == document_in(reply),
{
    match reply {
        Ok(bytes) => match Json::parse(bytes.as_slice()) {
            Ok(doc) => Some(doc),
            Err(_) => None,
        },
        Err(_) => None,
    }
}

/// A record that was looked up, by its id.
pub type RecordView = (Text, Option<crate::json::JsonView>);

/// The records of a list.
pub open spec fn record_views(list: Seq<(String, Option<Json>)>) -> Seq<RecordView> {
    Seq::new(list.len(), |i: int| (list[i].0@, optional_document(list[i].1)))
}

/// The ids of the records of a list.
pub open spec fn record_ids(records: Seq<RecordView>) -> Seq<Text> {
    Seq::new(records.len(), |i: int| records[i].0)
}

/// The distinct ids of `wanted`, in the order in which they first appear.
pub open spec fn distinct_ids(wanted: Seq<WantedView>) -> Seq<Text>
    decreases wanted.len(),
{
    if wanted.len() == 0 {
        Seq::empty()
    } else {
        let ids = distinct_ids(wanted.drop_last());
        if ids.contains(wanted.last().2) {
            ids
        } else {
            ids.push(wanted.last().2)
        }
    }
}

/// The distinct ids of `wanted`, in the order in which they first appear.
fn list_ids(wanted: &Vec<(String, String, String)>) -> (r: Vec<String>)
    ensures
        crate::text::texts(r@) == distinct_ids(wanted_views(wanted@)),
{
    let ghost all = wanted_views(wanted@);
    let mut ids: Vec<String> = Vec::new();
    let mut i: usize = 0;
    assert(all.take(0).len() == 0);
    assert(crate::text::texts(ids@) == Seq::<Text>::empty());
    while i < wanted.len()
        invariant
            i <= wanted@.len(),
            all == wanted_views(wanted@),
            crate::text::texts(ids@) == distinct_ids(all.take(i as int)),
        decreases wanted@.len() - i,
    {
        let id = wanted[i].2.as_str();
        let ghost before = ids@;
        assert(all.take(i + 1).drop_last() == all.take(i as int));
        assert(all.take(i + 1).last().2 == id@);
        if !is_listed(&ids, id) {
            ids.push(id.to_owned());
            assert(crate::text::texts(ids@) == crate::text::texts(before).push(id@));
        }
        i = i + 1;
    }
    assert(all.take(i as int) == all);
    ids
}

fn find_record(records: &Vec<(String, Option<Json>)>, id: &str) -> (r: Option<usize>)
    ensures
        r is Some <==> record_ids(record_views(records@)).contains(id@),
        r matches Some(i) ==> i < records@.len() && record_for(record_views(records@), id@)
            == optional_document(records@[i as int].1),
        r is None ==> record_for(record_views(records@), id@) is None,
{
    let ghost all = record_views(records@);
    let ghost ids = record_ids(all);
    let mut i: usize = 0;
    assert(all.skip(0) == all);
    while i < records.len()
        invariant
            i <= records@.len(),
            all == record_views(records@),
            ids == record_ids(all),
            forall|k: int| 0 <= k < i ==> ids[k] != id@,
            record_for(all, id@) == record_for(all.skip(i as int), id@),
        decreases records@.len() - i,
    {
        if same(records[i].0.as_str(), id) {
            assert(ids[i as int] == id@);
            return Some(i);
        }
        assert(all.skip(i as int).skip(1) == all.skip(i + 1));
        i = i + 1;
    }
    None
}

/// The record for `id`; the first counts.
pub open spec fn record_for(records: Seq<RecordView>, id: Text) -> Option<crate::json::JsonView>
    decreases records.len(),
{
    if records.len() == 0 {
        None
    } else if records[0].0 == id {
        records[0].1
    } else {
        record_for(records.skip(1), id)
    }
}

/// What is said of a record that could not be looked up.
pub open spec fn missing_record(id: Text) -> Text {
    "OSV record "@ + id + " could not be fetched; audit results may be incomplete"@
}

/// The advisories that the records of `wanted` give, in order, and what is said of the records
/// that are missing.
pub open spec fn advisories_in(
    wanted: Seq<WantedView>,
    records: Seq<RecordView>,
) -> (Seq<AdvisoryView>, Seq<Text>)
    decreases wanted.len(),
{
    if wanted.len() == 0 {
        (Seq::empty(), Seq::empty())
    } else {
        let (advisories, warnings) = advisories_in(wanted.drop_last(), records);
        let (name, version, id) = wanted.last();
        match record_for(records, id) {
            None => (advisories, warnings.push(missing_record(id))),
            Some(record) => match advisory_in(record, name, version) {
                Some(advisory) => (advisories.push(advisory), warnings),
                None => (advisories, warnings),
            },
        }
    }
}

/// The advisories that `records` give for `wanted`, and warnings for the records that are
/// missing.
pub fn read_records(
    wanted: &Vec<(String, String, String)>,
    records: &Vec<(String, Option<Json>)>,
) -> (r: (Vec<Advisory>, Vec<String>))
    ensures
        (advisory_views(r.0@), crate::text::texts(r.1@)) == advisories_in(
            wanted_views(wanted@),
            record_views(records@),
        ),
{
    let ghost all = wanted_views(wanted@);
    let mut advisories: Vec<Advisory> = Vec::new();
    let mut warnings: Vec<String> = Vec::new();
    let mut i: usize = 0;
    assert(all.take(0).len() == 0);
    assert(advisory_views(advisories@) == Seq::<AdvisoryView>::empty());
    assert(crate::text::texts(warnings@) == Seq::<Text>::empty());
    while i < wanted.len()
        invariant
            i <= wanted@.len(),
            all == wanted_views(wanted@),
            (advisory_views(advisories@), crate::text::texts(warnings@)) == advisories_in(
                all.take(i as int),
                record_views(records@),
            ),
        decreases wanted@.len() - i,
    {
        let name = wanted[i].0.as_str();
        let version = wanted[i].1.as_str();
        let id = wanted[i].2.as_str();
        let ghost advisories_before = advisories@;
        let ghost warnings_before = warnings@;
        assert(all.take(i + 1).drop_last() == all.take(i as int));
        assert(all.take(i + 1).last() == (name@, version@, id@));
        let record = match find_record(records, id) {
            Some(at) => records[at].1.as_ref(),
            None => None,
        };
        match record {
            None => {
                let mut warning = "OSV record ".to_owned();
                warning.append(id);
                warning.append(" could not be fetched; audit results may be incomplete");
                warnings.push(warning);
                assert(crate::text::texts(warnings@) == crate::text::texts(warnings_before).push(
                    warning@,
                ));
            },
            Some(record) => {
                if let Some(advisory) = parse_osv_vuln(record, name, version) {
                    advisories.push(advisory);
                    assert(advisory_views(advisories@) == advisory_views(
                        advisories_before,
                    ).push(advisory@));
                }
            },
        }
        i = i + 1;
    }
    assert(all.take(i as int) == all);
    (advisories, warnings)
}

/// The public OSV database.
pub struct OsvSource;

/// What is said when a batch query is not answered.
pub open spec fn unreachable_fault() -> Text {
    "OSV querybatch endpoint unreachable or returned no usable data"@
}

/// The state of a query.
pub struct QueryView {
    pub components: Seq<ComponentView>,
    /// The replies to the pages that were posted; `None` for one without usable data.
    pub replies: Seq<Option<crate::json::JsonView>>,
    /// The records that were looked up; `None` for one that could not be.
    pub records: Seq<Option<crate::json::JsonView>>,
    /// Whether a request was handed out and not answered yet.
    pub awaiting: bool,
}

/// What a query asks for next.
#[derive(Debug, PartialEq, Eq)]
pub enum QueryAction {
    /// Post this body to this URL.
    Post { url: String, body: Vec<u8> },
    /// Fetch this URL.
    Fetch { url: String },
    /// Nothing: the query is over, with the advisories and the warnings to give, or why it failed.
    Done(Result<(Vec<Advisory>, Vec<String>), String>),
}

/// The mathematical value of a [`QueryAction`].
pub enum QueryActionView {
    Post(Text, Seq<u8>),
    Fetch(Text),
    Done(Result<(Seq<AdvisoryView>, Seq<Text>), Text>),
}

impl View for QueryAction {
    type V = QueryActionView;

    open spec fn view(&self) -> QueryActionView {
        match *self {
            QueryAction::Post { url, body } => QueryActionView::Post(url@, body@),
            QueryAction::Fetch { url } => QueryActionView::Fetch(url@),
            QueryAction::Done(Ok((advisories, warnings))) => QueryActionView::Done(
                Ok((advisory_views(advisories@), crate::text::texts(warnings@))),
            ),
            QueryAction::Done(Err(message)) => QueryActionView::Done(Err(message@)),
        }
    }
}

/// A query that has not begun.
pub open spec fn query_of(components: Seq<ComponentView>) -> QueryView {
    QueryView { components, replies: Seq::empty(), records: Seq::empty(), awaiting: false }
}

/// Each of `records` by its id.
pub open spec fn by_id(
    ids: Seq<Text>,
    records: Seq<Option<crate::json::JsonView>>,
) -> Seq<RecordView> {
    Seq::new(records.len(), |i: int| (ids[i], records[i]))
}

/// The query with the reply to its request, which a page awaits before any record does.
pub open spec fn answered(q: QueryView, reply: Option<crate::json::JsonView>) -> QueryView {
    if q.replies.len() < page_count(q.components.len() as int) {
        QueryView { replies: q.replies.push(reply), awaiting: false, ..q }
    } else {
        QueryView { records: q.records.push(reply), awaiting: false, ..q }
    }
}

/// What the query asks for next. The components are posted page by page; a page without a usable
/// reply fails the query. Then each distinct advisory that the replies name is fetched.
pub open spec fn request(q: QueryView) -> QueryActionView {
    if q.replies.len() > 0 && q.replies.last() is None {
        QueryActionView::Done(Err(unreachable_fault()))
    } else if q.replies.len() < page_count(q.components.len() as int) {
        match crate::json::json_bytes(
            batch_document(page(q.components, q.replies.len() as int)),
        ) {
            Ok(body) => QueryActionView::Post("https://api.osv.dev/v1/querybatch"@, body),
            Err(message) => QueryActionView::Done(Err(message)),
        }
    } else {
        let wanted = wanted_in_pages(q.components, q.replies);
        let ids = distinct_ids(wanted);
        if q.records.len() < ids.len() {
            QueryActionView::Fetch(record_address(ids[q.records.len() as int]))
        } else {
            QueryActionView::Done(Ok(advisories_in(wanted, by_id(ids, q.records))))
        }
    }
}

/// The query once `request` was handed out.
pub open spec fn requested(q: QueryView) -> QueryView {
    QueryView { awaiting: !(request(q) is Done), ..q }
}

/// The query with what was handed in.
pub open spec fn with_reply(q: QueryView, reply: Option<Result<Vec<u8>, String>>) -> QueryView {
    match reply {
        Some(reply) => answered(q, document_in(reply)),
        None => q,
    }
}

/// A query in progress. [`OsvQuery::next`] hands out its requests, one at a time and each once.
pub struct OsvQuery {
    components: Vec<Component>,
    /// Where the next page begins.
    from: usize,
    /// Whether a page had no usable reply.
    failed: bool,
    wanted: Vec<(String, String, String)>,
    ids: Vec<String>,
    records: Vec<(String, Option<Json>)>,
    awaiting: bool,
    replies: Ghost<Seq<Option<crate::json::JsonView>>>,
}

impl View for OsvQuery {
    type V = QueryView;

    closed spec fn view(&self) -> QueryView {
        QueryView {
            components: component_views(self.components@),
            replies: self.replies@,
            records: Seq::new(self.records@.len(), |i: int| record_views(self.records@)[i].1),
            awaiting: self.awaiting,
        }
    }
}

impl OsvQuery {
    /// The parts of the query fit together.
    pub closed spec fn wf(&self) -> bool {
        let n = self.components@.len() as int;
        let replies = self.replies@;
        &&& replies.len() <= page_count(n)
        &&& self.from == page_start(n, replies.len() as int)
        &&& self.failed == (replies.len() > 0 && replies.last() is None)
        &&& !self.failed ==> wanted_views(self.wanted@) == wanted_in_pages(
            component_views(self.components@),
            replies,
        )
        &&& !self.failed && replies.len() == page_count(n) ==> {
            &&& crate::text::texts(self.ids@) == distinct_ids(wanted_views(self.wanted@))
            &&& self.records@.len() <= self.ids@.len()
            &&& record_ids(record_views(self.records@)) == crate::text::texts(self.ids@).take(
                self.records@.len() as int,
            )
            &&& self.awaiting ==> self.records@.len() < self.ids@.len()
        }
        &&& replies.len() < page_count(n) ==> self.records@.len() == 0
        &&& self.failed ==> self.records@.len() == 0
        &&& self.awaiting ==> !self.failed
    }

    /// Whether a request was handed out and not answered yet.
    pub fn is_awaiting(&self) -> (r: bool)
        ensures
            r == self@.awaiting,
    {
        self.awaiting
    }

    /// Read the reply to the request that was handed out.
    fn take_reply(&mut self, reply: Result<Vec<u8>, String>)
        requires
            old(self).wf(),
            old(self)@.awaiting,
        ensures
            final(self).wf(),
            final(self)@ == answered(old(self)@, document_in(reply)),
    {
        let ghost q = self@;
        let ghost all = component_views(self.components@);
        let doc = hydrate(reply);
        let ghost given = optional_document(doc);
        let end: usize = self.components.len();
        let ghost n = end as int;
        let ghost k = self.replies@.len() as int;
        if self.from < end {
            let to: usize = if end - self.from <= QUERYBATCH_LIMIT {
                end
            } else {
                self.from + QUERYBATCH_LIMIT
            };
            let queried = vstd::slice::slice_subrange(self.components.as_slice(), self.from, to);
            assert(component_views(queried@) == page(all, k));
            let ghost before = self.replies@;
            let ghost earlier = self.wanted@;
            let mut more: Vec<(String, String, String)> = Vec::new();
            let failed = match &doc {
                None => true,
                Some(response) => {
                    more = wanted_ids(response, queried);
                    false
                },
            };
            let ghost added = more@;
            self.wanted.append(&mut more);
            self.replies = Ghost(self.replies@.push(given));
            self.from = to;
            self.failed = failed;
            self.awaiting = false;
            assert(self.replies@.drop_last() == before);
            assert(wanted_views(self.wanted@) == wanted_views(earlier) + wanted_views(added));
            if to == end {
                self.ids = list_ids(&self.wanted);
                assert(record_ids(record_views(self.records@)) == crate::text::texts(
                    self.ids@,
                ).take(0));
            }
            assert(self@.records == q.records);
        } else {
            let at: usize = self.records.len();
            let id = self.ids[at].clone();
            let ghost before = self.records@;
            self.records.push((id, doc));
            self.awaiting = false;
            proof {
                let now = record_views(self.records@);
                let ids = crate::text::texts(self.ids@);
                assert(now == record_views(before).push((id@, given)));
                assert(record_ids(now) == record_ids(record_views(before)).push(id@));
                assert(ids.take(at + 1) == ids.take(at as int).push(ids[at as int]));
                assert(self@.records == q.records.push(given));
            }
        }
    }

    /// Hand in the reply to the request that was handed out, if one was, and get the next. A
    /// request comes out once; [`QueryAction::Done`] comes out from then on.
    pub fn next(&mut self, reply: Option<Result<Vec<u8>, String>>) -> (r: QueryAction)
        requires
            old(self).wf(),
            reply is Some <==> old(self)@.awaiting,
        ensures
            final(self).wf(),
            r@ == request(with_reply(old(self)@, reply)),
            final(self)@ == requested(with_reply(old(self)@, reply)),
    {
        if let Some(reply) = reply {
            self.take_reply(reply);
        }
        let ghost q = self@;
        let ghost all = component_views(self.components@);
        let ghost n = self.components@.len() as int;
        if self.failed {
            return QueryAction::Done(
                Err("OSV querybatch endpoint unreachable or returned no usable data".to_owned()),
            );
        }
        let end: usize = self.components.len();
        if self.from < end {
            let to: usize = if end - self.from <= QUERYBATCH_LIMIT {
                end
            } else {
                self.from + QUERYBATCH_LIMIT
            };
            let queried = vstd::slice::slice_subrange(self.components.as_slice(), self.from, to);
            assert(component_views(queried@) == page(all, self.replies@.len() as int));
            match querybatch_body(queried).to_bytes() {
                Err(message) => QueryAction::Done(Err(message)),
                Ok(body) => {
                    self.awaiting = true;
                    QueryAction::Post { url: "https://api.osv.dev/v1/querybatch".to_owned(), body }
                },
            }
        } else if self.records.len() < self.ids.len() {
            let mut url = "https://api.osv.dev/v1/vulns/".to_owned();
            url.append(self.ids[self.records.len()].as_str());
            self.awaiting = true;
            QueryAction::Fetch { url }
        } else {
            let ghost ids = crate::text::texts(self.ids@);
            proof {
                assert(ids.take(self.records@.len() as int) == ids);
                assert forall|i: int| 0 <= i < self.records@.len() implies (
                #[trigger] record_views(self.records@)[i]) == by_id(ids, q.records)[i] by {
                    assert(record_ids(record_views(self.records@))[i] == ids[i]);
                }
                assert(record_views(self.records@) == by_id(ids, q.records));
            }
            QueryAction::Done(Ok(read_records(&self.wanted, &self.records)))
        }
    }
}

impl OsvSource {
    /// The source's name in reports.
    pub fn name(&self) -> (r: &'static str)
        ensures
            r@ == "osv"@,
    {
        "osv"
    }

    /// Query the advisories for `components`. What comes back hands out the requests to make and,
    /// in the end, the advisories with warnings for the records that could not be looked up. A
    /// page that is not answered fails the query: it is not the same as no advisories.
    pub fn query(&self, components: Vec<Component>) -> (r: OsvQuery)
        ensures
            r.wf(),
            r@ == query_of(component_views(components@)),
    {
        let query = OsvQuery {
            components,
            from: 0,
            failed: false,
            wanted: Vec::new(),
            ids: Vec::new(),
            records: Vec::new(),
            awaiting: false,
            replies: Ghost(Seq::empty()),
        };
        assert(wanted_views(query.wanted@) == Seq::<WantedView>::empty());
        assert(crate::text::texts(query.ids@) == Seq::<Text>::empty());
        assert(record_ids(record_views(query.records@)) == crate::text::texts(query.ids@).take(0));
        assert(query@.records == Seq::<Option<crate::json::JsonView>>::empty());
        query
    }
}

// ---------------------------------------------------------------------------
// Laws
// ---------------------------------------------------------------------------

/// No page holds more queries than OSV accepts, and none is empty.
pub proof fn law_pages_fit_the_limit(components: Seq<ComponentView>, k: int)
    requires
        0 <= k < page_count(components.len() as int),
    ensures
        0 < page(components, k).len() <= QUERYBATCH_LIMIT,
{
}

/// Paging keeps every component, in order: the component at `i` stands on page `i / 1000`, at
/// `i % 1000`.
pub proof fn law_pages_hold_every_component(components: Seq<ComponentView>, i: int)
    requires
        0 <= i < components.len(),
    ensures
        ({
            let k = i / (QUERYBATCH_LIMIT as int);
            let at = i % (QUERYBATCH_LIMIT as int);
            &&& 0 <= k < page_count(components.len() as int)
            &&& 0 <= at < page(components, k).len()
            &&& page(components, k)[at] == components[i]
        }),
{
}

/// Each advisory is looked up once, however many components it is about.
pub proof fn law_each_record_is_looked_up_once(wanted: Seq<WantedView>)
    ensures
        distinct_ids(wanted).no_duplicates(),
        forall|i: int|
            0 <= i < wanted.len() ==> distinct_ids(wanted).contains((#[trigger] wanted[i]).2),
    decreases wanted.len(),
{
    if wanted.len() > 0 {
        let shorter = wanted.drop_last();
        law_each_record_is_looked_up_once(shorter);
        let inner = distinct_ids(shorter);
        let ids = distinct_ids(wanted);
        if ids != inner {
            assert(ids == inner.push(wanted.last().2));
            assert(ids[inner.len() as int] == wanted.last().2);
            assert forall|i: int, j: int|
                0 <= i < ids.len() && 0 <= j < ids.len() && i != j implies ids[i] != ids[j] by {
                if i < inner.len() {
                    assert(inner.contains(inner[i]));
                }
                if j < inner.len() {
                    assert(inner.contains(inner[j]));
                }
            }
        }
        assert forall|i: int| 0 <= i < wanted.len() implies ids.contains(
            (#[trigger] wanted[i]).2,
        ) by {
            if i < shorter.len() {
                assert(shorter[i] == wanted[i]);
                let k = choose|k: int| 0 <= k < inner.len() && inner[k] == wanted[i].2;
                assert(ids[k] == inner[k]);
            }
        }
    }
}

/// Results are read by position: a result that belongs to no component of the page says nothing.
pub proof fn law_results_beyond_the_page_say_nothing(
    results: Seq<crate::json::JsonView>,
    queried: Seq<ComponentView>,
    n: int,
)
    requires
        queried.len() <= n <= results.len(),
    ensures
        ids_by_position(results.take(n), queried) == ids_by_position(
            results.take(queried.len() as int),
            queried,
        ),
    decreases n,
{
    if n > queried.len() {
        assert(results.take(n).drop_last() == results.take(n - 1));
        law_results_beyond_the_page_say_nothing(results, queried, n - 1);
    }
}

/// The query for `components` after requests that were answered with `docs`.
pub open spec fn after_replies(
    components: Seq<ComponentView>,
    docs: Seq<Option<crate::json::JsonView>>,
) -> QueryView
    decreases docs.len(),
{
    if docs.len() == 0 {
        query_of(components)
    } else {
        answered(requested(after_replies(components, docs.drop_last())), docs.last())
    }
}

/// The query asked for something before each of `docs` came.
pub open spec fn asked_for(
    components: Seq<ComponentView>,
    docs: Seq<Option<crate::json::JsonView>>,
) -> bool
    decreases docs.len(),
{
    docs.len() > 0 ==> asked_for(components, docs.drop_last()) && !(request(
        after_replies(components, docs.drop_last()),
    ) is Done)
}

/// How many of `docs` are replies to pages.
pub open spec fn page_replies(
    components: Seq<ComponentView>,
    docs: Seq<Option<crate::json::JsonView>>,
) -> int {
    if docs.len() < page_count(components.len() as int) {
        docs.len() as int
    } else {
        page_count(components.len() as int)
    }
}

/// Requests come in order: the pages first, each once, then the records, each once. So the
/// request after `n` replies is page `n` of the components, or the record of the id at `n` less
/// the number of pages.
pub proof fn law_requests_come_in_order(
    components: Seq<ComponentView>,
    docs: Seq<Option<crate::json::JsonView>>,
)
    requires
        asked_for(components, docs),
    ensures
        ({
            let p = page_replies(components, docs);
            after_replies(components, docs) == (QueryView {
                components,
                replies: docs.take(p),
                records: docs.skip(p),
                awaiting: false,
            })
        }),
    decreases docs.len(),
{
    let p = page_replies(components, docs);
    let now = after_replies(components, docs);
    if docs.len() == 0 {
        assert(docs.take(p) == Seq::<Option<crate::json::JsonView>>::empty());
        assert(docs.skip(p) == Seq::<Option<crate::json::JsonView>>::empty());
    } else {
        let shorter = docs.drop_last();
        law_requests_come_in_order(components, shorter);
        let q = page_replies(components, shorter);
        if shorter.len() < page_count(components.len() as int) {
            assert(shorter.take(q).push(docs.last()) == docs.take(p));
            assert(shorter.skip(q) == docs.skip(p));
        } else {
            assert(shorter.take(q) == docs.take(p));
            assert(shorter.skip(q).push(docs.last()) == docs.skip(p));
        }
    }
}

pub proof fn lemma_asked_for_earlier(
    components: Seq<ComponentView>,
    docs: Seq<Option<crate::json::JsonView>>,
    m: int,
)
    requires
        asked_for(components, docs),
        0 <= m <= docs.len(),
    ensures
        asked_for(components, docs.take(m)),
    decreases docs.len(),
{
    if m < docs.len() {
        assert(docs.drop_last().take(m) == docs.take(m));
        lemma_asked_for_earlier(components, docs.drop_last(), m);
    } else {
        assert(docs.take(m) == docs);
    }
}

/// No record is fetched twice: two fetches of one query ask for different URLs.
pub proof fn law_no_record_is_fetched_twice(
    components: Seq<ComponentView>,
    docs: Seq<Option<crate::json::JsonView>>,
    m: int,
)
    requires
        asked_for(components, docs),
        0 <= m < docs.len(),
        request(after_replies(components, docs.take(m))) is Fetch,
        request(after_replies(components, docs)) is Fetch,
    ensures
        request(after_replies(components, docs.take(m))) != request(
            after_replies(components, docs),
        ),
{
    let early = docs.take(m);
    lemma_asked_for_earlier(components, docs, m);
    law_requests_come_in_order(components, docs);
    law_requests_come_in_order(components, early);
    let pages = page_count(components.len() as int);
    assert(early.len() >= pages);
    assert(docs.take(pages) == early.take(pages));
    let wanted = wanted_in_pages(components, docs.take(pages));
    law_each_record_is_looked_up_once(wanted);
    let ids = distinct_ids(wanted);
    let a = ids[m - pages];
    let b = ids[docs.len() - pages];
    assert(a != b);
    let prefix = "https://api.osv.dev/v1/vulns/"@;
    assert(record_address(a).skip(prefix.len() as int) == a);
    assert(record_address(b).skip(prefix.len() as int) == b);
}

/// A query that comes through missed nothing: every page had a usable reply, and each advisory
/// that the replies name was fetched.
pub proof fn law_finished_queries_are_complete(
    components: Seq<ComponentView>,
    docs: Seq<Option<crate::json::JsonView>>,
)
    requires
        asked_for(components, docs),
        request(after_replies(components, docs)) matches QueryActionView::Done(Ok(_)),
    ensures
        ({
            let pages = page_count(components.len() as int);
            let wanted = wanted_in_pages(components, docs.take(pages));
            &&& pages <= docs.len()
            &&& all_replied(docs.take(pages))
            &&& forall|i: int|
                0 <= i < wanted.len() ==> exists|m: int|
                    pages <= m < docs.len() && request(
                        #[trigger] after_replies(components, docs.take(m)),
                    ) == QueryActionView::Fetch(record_address((#[trigger] wanted[i]).2))
        }),
{
    let pages = page_count(components.len() as int);
    law_requests_come_in_order(components, docs);
    assert(page_replies(components, docs) == pages);
    let replies = docs.take(pages);
    assert forall|k: int| 0 <= k < replies.len() implies (#[trigger] replies[k]) is Some by {
        if k + 1 < docs.len() {
            let until = docs.take(k + 1);
            lemma_asked_for_earlier(components, docs, k + 2);
            assert(docs.take(k + 2).drop_last() == until);
            law_requests_come_in_order(components, until);
            assert(until.take(k + 1) == until);
            assert(until.last() == replies[k]);
        } else {
            assert(replies.last() == replies[k]);
        }
    }
    let wanted = wanted_in_pages(components, replies);
    let ids = distinct_ids(wanted);
    law_each_record_is_looked_up_once(wanted);
    assert forall|i: int| 0 <= i < wanted.len() implies exists|m: int|
        pages <= m < docs.len() && request(
            #[trigger] after_replies(components, docs.take(m)),
        ) == QueryActionView::Fetch(record_address((#[trigger] wanted[i]).2)) by {
        assert(ids.contains(wanted[i].2));
        let k = choose|k: int| 0 <= k < ids.len() && ids[k] == wanted[i].2;
        let m = pages + k;
        let early = docs.take(m);
        lemma_asked_for_earlier(components, docs, m);
        law_requests_come_in_order(components, early);
        assert(early.take(pages) == replies);
        assert(request(after_replies(components, early)) == QueryActionView::Fetch(
            record_address(ids[k]),
        ));
    }
}

/// Nothing is asked for where there is nothing to ask about.
pub proof fn law_no_components_need_no_requests()
    ensures
        request(query_of(Seq::empty())) == QueryActionView::Done(
            Ok((Seq::empty(), Seq::empty())),
        ),
{
    let none = Seq::<ComponentView>::empty();
    let wanted = wanted_in_pages(none, Seq::empty());
    assert(wanted.len() == 0);
    assert(distinct_ids(wanted).len() == 0);
}

}
