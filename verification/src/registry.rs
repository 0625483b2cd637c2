//! The npm registry: its URLs, its package documents, and what a document says about versions,
//! licenses and dependencies.
//!
//! Nothing here opens a connection: where a document has to be fetched, the caller hands in the
//! function that fetches it.

use crate::dependency::{Range, Spec};
use crate::json::Json;
use crate::text::{
    after_prefix, begins_with, join, number_text, same, split_once, tail_after, trim, Text,
};
use crate::version::Version;
use vstd::prelude::*;
use vstd::string::*;

verus! {

// ---------------------------------------------------------------------------
// The registry and its URLs
// ---------------------------------------------------------------------------

/// How much of a package document to ask the registry for.
#[derive(Clone, Copy, Debug, PartialEq, Eq)]
pub enum PackumentDetail {
    /// The abbreviated install document: smaller, but without each version's license.
    Abbreviated,
    /// The full document.
    Full,
}

/// The `Accept` header for a detail; none asks for the registry's default.
pub open spec fn accept_header(detail: PackumentDetail) -> Option<Text> {
    match detail {
        PackumentDetail::Abbreviated => Some("application/vnd.npm.install-v1+json"@),
        PackumentDetail::Full => None,
    }
}

/// The mathematical value of a borrowed optional string.
pub open spec fn optional_str(value: Option<&str>) -> Option<Text> {
    match value {
        Some(text) => Some(text@),
        None => None,
    }
}

impl Default for PackumentDetail {
    /// The abbreviated document.
    fn default() -> (r: PackumentDetail)
        ensures
            r == PackumentDetail::Abbreviated,
    {
        PackumentDetail::Abbreviated
    }
}

impl PackumentDetail {
    /// The `Accept` header for this detail.
    pub fn accept(self) -> (r: Option<&'static str>)
        ensures
            optional_str(r) == accept_header(self),
    {
        match self {
            PackumentDetail::Abbreviated => Some("application/vnd.npm.install-v1+json"),
            PackumentDetail::Full => None,
        }
    }
}

/// An npm-compatible registry.
pub struct Registry {
    pub base_url: String,
    /// How much of each package document to fetch.
    pub detail: PackumentDetail,
}

impl Default for Registry {
    /// The public registry, with abbreviated documents.
    fn default() -> (r: Registry)
        ensures
            r.base_url@ == "https://registry.npmjs.org"@,
            r.detail == PackumentDetail::Abbreviated,
    {
        Registry {
            base_url: "https://registry.npmjs.org".to_owned(),
            detail: PackumentDetail::Abbreviated,
        }
    }
}

/// The conventional tarball URL: `<base>/<name>/-/<name without scope>-<version>.tgz`.
pub open spec fn tarball_address(base: Text, name: Text, version: Text) -> Text {
    base + "/"@ + name + "/-/"@ + crate::text::after_last(name, '/') + "-"@ + version + ".tgz"@
}

/// A package's name in a URL path: a scoped name has its first `/` escaped.
pub open spec fn encoded_name(name: Text) -> Text {
    if crate::text::begins(name, "@"@) {
        let rest = name.skip("@"@.len() as int);
        match crate::text::first_occurrence(rest, "/"@) {
            Some(i) => "@"@ + (rest.take(i) + "%2f"@ + rest.skip(i + "/"@.len())),
            None => "@"@ + rest,
        }
    } else {
        name
    }
}

/// Where a package's document is.
pub open spec fn packument_address(base: Text, name: Text) -> Text {
    base + "/"@ + encoded_name(name)
}

/// `b` needs no escape in a URL's query.
pub open spec fn is_unreserved(b: u8) -> bool {
    ||| 65 <= b <= 90
    ||| 97 <= b <= 122
    ||| 48 <= b <= 57
    ||| b == 45
    ||| b == 95
    ||| b == 46
    ||| b == 126
}

/// An upper-case hexadecimal digit.
pub open spec fn hex_digit(n: u8) -> char {
    if n < 10 {
        (48 + n) as char
    } else {
        (55 + n) as char
    }
}

/// `bytes` percent-encoded: an unreserved byte stands for itself, any other is escaped.
pub open spec fn escaped(bytes: Seq<u8>) -> Text
    decreases bytes.len(),
{
    if bytes.len() == 0 {
        Seq::empty()
    } else {
        let b = bytes.last();
        if is_unreserved(b) {
            escaped(bytes.drop_last()).push(b as char)
        } else {
            escaped(bytes.drop_last()).push('%').push(hex_digit(b / 16)).push(hex_digit(b % 16))
        }
    }
}

/// `n` moved into the window that the registry serves.
pub open spec fn page_size(n: int) -> int {
    if n < 1 {
        1
    } else if n > 250 {
        250
    } else {
        n
    }
}

/// Where the results of a search are.
pub open spec fn search_address(base: Text, query: Text, limit: int) -> Text {
    base + "/-/v1/search?text="@ + escaped(vstd::utf8::encode_utf8(query)) + "&size="@
        + crate::text::decimal(page_size(limit) as nat)
}

fn hex(n: u8) -> (r: char)
    requires
        n < 16,
    ensures
        r == hex_digit(n),
{
    if n < 10 {
        (48 + n) as char
    } else {
        (55 + n) as char
    }
}

/// Percent-encode a search query: the unreserved characters stay, all other bytes are escaped.
pub fn encode_query(query: &str) -> (r: String)
    ensures
        r@ == escaped(vstd::utf8::encode_utf8(query@)),
{
    let bytes = query.as_bytes();
    let mut out = String::new();
    let mut i: usize = 0;
    assert(bytes@.take(0).len() == 0);
    while i < bytes.len()
        invariant
            i <= bytes@.len(),
            out@ == escaped(bytes@.take(i as int)),
        decreases bytes@.len() - i,
    {
        let b: u8 = bytes[i];
        assert(bytes@.take(i + 1).drop_last() == bytes@.take(i as int));
        if (65 <= b && b <= 90) || (97 <= b && b <= 122) || (48 <= b && b <= 57) || b == 45 || b
            == 95 || b == 46 || b == 126 {
            out.push(b as char);
        } else {
            out.push('%');
            out.push(hex(b / 16));
            out.push(hex(b % 16));
        }
        i = i + 1;
    }
    assert(bytes@.take(i as int) == bytes@);
    out
}

impl Registry {
    /// The public npm registry.
    pub fn npm() -> (r: Registry)
        ensures
            r.base_url@ == "https://registry.npmjs.org"@,
            r.detail == PackumentDetail::Abbreviated,
    {
        Registry::default()
    }

    /// A registry elsewhere, such as a private mirror.
    pub fn with_base_url(base_url: &str) -> (r: Registry)
        ensures
            r.base_url@ == base_url@,
            r.detail == PackumentDetail::Abbreviated,
    {
        Registry { base_url: base_url.to_owned(), detail: PackumentDetail::Abbreviated }
    }

    /// The same registry, asked for another detail.
    pub fn with_detail(self, detail: PackumentDetail) -> (r: Registry)
        ensures
            r.base_url == self.base_url,
            r.detail == detail,
    {
        Registry { base_url: self.base_url, detail }
    }

    /// The conventional tarball URL of an exact version.
    pub fn tarball_url(&self, name: &str, version: &str) -> (r: String)
        ensures
            r@ == tarball_address(self.base_url@, name@, version@),
    {
        let unscoped = tail_after(name, '/');
        let mut url = self.base_url.clone();
        url.append("/");
        url.append(name);
        url.append("/-/");
        url.append(unscoped.as_str());
        url.append("-");
        url.append(version);
        url.append(".tgz");
        url
    }

    /// Where the document of package `name` is.
    pub fn packument_url(&self, name: &str) -> (r: String)
        ensures
            r@ == packument_address(self.base_url@, name@),
    {
        let mut url = self.base_url.clone();
        url.append("/");
        match after_prefix(name, "@") {
            Some(rest) => {
                proof {
                    reveal_strlit("/");
                }
                match split_once(rest.as_str(), "/") {
                    Some((scope, package)) => {
                        url.append("@");
                        url.append(scope.as_str());
                        url.append("%2f");
                        url.append(package.as_str());
                        assert(url@ == packument_address(self.base_url@, name@));
                    },
                    None => {
                        url.append("@");
                        url.append(rest.as_str());
                        assert(url@ == packument_address(self.base_url@, name@));
                    },
                }
            },
            None => {
                url.append(name);
            },
        }
        url
    }

    /// Where the results of a search for `query` are, at most `limit` of them (between 1 and 250).
    pub fn search_url(&self, query: &str, limit: usize) -> (r: String)
        ensures
            r@ == search_address(self.base_url@, query@, limit as int),
    {
        let size: u64 = if limit < 1 {
            1
        } else if limit > 250 {
            250
        } else {
            limit as u64
        };
        let mut url = self.base_url.clone();
        url.append("/-/v1/search?text=");
        url.append(encode_query(query).as_str());
        url.append("&size=");
        url.append(number_text(size).as_str());
        url
    }
}

// ---------------------------------------------------------------------------
// What is read from a package document
// ---------------------------------------------------------------------------

/// A resolved package version.
#[derive(Debug, Clone, PartialEq, Eq)]
#[non_exhaustive]
pub struct Resolved {
    pub name: String,
    pub version: Version,
    pub tarball_url: String,
    /// The Subresource-Integrity hash of the tarball, when the registry publishes one.
    pub integrity: Option<String>,
    /// The declared license, as one SPDX-like text.
    pub license: Option<String>,
}

/// The mathematical value of a [`Resolved`].
pub struct ResolvedView {
    pub name: Text,
    pub version: Text,
    pub tarball_url: Text,
    pub integrity: Option<Text>,
    pub license: Option<Text>,
}

impl View for Resolved {
    type V = ResolvedView;

    open spec fn view(&self) -> ResolvedView {
        ResolvedView {
            name: self.name@,
            version: self.version@,
            tarball_url: self.tarball_url@,
            integrity: crate::text::optional_text(self.integrity),
            license: crate::text::optional_text(self.license),
        }
    }
}

/// The texts of the `type` members among `items`, in order.
pub open spec fn license_types(items: Seq<crate::json::JsonView>) -> Seq<Text>
    decreases items.len(),
{
    if items.len() == 0 {
        Seq::empty()
    } else {
        match crate::json::text_member(items.last(), "type"@) {
            Some(text) => license_types(items.drop_last()).push(text),
            None => license_types(items.drop_last()),
        }
    }
}

/// The license that a version's metadata declares: a `license` text, the `type` of a `license`
/// object, or the types of a `licenses` array joined with ` OR `.
pub open spec fn declared_license(meta: crate::json::JsonView) -> Option<Text> {
    let single = crate::json::member(meta, "license"@);
    if crate::json::as_text(single) is Some {
        crate::json::as_text(single)
    } else if single matches Some(object) && crate::json::text_member(object, "type"@) is Some {
        crate::json::text_member(single->0, "type"@)
    } else {
        match crate::json::as_items(crate::json::member(meta, "licenses"@)) {
            Some(items) => if license_types(items).len() > 0 {
                Some(crate::text::joined(license_types(items), " OR "@))
            } else {
                None
            },
            None => None,
        }
    }
}

/// The license that a version's metadata declares.
pub fn license_of(meta: &Json) -> (r: Option<String>)
    ensures
        crate::text::optional_text(r) == declared_license(meta@),
{
    if let Some(single) = meta.get("license") {
        if let Some(text) = single.as_str() {
            return Some(text.to_owned());
        }
        if let Some(text) = single.text_at("type") {
            return Some(text);
        }
    }
    match meta.array_at("licenses") {
        None => None,
        Some(list) => {
            let ghost all = crate::json::documents(list@);
            let mut types: Vec<String> = Vec::new();
            let mut i: usize = 0;
            assert(crate::text::texts(types@) == license_types(all.take(0)));
            while i < list.len()
                invariant
                    i <= list@.len(),
                    all == crate::json::documents(list@),
                    crate::text::texts(types@) == license_types(all.take(i as int)),
                decreases list@.len() - i,
            {
                let ghost before = types@;
                assert(all.take(i + 1).drop_last() == all.take(i as int));
                assert(all.take(i + 1).last() == list@[i as int]@);
                if let Some(text) = list[i].text_at("type") {
                    types.push(text);
                    assert(crate::text::texts(types@) == crate::text::texts(before).push(text@));
                }
                i = i + 1;
            }
            assert(all.take(i as int) == all);
            if types.len() > 0 {
                Some(join(&types, " OR "))
            } else {
                None
            }
        },
    }
}

/// A published version that a range admits.
pub open spec fn is_candidate(
    entry: (Text, crate::json::JsonView),
    requirements: Seq<Text>,
) -> bool {
    crate::version::is_version(entry.0) && crate::dependency::range_admits(requirements, entry.0)
}

/// The position of the newest candidate among `list`.
pub open spec fn newest(
    list: Seq<(Text, crate::json::JsonView)>,
    requirements: Seq<Text>,
) -> Option<int>
    decreases list.len(),
{
    if list.len() == 0 {
        None
    } else {
        let best = newest(list.drop_last(), requirements);
        if is_candidate(list.last(), requirements) && (best is None || crate::version::older(
            list[best->0].0,
            list.last().0,
        )) {
            Some(list.len() - 1)
        } else {
            best
        }
    }
}

/// What is read for a version: the version, its tarball, its integrity and its license.
pub type SelectedView = (Text, Option<Text>, Option<Text>, Option<Text>);

/// The text at `key` of a version's `dist`.
pub open spec fn dist_text(meta: crate::json::JsonView, key: Text) -> Option<Text> {
    match crate::json::member(meta, "dist"@) {
        Some(dist) => crate::json::text_member(dist, key),
        None => None,
    }
}

/// The published versions of a package document.
pub open spec fn published(doc: crate::json::JsonView) -> Option<
    Seq<(Text, crate::json::JsonView)>,
> {
    crate::json::as_members(crate::json::member(doc, "versions"@))
}

/// What an entry of the published versions says.
pub open spec fn selection(entry: (Text, crate::json::JsonView)) -> SelectedView {
    (
        entry.0,
        dist_text(entry.1, "tarball"@),
        dist_text(entry.1, "integrity"@),
        declared_license(entry.1),
    )
}

/// The newest published version that a range admits.
pub open spec fn selected(
    doc: crate::json::JsonView,
    requirements: Seq<Text>,
) -> Option<SelectedView> {
    match published(doc) {
        Some(list) => match newest(list, requirements) {
            Some(i) => Some(selection(list[i])),
            None => None,
        },
        None => None,
    }
}

/// What [`select_version`] reads: the version, its tarball, its integrity and its license.
pub type SelectedVersion = (Version, Option<String>, Option<String>, Option<String>);

/// The mathematical value of a [`SelectedVersion`].
pub open spec fn selected_view(s: SelectedVersion) -> SelectedView {
    (
        s.0@,
        crate::text::optional_text(s.1),
        crate::text::optional_text(s.2),
        crate::text::optional_text(s.3),
    )
}

fn dist_string(meta: &Json, key: &str) -> (r: Option<String>)
    ensures
        crate::text::optional_text(r) == dist_text(meta@, key@),
{
    match meta.get("dist") {
        Some(dist) => dist.text_at(key),
        None => None,
    }
}

/// The newest published version that `range` admits, with what the document says of it. There is
/// one exactly when some published version is admitted, and no admitted version is newer.
pub fn select_version(doc: &Json, range: &Range) -> (r: Option<SelectedVersion>)
    ensures
        selected(doc@, range@) == (match r {
            Some(s) => Some(selected_view(s)),
            None => None,
        }),
        r matches Some(s) ==> crate::version::is_version(s.0@) && crate::dependency::range_admits(
            range@,
            s.0@,
        ),
        published(doc@) matches Some(list) ==> {
            &&& r is None ==> forall|j: int|
                0 <= j < list.len() ==> !is_candidate(#[trigger] list[j], range@)
            &&& r matches Some(s) ==> forall|j: int|
                0 <= j < list.len() && is_candidate(#[trigger] list[j], range@) ==> list[j].0
                    == s.0@ || crate::version::older(list[j].0, s.0@)
        },
{
    let list = match doc.get("versions") {
        None => {
            return None;
        },
        Some(versions) => match versions.as_object() {
            None => {
                return None;
            },
            Some(list) => list,
        },
    };
    let ghost all = crate::json::members(list@);
    let mut best: Option<(Version, usize)> = None;
    let mut i: usize = 0;
    while i < list.len()
        invariant
            i <= list@.len(),
            all == crate::json::members(list@),
            newest(all.take(i as int), range@) == (match best {
                Some((_, at)) => Some(at as int),
                None => None,
            }),
            best matches Some((version, at)) ==> {
                &&& at < i
                &&& version@ == all[at as int].0
                &&& is_candidate(all[at as int], range@)
            },
            best is None ==> forall|j: int| 0 <= j < i ==> !is_candidate(#[trigger] all[j], range@),
            best matches Some((version, at)) ==> forall|j: int|
                0 <= j < i && is_candidate(#[trigger] all[j], range@) ==> all[j].0 == version@
                    || crate::version::older(all[j].0, version@),
        decreases list@.len() - i,
    {
        let ghost prefix = all.take(i as int);
        assert(all.take(i + 1).drop_last() == prefix);
        assert(all.take(i + 1).last() == all[i as int]);
        assert(all[i as int] == (list@[i as int].0@, list@[i as int].1@));
        if let Ok(version) = Version::parse(list[i].0.as_str()) {
            if range.matches(&version) {
                assert(is_candidate(all[i as int], range@));
                let better = match &best {
                    None => true,
                    Some((newest_so_far, at)) => {
                        assert(prefix[*at as int] == all[*at as int]);
                        let newer = newest_so_far.older_than(&version);
                        newer
                    },
                };
                if better {
                    best = Some((version, i));
                }
            }
        }
        i = i + 1;
    }
    assert(all.take(i as int) == all);
    match best {
        None => None,
        Some((version, at)) => {
            let meta = &list[at].1;
            assert(all[at as int].1 == meta@);
            Some(
                (version, dist_string(meta, "tarball"), dist_string(meta, "integrity"), license_of(
                    meta,
                )),
            )
        },
    }
}

// ---------------------------------------------------------------------------
// Dependencies
// ---------------------------------------------------------------------------

/// A declared dependency: its name, its spec, and whether it is optional.
pub type DependencyView = (Text, Text, bool);

/// The dependencies of a list.
pub open spec fn dependency_views(list: Seq<(String, String, bool)>) -> Seq<DependencyView> {
    Seq::new(list.len(), |i: int| (list[i].0@, list[i].1@, list[i].2))
}

/// The members of a list that are texts, as dependencies.
pub open spec fn declared(
    list: Seq<(Text, crate::json::JsonView)>,
    optional: bool,
) -> Seq<DependencyView>
    decreases list.len(),
{
    if list.len() == 0 {
        Seq::empty()
    } else {
        match list.last().1 {
            crate::json::JsonView::Text(spec) => declared(list.drop_last(), optional).push(
                (list.last().0, spec, optional),
            ),
            _ => declared(list.drop_last(), optional),
        }
    }
}

/// Where the first dependency called `name` stands.
pub open spec fn position_of(list: Seq<DependencyView>, name: Text) -> Option<int>
    decreases list.len(),
{
    if list.len() == 0 {
        None
    } else {
        match position_of(list.drop_last(), name) {
            Some(i) => Some(i),
            None => if list.last().0 == name {
                Some(list.len() - 1)
            } else {
                None
            },
        }
    }
}

/// `entry` over `list`: in place of the entry of its name, or at the end.
pub open spec fn overlaid(list: Seq<DependencyView>, entry: DependencyView) -> Seq<DependencyView> {
    match position_of(list, entry.0) {
        Some(i) => list.update(i, entry),
        None => list.push(entry),
    }
}

/// All of `entries` over `list`, in order.
pub open spec fn all_overlaid(
    list: Seq<DependencyView>,
    entries: Seq<DependencyView>,
) -> Seq<DependencyView>
    decreases entries.len(),
{
    if entries.len() == 0 {
        list
    } else {
        overlaid(all_overlaid(list, entries.drop_last()), entries.last())
    }
}

/// The metadata of an exact version.
pub open spec fn version_meta(doc: crate::json::JsonView, version: Text) -> Option<
    crate::json::JsonView,
> {
    match crate::json::member(doc, "versions"@) {
        Some(versions) => crate::json::member(versions, version),
        None => None,
    }
}

/// The dependencies that `key` of a version's metadata declares.
pub open spec fn declared_at(
    meta: Option<crate::json::JsonView>,
    key: Text,
    optional: bool,
) -> Seq<DependencyView> {
    match meta {
        Some(meta) => match crate::json::as_members(crate::json::member(meta, key)) {
            Some(list) => declared(list, optional),
            None => Seq::empty(),
        },
        None => Seq::empty(),
    }
}

/// The dependencies that metadata declares. An optional one takes the place of a required one of
/// its name.
pub open spec fn dependencies_in(
    meta: Option<crate::json::JsonView>,
    include_optional: bool,
) -> Seq<DependencyView> {
    let required = declared_at(meta, "dependencies"@, false);
    if include_optional {
        all_overlaid(required, declared_at(meta, "optionalDependencies"@, true))
    } else {
        required
    }
}

/// The dependencies of a version.
pub open spec fn dependencies(
    doc: crate::json::JsonView,
    version: Text,
    include_optional: bool,
) -> Seq<DependencyView> {
    dependencies_in(version_meta(doc, version), include_optional)
}

fn read_declared(meta: &Json, key: &str, optional: bool) -> (r: Vec<(String, String, bool)>)
    ensures
        dependency_views(r@) == declared_at(Some(meta@), key@, optional),
{
    let mut out: Vec<(String, String, bool)> = Vec::new();
    let members = match meta.get(key) {
        Some(value) => value.as_object(),
        None => None,
    };
    match members {
        None => {
            assert(dependency_views(out@) == Seq::<DependencyView>::empty());
        },
        Some(list) => {
            let ghost all = crate::json::members(list@);
            let mut i: usize = 0;
            assert(dependency_views(out@) == declared(all.take(0), optional));
            while i < list.len()
                invariant
                    i <= list@.len(),
                    all == crate::json::members(list@),
                    dependency_views(out@) == declared(all.take(i as int), optional),
                decreases list@.len() - i,
            {
                let ghost before = out@;
                assert(all.take(i + 1).drop_last() == all.take(i as int));
                assert(all.take(i + 1).last() == all[i as int]);
                assert(all[i as int] == (list@[i as int].0@, list@[i as int].1@));
                if let Some(spec) = list[i].1.as_str() {
                    out.push((list[i].0.clone(), spec.to_owned(), optional));
                    assert(dependency_views(out@) == dependency_views(before).push(
                        (all[i as int].0, spec@, optional),
                    ));
                }
                i = i + 1;
            }
            assert(all.take(i as int) == all);
        },
    }
    out
}

fn find_dependency(list: &Vec<(String, String, bool)>, name: &str) -> (r: Option<usize>)
    ensures
        position_of(dependency_views(list@), name@) == (match r {
            Some(i) => Some(i as int),
            None => None,
        }),
        r matches Some(i) ==> i < list@.len(),
{
    let ghost all = dependency_views(list@);
    let mut found: Option<usize> = None;
    let mut i: usize = 0;
    while i < list.len()
        invariant
            i <= list@.len(),
            all == dependency_views(list@),
            position_of(all.take(i as int), name@) == (match found {
                Some(at) => Some(at as int),
                None => None,
            }),
            found matches Some(at) ==> at < i,
        decreases list@.len() - i,
    {
        assert(all.take(i + 1).drop_last() == all.take(i as int));
        if found.is_none() && same(list[i].0.as_str(), name) {
            found = Some(i);
        }
        i = i + 1;
    }
    assert(all.take(i as int) == all);
    found
}

/// The dependencies that metadata declares, and the optional ones where asked for.
pub fn declared_dependencies(meta: &Json, include_optional: bool) -> (r: Vec<
    (String, String, bool),
>)
    ensures
        dependency_views(r@) == dependencies_in(Some(meta@), include_optional),
{
    let mut out = read_declared(meta, "dependencies", false);
    if include_optional {
        let optional = read_declared(meta, "optionalDependencies", true);
        let ghost base = dependency_views(out@);
        let ghost over = dependency_views(optional@);
        let mut i: usize = 0;
        assert(over.take(0).len() == 0);
        while i < optional.len()
            invariant
                i <= optional@.len(),
                over == dependency_views(optional@),
                dependency_views(out@) == all_overlaid(base, over.take(i as int)),
            decreases optional@.len() - i,
        {
            let ghost before = out@;
            let entry = (optional[i].0.clone(), optional[i].1.clone(), optional[i].2);
            assert(over.take(i + 1).drop_last() == over.take(i as int));
            assert(over.take(i + 1).last() == over[i as int]);
            let ghost seen = over[i as int];
            match find_dependency(&out, optional[i].0.as_str()) {
                Some(at) => {
                    out.set(at, entry);
                    assert(dependency_views(out@) == dependency_views(before).update(
                        at as int,
                        seen,
                    ));
                },
                None => {
                    out.push(entry);
                    assert(dependency_views(out@) == dependency_views(before).push(seen));
                },
            }
            i = i + 1;
        }
        assert(over.take(i as int) == over);
    }
    out
}

/// The dependencies of a version, and its optional ones where asked for.
pub fn dependencies_of(doc: &Json, version: &Version, include_optional: bool) -> (r: Vec<
    (String, String, bool),
>)
    ensures
        dependency_views(r@) == dependencies(doc@, version@, include_optional),
{
    let meta = match doc.get("versions") {
        Some(versions) => versions.get(version.as_str()),
        None => None,
    };
    match meta {
        None => {
            let none: Vec<(String, String, bool)> = Vec::new();
            assert(dependency_views(none@) == Seq::<DependencyView>::empty());
            none
        },
        Some(meta) => declared_dependencies(meta, include_optional),
    }
}

// ---------------------------------------------------------------------------
// Omissions and edges
// ---------------------------------------------------------------------------

/// A dependency that was skipped rather than resolved, so that a report can say what was not
/// checked.
#[derive(Debug, Clone, PartialEq, Eq)]
#[non_exhaustive]
pub struct Omission {
    pub name: String,
    /// The spec or range that was not followed; empty when none applies.
    pub spec: String,
    /// Why, in words.
    pub reason: String,
}

/// The mathematical value of an [`Omission`].
pub struct OmissionView {
    pub name: Text,
    pub spec: Text,
    pub reason: Text,
}

impl View for Omission {
    type V = OmissionView;

    open spec fn view(&self) -> OmissionView {
        OmissionView { name: self.name@, spec: self.spec@, reason: self.reason@ }
    }
}

/// The omissions of a list.
pub open spec fn omission_views(list: Seq<Omission>) -> Seq<OmissionView> {
    Seq::new(list.len(), |i: int| list[i]@)
}

/// An omission as a report shows it.
pub open spec fn omission_text(omission: OmissionView) -> Text {
    if omission.spec.len() == 0 {
        omission.name + " ("@ + omission.reason + ")"@
    } else {
        omission.name + " ("@ + omission.spec + ": "@ + omission.reason + ")"@
    }
}

impl Omission {
    /// An omission of these texts.
    pub fn new(name: &str, spec: &str, reason: &str) -> (r: Omission)
        ensures
            r@ == (OmissionView { name: name@, spec: spec@, reason: reason@ }),
    {
        Omission { name: name.to_owned(), spec: spec.to_owned(), reason: reason.to_owned() }
    }

    /// The omission as a report shows it: the spec stands in it where there is one.
    pub fn to_string(&self) -> (r: String)
        ensures
            r@ == omission_text(self@),
    {
        let mut out = self.name.clone();
        out.append(" (");
        if !self.spec.as_str().is_empty() {
            out.append(self.spec.as_str());
            out.append(": ");
        }
        out.append(self.reason.as_str());
        out.append(")");
        out
    }
}

/// `list` with `omission` recorded; an identical one is recorded once.
pub open spec fn with_omission(list: Seq<OmissionView>, omission: OmissionView) -> Seq<
    OmissionView,
> {
    if list.contains(omission) {
        list
    } else {
        list.push(omission)
    }
}

/// Record `omission` unless an identical one is already recorded.
pub fn push_unique(omissions: &mut Vec<Omission>, omission: Omission)
    ensures
        omission_views(final(omissions)@) == with_omission(
            omission_views(old(omissions)@),
            omission@,
        ),
{
    let ghost all = omission_views(omissions@);
    let mut i: usize = 0;
    while i < omissions.len()
        invariant
            i <= omissions@.len(),
            omissions@ == old(omissions)@,
            all == omission_views(omissions@),
            forall|k: int| 0 <= k < i ==> all[k] != omission@,
        decreases omissions@.len() - i,
    {
        if same(omissions[i].name.as_str(), omission.name.as_str()) && same(
            omissions[i].spec.as_str(),
            omission.spec.as_str(),
        ) && same(omissions[i].reason.as_str(), omission.reason.as_str()) {
            assert(all[i as int] == omission@);
            return ;
        }
        i = i + 1;
    }
    omissions.push(omission);
    assert(omission_views(omissions@) == all.push(omission@));
}

/// What the walk does with a dependency.
#[derive(Debug, PartialEq, Eq)]
pub enum EdgeAction {
    /// Resolve it; an alias is resolved under its target's name.
    Resolve { name: String, range: Range },
    /// Record it as not followed.
    Omit(Omission),
}

/// The mathematical value of an [`EdgeAction`].
pub enum EdgeActionView {
    Resolve(Text, Seq<Text>),
    Omit(OmissionView),
}

impl View for EdgeAction {
    type V = EdgeActionView;

    open spec fn view(&self) -> EdgeActionView {
        match *self {
            EdgeAction::Resolve { name, range } => EdgeActionView::Resolve(name@, range@),
            EdgeAction::Omit(omission) => EdgeActionView::Omit(omission@),
        }
    }
}

/// A dependency on a registry range, or why the range is refused.
pub open spec fn resolve_edge(name: Text, range: Text) -> Result<EdgeActionView, Text> {
    match crate::dependency::range_of(range) {
        Ok(requirements) => Ok(EdgeActionView::Resolve(name, requirements)),
        Err(message) => Err(message),
    }
}

/// A dependency that is not followed.
pub open spec fn omit_edge(name: Text, spec: Text, reason: Text) -> Result<EdgeActionView, Text> {
    Ok(EdgeActionView::Omit(OmissionView { name, spec, reason }))
}

/// What the audit does with a dependency: ranges, and aliases to ranges, are resolved, anything
/// else is an omission; a malformed range is an error, never an omission.
pub open spec fn edge_action(name: Text, spec: Text) -> Result<EdgeActionView, Text> {
    let spec = crate::text::trimmed(spec);
    if crate::text::begins(spec, "workspace:"@) {
        omit_edge(name, spec, "workspace: protocol"@)
    } else if crate::text::begins(spec, "link:"@) {
        omit_edge(name, spec, "link: protocol"@)
    } else {
        match crate::dependency::spec_of(spec) {
            crate::dependency::SpecView::Git(_) => omit_edge(name, spec, "git dependency"@),
            crate::dependency::SpecView::Tarball(_) => omit_edge(name, spec, "remote tarball"@),
            crate::dependency::SpecView::Path(_) => omit_edge(name, spec, "local path"@),
            crate::dependency::SpecView::Alias(target, inner) => match *inner {
                crate::dependency::SpecView::Registry(range) => resolve_edge(target, range),
                _ => omit_edge(name, spec, "npm: alias to a non-registry target"@),
            },
            crate::dependency::SpecView::Registry(range) => resolve_edge(name, range),
        }
    }
}

/// `r` is `wanted`.
pub open spec fn is_action(
    r: Result<EdgeAction, String>,
    wanted: Result<EdgeActionView, Text>,
) -> bool {
    match r {
        Ok(action) => wanted == Ok::<EdgeActionView, Text>(action@),
        Err(message) => wanted == Err::<EdgeActionView, Text>(message@),
    }
}

fn resolving(name: String, range: &str) -> (r: Result<EdgeAction, String>)
    ensures
        is_action(r, resolve_edge(name@, range@)),
{
    match Range::parse(range) {
        Ok(range) => Ok(EdgeAction::Resolve { name, range }),
        Err(message) => Err(message),
    }
}

/// Decide what the audit does with a dependency.
pub fn classify_dep(name: &str, spec: &str) -> (r: Result<EdgeAction, String>)
    ensures
        is_action(r, edge_action(name@, spec@)),
{
    let trimmed = trim(spec);
    let spec = trimmed.as_str();
    if begins_with(spec, "workspace:") {
        return Ok(EdgeAction::Omit(Omission::new(name, spec, "workspace: protocol")));
    }
    if begins_with(spec, "link:") {
        return Ok(EdgeAction::Omit(Omission::new(name, spec, "link: protocol")));
    }
    let read = Spec::read(spec);
    assert(read@ == crate::dependency::spec_of(spec@));
    match read {
        Spec::Git { .. } => Ok(EdgeAction::Omit(Omission::new(name, spec, "git dependency"))),
        Spec::Tarball(_) => Ok(EdgeAction::Omit(Omission::new(name, spec, "remote tarball"))),
        Spec::Path(_) => Ok(EdgeAction::Omit(Omission::new(name, spec, "local path"))),
        Spec::Alias { name: target, spec: inner } => {
            let inner = *inner;
            assert(inner@ == crate::dependency::request(inner));
            match inner {
                Spec::Registry(range) => resolving(target, range.as_str()),
                _ => Ok(
                    EdgeAction::Omit(
                        Omission::new(name, spec, "npm: alias to a non-registry target"),
                    ),
                ),
            }
        },
        Spec::Registry(range) => resolving(name.to_owned(), range.as_str()),
    }
}

// ---------------------------------------------------------------------------
// Search
// ---------------------------------------------------------------------------

/// One result of a registry search.
#[derive(Debug, Clone, PartialEq, Eq)]
#[non_exhaustive]
pub struct SearchResult {
    pub name: String,
    /// The latest version that the registry indexes.
    pub version: String,
    pub description: Option<String>,
    pub keywords: Vec<String>,
    /// When this version was published.
    pub date: Option<String>,
    pub homepage: Option<String>,
}

/// The mathematical value of a [`SearchResult`].
pub struct SearchResultView {
    pub name: Text,
    pub version: Text,
    pub description: Option<Text>,
    pub keywords: Seq<Text>,
    pub date: Option<Text>,
    pub homepage: Option<Text>,
}

impl View for SearchResult {
    type V = SearchResultView;

    open spec fn view(&self) -> SearchResultView {
        SearchResultView {
            name: self.name@,
            version: self.version@,
            description: crate::text::optional_text(self.description),
            keywords: crate::text::texts(self.keywords@),
            date: crate::text::optional_text(self.date),
            homepage: crate::text::optional_text(self.homepage),
        }
    }
}

/// The results of a list.
pub open spec fn result_views(list: Seq<SearchResult>) -> Seq<SearchResultView> {
    Seq::new(list.len(), |i: int| list[i]@)
}

/// What one object of a search response says; `None` when it names no package.
pub open spec fn search_entry(object: crate::json::JsonView) -> Option<SearchResultView> {
    match crate::json::member(object, "package"@) {
        None => None,
        Some(package) => match crate::json::text_member(package, "name"@) {
            None => None,
            Some(name) => Some(
                SearchResultView {
                    name,
                    version: match crate::json::text_member(package, "version"@) {
                        Some(version) => version,
                        None => Seq::empty(),
                    },
                    description: crate::json::text_member(package, "description"@),
                    keywords: crate::json::string_list(
                        crate::json::member(package, "keywords"@),
                    ),
                    date: crate::json::text_member(package, "date"@),
                    homepage: match crate::json::member(package, "links"@) {
                        Some(links) => crate::json::text_member(links, "homepage"@),
                        None => None,
                    },
                },
            ),
        },
    }
}

/// What the objects of a search response say, in order; an object that names no package is
/// passed over.
pub open spec fn search_entries(objects: Seq<crate::json::JsonView>) -> Seq<SearchResultView>
    decreases objects.len(),
{
    if objects.len() == 0 {
        Seq::empty()
    } else {
        match search_entry(objects.last()) {
            Some(result) => search_entries(objects.drop_last()).push(result),
            None => search_entries(objects.drop_last()),
        }
    }
}

/// The results of a search response.
pub open spec fn search_results(doc: crate::json::JsonView) -> Seq<SearchResultView> {
    match crate::json::as_items(crate::json::member(doc, "objects"@)) {
        Some(objects) => search_entries(objects),
        None => Seq::empty(),
    }
}

fn parse_entry(object: &Json) -> (r: Option<SearchResult>)
    ensures
        search_entry(object@) == (match r {
            Some(result) => Some(result@),
            None => None,
        }),
{
    match object.get("package") {
        None => None,
        Some(package) => match package.text_at("name") {
            None => None,
            Some(name) => {
                let version = match package.text_at("version") {
                    Some(version) => version,
                    None => {
                        let empty = String::new();
                        assert(empty@ == Seq::<char>::empty());
                        empty
                    },
                };
                let homepage = match package.get("links") {
                    Some(links) => links.text_at("homepage"),
                    None => None,
                };
                Some(
                    SearchResult {
                        name,
                        version,
                        description: package.text_at("description"),
                        keywords: package.strings_at("keywords"),
                        date: package.text_at("date"),
                        homepage,
                    },
                )
            },
        },
    }
}

/// The results of a search response; an entry that names no package is passed over.
pub fn parse_search(doc: &Json) -> (r: Vec<SearchResult>)
    ensures
        result_views(r@) == search_results(doc@),
{
    let mut out: Vec<SearchResult> = Vec::new();
    match doc.array_at("objects") {
        None => {
            assert(result_views(out@) == Seq::<SearchResultView>::empty());
        },
        Some(list) => {
            let ghost all = crate::json::documents(list@);
            let mut i: usize = 0;
            assert(result_views(out@) == search_entries(all.take(0)));
            while i < list.len()
                invariant
                    i <= list@.len(),
                    all == crate::json::documents(list@),
                    result_views(out@) == search_entries(all.take(i as int)),
                decreases list@.len() - i,
            {
                let ghost before = out@;
                assert(all.take(i + 1).drop_last() == all.take(i as int));
                assert(all.take(i + 1).last() == list@[i as int]@);
                if let Some(result) = parse_entry(&list[i]) {
                    out.push(result);
                    assert(result_views(out@) == result_views(before).push(result@));
                }
                i = i + 1;
            }
            assert(all.take(i as int) == all);
        },
    }
    out
}

// ---------------------------------------------------------------------------
// Requests
// ---------------------------------------------------------------------------

/// `reply` is what `fetch` may answer for `url` with the header `accept`.
pub open spec fn fetched<F: Fn(&str, Option<&str>) -> Result<Vec<u8>, String>>(
    fetch: F,
    url: Text,
    accept: Option<Text>,
    reply: Result<Vec<u8>, String>,
) -> bool {
    exists|u: &str, a: Option<&str>|
        u@ == url && optional_str(a) == accept && #[trigger] call_ensures(fetch, (u, a), reply)
}

/// The document in a reply, or why there is none.
pub open spec fn reply_document(reply: Result<Vec<u8>, String>) -> Result<
    crate::json::JsonView,
    Text,
> {
    match reply {
        Ok(bytes) => crate::json::json_document(bytes@),
        Err(message) => Err(message@),
    }
}

/// `r` is `wanted`.
pub open spec fn is_document(
    r: Result<Json, String>,
    wanted: Result<crate::json::JsonView, Text>,
) -> bool {
    match r {
        Ok(json) => wanted == Ok::<crate::json::JsonView, Text>(json@),
        Err(message) => wanted == Err::<crate::json::JsonView, Text>(message@),
    }
}

/// `r` is `wanted`.
pub open spec fn is_resolved(
    r: Result<Resolved, String>,
    wanted: Result<ResolvedView, Text>,
) -> bool {
    match r {
        Ok(package) => wanted == Ok::<ResolvedView, Text>(package@),
        Err(message) => wanted == Err::<ResolvedView, Text>(message@),
    }
}

/// `r` is `wanted`.
pub open spec fn is_search(
    r: Result<Vec<SearchResult>, String>,
    wanted: Result<Seq<SearchResultView>, Text>,
) -> bool {
    match r {
        Ok(list) => wanted == Ok::<Seq<SearchResultView>, Text>(result_views(list@)),
        Err(message) => wanted == Err::<Seq<SearchResultView>, Text>(message@),
    }
}

/// What is said when no published version is in the range.
pub open spec fn no_match_fault(name: Text, requirements: Seq<Text>) -> Text {
    "no published version of "@ + name + " matches "@ + crate::dependency::range_text(requirements)
}

/// What a selected version resolves to. A version without a tarball has the conventional one.
pub open spec fn resolved_package(base: Text, name: Text, s: SelectedView) -> ResolvedView {
    ResolvedView {
        name,
        version: s.0,
        tarball_url: match s.1 {
            Some(url) => url,
            None => tarball_address(base, name, s.0),
        },
        integrity: s.2,
        license: s.3,
    }
}

/// What `name` resolves to, given its document.
pub open spec fn resolution(
    base: Text,
    name: Text,
    requirements: Seq<Text>,
    doc: crate::json::JsonView,
) -> Result<ResolvedView, Text> {
    match selected(doc, requirements) {
        Some(s) => Ok(resolved_package(base, name, s)),
        None => Err(no_match_fault(name, requirements)),
    }
}

/// The text of [`no_match_fault`].
pub(crate) fn no_match_message(name: &str, range: &Range) -> (r: String)
    ensures
        r@ == no_match_fault(name@, range@),
{
    let mut message = "no published version of ".to_owned();
    message.append(name);
    message.append(" matches ");
    message.append(range.to_string().as_str());
    message
}

/// The value of a result.
pub open spec fn resolved_result(r: Result<Resolved, String>) -> Result<ResolvedView, Text> {
    match r {
        Ok(package) => Ok(package@),
        Err(message) => Err(message@),
    }
}

/// `r` is what `name` resolves to, for some reply that `fetch` may give.
pub open spec fn is_resolution<F: Fn(&str, Option<&str>) -> Result<Vec<u8>, String>>(
    fetch: F,
    registry: Registry,
    name: Text,
    requirements: Seq<Text>,
    r: Result<ResolvedView, Text>,
) -> bool {
    exists|reply: Result<Vec<u8>, String>|
        #[trigger] fetched(
            fetch,
            packument_address(registry.base_url@, name),
            accept_header(registry.detail),
            reply,
        ) && r == (match reply_document(reply) {
            Ok(doc) => resolution(registry.base_url@, name, requirements, doc),
            Err(message) => Err(message),
        })
}

impl Registry {
    /// Fetch the document of package `name`. `fetch` takes a URL and an `Accept` header and
    /// gives the bytes of the reply.
    pub fn packument<F: Fn(&str, Option<&str>) -> Result<Vec<u8>, String>>(
        &self,
        name: &str,
        fetch: &F,
    ) -> (r: Result<Json, String>)
        requires
            forall|u: &str, a: Option<&str>| #[trigger] call_requires(*fetch, (u, a)),
        ensures
            exists|reply: Result<Vec<u8>, String>|
                #[trigger] fetched(
                    *fetch,
                    packument_address(self.base_url@, name@),
                    accept_header(self.detail),
                    reply,
                ) && is_document(r, reply_document(reply)),
    {
        let url = self.packument_url(name);
        let reply = fetch(url.as_str(), self.detail.accept());
        let ghost given = reply;
        assert(fetched(
            *fetch,
            packument_address(self.base_url@, name@),
            accept_header(self.detail),
            given,
        ));
        let r = match reply {
            Ok(bytes) => Json::parse(bytes.as_slice()),
            Err(message) => Err(message),
        };
        assert(is_document(r, reply_document(given)));
        r
    }

    /// A selected version as a package of this registry.
    pub(crate) fn package(&self, name: String, s: SelectedVersion) -> (r: Resolved)
        ensures
            r@ == resolved_package(self.base_url@, name@, selected_view(s)),
    {
        let (version, tarball, integrity, license) = s;
        let tarball_url = match tarball {
            Some(url) => url,
            None => self.tarball_url(name.as_str(), version.as_str()),
        };
        Resolved { name, version, tarball_url, integrity, license }
    }

    /// The newest published version of `name` in `range`, read from its document.
    pub fn resolve_in(&self, name: &str, range: &Range, doc: &Json) -> (r: Result<
        Resolved,
        String,
    >)
        ensures
            is_resolved(r, resolution(self.base_url@, name@, range@, doc@)),
    {
        match select_version(doc, range) {
            None => Err(no_match_message(name, range)),
            Some(s) => Ok(self.package(name.to_owned(), s)),
        }
    }

    /// Resolve the newest published version of `name` in `range`.
    pub fn resolve<F: Fn(&str, Option<&str>) -> Result<Vec<u8>, String>>(
        &self,
        name: &str,
        range: &Range,
        fetch: &F,
    ) -> (r: Result<Resolved, String>)
        requires
            forall|u: &str, a: Option<&str>| #[trigger] call_requires(*fetch, (u, a)),
        ensures
            is_resolution(*fetch, *self, name@, range@, resolved_result(r)),
    {
        match self.packument(name, fetch) {
            Ok(doc) => self.resolve_in(name, range, &doc),
            Err(message) => Err(message),
        }
    }

    /// Search the registry for `query`, with at most `limit` results in the registry's order.
    pub fn search<F: Fn(&str, Option<&str>) -> Result<Vec<u8>, String>>(
        &self,
        query: &str,
        limit: usize,
        fetch: &F,
    ) -> (r: Result<Vec<SearchResult>, String>)
        requires
            forall|u: &str, a: Option<&str>| #[trigger] call_requires(*fetch, (u, a)),
        ensures
            exists|reply: Result<Vec<u8>, String>|
                #[trigger] fetched(
                    *fetch,
                    search_address(self.base_url@, query@, limit as int),
                    None,
                    reply,
                ) && is_search(
                    r,
                    match reply_document(reply) {
                        Ok(doc) => Ok(search_results(doc)),
                        Err(message) => Err(message),
                    },
                ),
    {
        let url = self.search_url(query, limit);
        let accept: Option<&str> = None;
        let reply = fetch(url.as_str(), accept);
        let ghost given = reply;
        assert(fetched(*fetch, search_address(self.base_url@, query@, limit as int), None, given));
        let parsed = match reply {
            Ok(bytes) => Json::parse(bytes.as_slice()),
            Err(message) => Err(message),
        };
        assert(is_document(parsed, reply_document(given)));
        match parsed {
            Ok(doc) => Ok(parse_search(&doc)),
            Err(message) => Err(message),
        }
    }
}

// ---------------------------------------------------------------------------
// Laws
// ---------------------------------------------------------------------------

/// A search keeps every object that names a package, in the registry's order, and nothing else:
/// the `k`-th result is about the `k`-th object that has a text as the name of its package.
pub proof fn law_searches_keep_every_package(
    doc: crate::json::JsonView,
    objects: Seq<crate::json::JsonView>,
)
    requires
        crate::json::member(doc, "objects"@) == Some(crate::json::JsonView::Array(objects)),
    ensures
        ({
            let named = objects.filter(
                |o: crate::json::JsonView|
                    crate::json::member(o, "package"@) matches Some(package)
                        && crate::json::member(package, "name"@) matches Some(name)
                        && name is Text,
            );
            let results = search_results(doc);
            &&& results.len() == named.len()
            &&& forall|k: int|
                0 <= k < results.len() ==> is_result_of(#[trigger] results[k], named[k])
        }),
{
    lemma_entries_are_filtered(objects);
}

/// `result` says what `object` says of its package: each text as it stands there, an absent
/// version as an empty one.
pub open spec fn is_result_of(result: SearchResultView, object: crate::json::JsonView) -> bool {
    let package = crate::json::member(object, "package"@)->0;
    &&& crate::json::member(package, "name"@) == Some(crate::json::JsonView::Text(result.name))
    &&& match crate::json::member(package, "version"@) {
        Some(crate::json::JsonView::Text(version)) => result.version == version,
        _ => result.version.len() == 0,
    }
    &&& says(crate::json::member(package, "description"@), result.description)
    &&& says(crate::json::member(package, "date"@), result.date)
    &&& match crate::json::member(package, "links"@) {
        Some(links) => says(crate::json::member(links, "homepage"@), result.homepage),
        None => result.homepage is None,
    }
    &&& match crate::json::member(package, "keywords"@) {
        Some(crate::json::JsonView::Array(items)) => result.keywords == items.filter_map(
            |d: crate::json::JsonView|
                match d {
                    crate::json::JsonView::Text(t) => Some(t),
                    _ => None,
                },
        ),
        _ => result.keywords.len() == 0,
    }
}

/// `text` is what a member says: its text, or nothing where it is absent or no text.
pub open spec fn says(member: Option<crate::json::JsonView>, text: Option<Text>) -> bool {
    match text {
        Some(t) => member == Some(crate::json::JsonView::Text(t)),
        None => !(member matches Some(crate::json::JsonView::Text(_))),
    }
}

proof fn lemma_entries_are_filtered(objects: Seq<crate::json::JsonView>)
    ensures
        ({
            let named = objects.filter(
                |o: crate::json::JsonView|
                    crate::json::member(o, "package"@) matches Some(package)
                        && crate::json::member(package, "name"@) matches Some(name)
                        && name is Text,
            );
            let results = search_entries(objects);
            &&& results.len() == named.len()
            &&& forall|k: int|
                0 <= k < results.len() ==> is_result_of(#[trigger] results[k], named[k])
        }),
    decreases objects.len(),
{
    reveal(Seq::filter);
    if objects.len() > 0 {
        lemma_entries_are_filtered(objects.drop_last());
        if let Some(package) = crate::json::member(objects.last(), "package"@) {
            if let Some(crate::json::JsonView::Array(items)) = crate::json::member(
                package,
                "keywords"@,
            ) {
                crate::json::law_strings_are_the_texts(items);
            }
        }
    }
}

/// A response without objects has no results.
pub proof fn law_searches_need_objects(doc: crate::json::JsonView)
    ensures
        search_results(doc).len() > 0 ==> crate::json::member(doc, "objects"@) matches Some(
            crate::json::JsonView::Array(_),
        ),
{
}

/// The members of the object at `key` of a version's metadata; none where there is no object.
pub open spec fn table_at(meta: crate::json::JsonView, key: Text) -> Seq<
    (Text, crate::json::JsonView),
> {
    match crate::json::member(meta, key) {
        Some(crate::json::JsonView::Object(list)) => list,
        _ => Seq::empty(),
    }
}

/// `list` has a member called `name`.
pub open spec fn names(list: Seq<(Text, crate::json::JsonView)>, name: Text) -> bool {
    exists|i: int| 0 <= i < list.len() && (#[trigger] list[i]).0 == name
}

/// The required dependencies of a version are the texts of its `dependencies`, in order, and
/// without the optional ones they are all.
pub proof fn law_required_dependencies_are_read(meta: crate::json::JsonView)
    ensures
        dependencies_in(Some(meta), false) == table_at(meta, "dependencies"@).filter_map(
            |m: (Text, crate::json::JsonView)|
                match m.1 {
                    crate::json::JsonView::Text(spec) => Some((m.0, spec, false)),
                    _ => None,
                },
        ),
{
    lemma_declared(table_at(meta, "dependencies"@), false);
}

/// With the optional dependencies, every text member of `optionalDependencies` is a dependency
/// that is optional, and every text member of `dependencies` that is not named there one that is
/// not; there are no others. A name that `optionalDependencies` repeats counts as it stands last.
pub proof fn law_all_dependencies_are_read(meta: crate::json::JsonView)
    ensures
        ({
            let required = table_at(meta, "dependencies"@);
            let optional = table_at(meta, "optionalDependencies"@);
            let read = dependencies_in(Some(meta), true);
            &&& forall|i: int|
                #![trigger optional[i]]
                0 <= i < optional.len() && optional[i].1 is Text && !names(
                    optional.skip(i + 1),
                    optional[i].0,
                ) ==> read.contains((optional[i].0, optional[i].1->Text_0, true))
            &&& forall|i: int|
                #![trigger required[i]]
                0 <= i < required.len() && required[i].1 is Text && !names(
                    optional,
                    required[i].0,
                ) ==> read.contains((required[i].0, required[i].1->Text_0, false))
            &&& forall|k: int|
                0 <= k < read.len() ==> (if (#[trigger] read[k]).2 {
                    optional
                } else {
                    required
                }).contains((read[k].0, crate::json::JsonView::Text(read[k].1)))
        }),
{
    let required = table_at(meta, "dependencies"@);
    let optional = table_at(meta, "optionalDependencies"@);
    let base = declared(required, false);
    let over = declared(optional, true);
    let read = dependencies_in(Some(meta), true);
    lemma_declared_holds(required, false);
    lemma_declared_holds(optional, true);
    lemma_overlaid_holds(base, over);
    assert forall|i: int|
        #![trigger optional[i]]
        0 <= i < optional.len() && optional[i].1 is Text && !names(
            optional.skip(i + 1),
            optional[i].0,
        ) implies read.contains((optional[i].0, optional[i].1->Text_0, true)) by {
        lemma_declared_last(optional, true, i);
        let at = choose|at: int|
            0 <= at < over.len() && #[trigger] over[at] == (
                optional[i].0,
                optional[i].1->Text_0,
                true,
            ) && forall|j: int| at < j < over.len() ==> (#[trigger] over[j]).0 != optional[i].0;
        assert(read.contains(over[at]));
    }
    assert forall|i: int|
        #![trigger required[i]]
        0 <= i < required.len() && required[i].1 is Text && !names(
            optional,
            required[i].0,
        ) implies read.contains((required[i].0, required[i].1->Text_0, false)) by {
        let entry = (required[i].0, required[i].1->Text_0, false);
        assert(base.contains(entry));
        let at = choose|at: int| 0 <= at < base.len() && base[at] == entry;
        assert forall|j: int| 0 <= j < over.len() implies (#[trigger] over[j]).0 != entry.0 by {
            if over[j].0 == entry.0 {
                assert(optional.contains((over[j].0, crate::json::JsonView::Text(over[j].1))));
                let m = choose|m: int|
                    0 <= m < optional.len() && optional[m] == (
                        over[j].0,
                        crate::json::JsonView::Text(over[j].1),
                    );
                assert(names(optional, required[i].0));
            }
        }
        assert(read.contains(base[at]));
    }
    assert forall|k: int| 0 <= k < read.len() implies (if (#[trigger] read[k]).2 {
        optional
    } else {
        required
    }).contains((read[k].0, crate::json::JsonView::Text(read[k].1))) by {
        if base.contains(read[k]) {
            let at = choose|at: int| 0 <= at < base.len() && base[at] == read[k];
            assert(required.contains((base[at].0, crate::json::JsonView::Text(base[at].1))));
        } else {
            assert(over.contains(read[k]));
            let at = choose|at: int| 0 <= at < over.len() && over[at] == read[k];
            assert(optional.contains((over[at].0, crate::json::JsonView::Text(over[at].1))));
        }
    }
}

/// The dependencies of a version are those of its metadata, which stands at the version under
/// `versions`; a version that is not there has none.
pub proof fn law_dependencies_are_the_versions_own(
    doc: crate::json::JsonView,
    version: Text,
    include_optional: bool,
)
    ensures
        match crate::json::member(doc, "versions"@) {
            Some(versions) => match crate::json::member(versions, version) {
                Some(meta) => dependencies(doc, version, include_optional) == dependencies_in(
                    Some(meta),
                    include_optional,
                ),
                None => dependencies(doc, version, include_optional).len() == 0,
            },
            None => dependencies(doc, version, include_optional).len() == 0,
        },
{
    assert(all_overlaid(Seq::empty(), Seq::empty()).len() == 0);
}

proof fn lemma_declared(list: Seq<(Text, crate::json::JsonView)>, optional: bool)
    ensures
        declared(list, optional) == list.filter_map(
            |m: (Text, crate::json::JsonView)|
                match m.1 {
                    crate::json::JsonView::Text(spec) => Some((m.0, spec, optional)),
                    _ => None,
                },
        ),
    decreases list.len(),
{
    if list.len() > 0 {
        lemma_declared(list.drop_last(), optional);
    }
}

proof fn lemma_declared_holds(list: Seq<(Text, crate::json::JsonView)>, optional: bool)
    ensures
        forall|i: int|
            #![trigger list[i]]
            0 <= i < list.len() && list[i].1 is Text ==> declared(list, optional).contains(
                (list[i].0, list[i].1->Text_0, optional),
            ),
        forall|k: int|
            0 <= k < declared(list, optional).len() ==> (#[trigger] declared(list, optional)[k]).2
                == optional && list.contains(
                (
                    declared(list, optional)[k].0,
                    crate::json::JsonView::Text(declared(list, optional)[k].1),
                ),
            ),
    decreases list.len(),
{
    if list.len() > 0 {
        let shorter = list.drop_last();
        lemma_declared_holds(shorter, optional);
        let earlier = declared(shorter, optional);
        let now = declared(list, optional);
        assert forall|i: int|
            #![trigger list[i]]
            0 <= i < list.len() && list[i].1 is Text implies now.contains(
            (list[i].0, list[i].1->Text_0, optional),
        ) by {
            let entry = (list[i].0, list[i].1->Text_0, optional);
            if i < shorter.len() {
                assert(shorter[i] == list[i]);
                let at = choose|at: int| 0 <= at < earlier.len() && earlier[at] == entry;
                assert(now[at] == entry);
            } else {
                assert(now[now.len() - 1] == entry);
            }
        }
        assert forall|k: int| 0 <= k < now.len() implies (#[trigger] now[k]).2 == optional
            && list.contains((now[k].0, crate::json::JsonView::Text(now[k].1))) by {
            if k < earlier.len() {
                assert(now[k] == earlier[k]);
                let m = choose|m: int|
                    0 <= m < shorter.len() && shorter[m] == (
                        now[k].0,
                        crate::json::JsonView::Text(now[k].1),
                    );
                assert(list[m] == shorter[m]);
            } else {
                assert(list[list.len() - 1] == (now[k].0, crate::json::JsonView::Text(now[k].1)));
            }
        }
    }
}

/// A text member whose name does not occur again is the last dependency of its name.
proof fn lemma_declared_last(list: Seq<(Text, crate::json::JsonView)>, optional: bool, i: int)
    requires
        0 <= i < list.len(),
        list[i].1 is Text,
        !names(list.skip(i + 1), list[i].0),
    ensures
        exists|at: int|
            0 <= at < declared(list, optional).len() && #[trigger] declared(list, optional)[at] == (
                list[i].0,
                list[i].1->Text_0,
                optional,
            ) && forall|j: int|
                at < j < declared(list, optional).len() ==> (#[trigger] declared(
                    list,
                    optional,
                )[j]).0 != list[i].0,
    decreases list.len(),
{
    let shorter = list.drop_last();
    let earlier = declared(shorter, optional);
    let now = declared(list, optional);
    if i == list.len() - 1 {
        assert(now[now.len() - 1] == (list[i].0, list[i].1->Text_0, optional));
    } else {
        assert(!names(shorter.skip(i + 1), shorter[i].0)) by {
            if names(shorter.skip(i + 1), shorter[i].0) {
                let k = choose|k: int|
                    0 <= k < shorter.skip(i + 1).len() && (#[trigger] shorter.skip(i + 1)[k]).0
                        == shorter[i].0;
                assert(list.skip(i + 1)[k].0 == list[i].0);
            }
        }
        lemma_declared_last(shorter, optional, i);
        let at = choose|at: int|
            0 <= at < earlier.len() && #[trigger] earlier[at] == (
                list[i].0,
                list[i].1->Text_0,
                optional,
            ) && forall|j: int| at < j < earlier.len() ==> (#[trigger] earlier[j]).0 != list[i].0;
        assert(now[at] == earlier[at]);
        assert(list.last().0 != list[i].0) by {
            assert(list.skip(i + 1)[list.len() - i - 2] == list.last());
        }
        assert forall|j: int| at < j < now.len() implies (#[trigger] now[j]).0 != list[i].0 by {
            if j < earlier.len() {
                assert(now[j] == earlier[j]);
            }
        }
    }
}

proof fn lemma_overlaid_holds(list: Seq<DependencyView>, entries: Seq<DependencyView>)
    ensures
        ({
            let whole = all_overlaid(list, entries);
            &&& forall|i: int|
                #![trigger entries[i]]
                0 <= i < entries.len() && (forall|j: int|
                    i < j < entries.len() ==> (#[trigger] entries[j]).0 != entries[i].0)
                    ==> whole.contains(entries[i])
            &&& forall|i: int|
                #![trigger list[i]]
                0 <= i < list.len() && (forall|j: int|
                    0 <= j < entries.len() ==> (#[trigger] entries[j]).0 != list[i].0)
                    ==> whole.contains(list[i])
            &&& forall|k: int|
                0 <= k < whole.len() ==> list.contains(#[trigger] whole[k]) || entries.contains(
                    whole[k],
                )
        }),
    decreases entries.len(),
{
    let whole = all_overlaid(list, entries);
    if entries.len() > 0 {
        let shorter = entries.drop_last();
        let entry = entries.last();
        let inner = all_overlaid(list, shorter);
        lemma_overlaid_holds(list, shorter);
        lemma_overlaid(inner, entry);
        assert forall|i: int|
            #![trigger entries[i]]
            0 <= i < entries.len() && (forall|j: int|
                i < j < entries.len() ==> (#[trigger] entries[j]).0
                    != entries[i].0) implies whole.contains(entries[i]) by {
            if i < shorter.len() {
                assert(shorter[i] == entries[i]);
                assert forall|j: int| i < j < shorter.len() implies (#[trigger] shorter[j]).0
                    != shorter[i].0 by {
                    assert(shorter[j] == entries[j]);
                }
                assert(entries[entries.len() - 1].0 != entries[i].0);
                assert(inner.contains(shorter[i]));
            }
        }
        assert forall|i: int|
            #![trigger list[i]]
            0 <= i < list.len() && (forall|j: int|
                0 <= j < entries.len() ==> (#[trigger] entries[j]).0
                    != list[i].0) implies whole.contains(list[i]) by {
            assert forall|j: int| 0 <= j < shorter.len() implies (#[trigger] shorter[j]).0
                != list[i].0 by {
                assert(shorter[j] == entries[j]);
            }
            assert(entries[entries.len() - 1].0 != list[i].0);
            assert(inner.contains(list[i]));
        }
        assert forall|k: int| 0 <= k < whole.len() implies list.contains(#[trigger] whole[k])
            || entries.contains(whole[k]) by {
            if whole[k] == entry {
                assert(entries[entries.len() - 1] == entry);
            } else {
                assert(whole.contains(whole[k]));
                assert(inner.contains(whole[k]));
                let m = choose|m: int| 0 <= m < inner.len() && inner[m] == whole[k];
                assert(list.contains(inner[m]) || shorter.contains(inner[m]));
                if shorter.contains(inner[m]) {
                    let j = choose|j: int| 0 <= j < shorter.len() && shorter[j] == inner[m];
                    assert(entries[j] == shorter[j]);
                }
            }
        }
    } else {
        assert(whole == list);
    }
}

/// An entry over a list is in it, and takes the place of nothing but an entry of its name.
proof fn lemma_overlaid(list: Seq<DependencyView>, entry: DependencyView)
    ensures
        overlaid(list, entry).contains(entry),
        forall|e: DependencyView|
            #![trigger overlaid(list, entry).contains(e)]
            #![trigger list.contains(e)]
            e.0 != entry.0 ==> (overlaid(list, entry).contains(e) <==> list.contains(e)),
        forall|e: DependencyView| #[trigger] overlaid(list, entry).contains(e) ==> e == entry
            || list.contains(e),
{
    lemma_position_of(list, entry.0);
    let now = overlaid(list, entry);
    match position_of(list, entry.0) {
        Some(at) => {
            assert(now[at] == entry);
            assert forall|e: DependencyView| e.0 != entry.0 && list.contains(e) implies (
            #[trigger] now.contains(e)) by {
                let k = choose|k: int| 0 <= k < list.len() && list[k] == e;
                assert(now[k] == e);
            }
        },
        None => {
            assert(now[list.len() as int] == entry);
            assert forall|e: DependencyView| list.contains(e) implies (
            #[trigger] now.contains(e)) by {
                let k = choose|k: int| 0 <= k < list.len() && list[k] == e;
                assert(now[k] == e);
            }
        },
    }
    assert forall|e: DependencyView| #[trigger] now.contains(e) implies e == entry
        || list.contains(e) by {
        let k = choose|k: int| 0 <= k < now.len() && now[k] == e;
        if e != entry {
            assert(list[k] == e);
        }
    }
}

proof fn lemma_position_of(list: Seq<DependencyView>, name: Text)
    ensures
        position_of(list, name) matches Some(at) ==> 0 <= at < list.len() && list[at].0 == name,
    decreases list.len(),
{
    if list.len() > 0 {
        lemma_position_of(list.drop_last(), name);
    }
}

/// A query is escaped byte by byte: letters, digits and `-_.~` stand for themselves, and any other
/// byte is a `%` with its two hexadecimal digits.
pub proof fn law_queries_are_escaped(bytes: Seq<u8>, more: Seq<u8>, b: u8)
    ensures
        escaped(bytes + more) == escaped(bytes) + escaped(more),
        escaped(Seq::empty()).len() == 0,
        ('a' <= b as char <= 'z' || 'A' <= b as char <= 'Z' || '0' <= b as char <= '9' || b as char
            == '-' || b as char == '_' || b as char == '.' || b as char == '~') ==> escaped(seq![b])
            == seq![b as char],
        !('a' <= b as char <= 'z' || 'A' <= b as char <= 'Z' || '0' <= b as char <= '9' || b as char
            == '-' || b as char == '_' || b as char == '.' || b as char == '~') ==> escaped(seq![b])
            == seq!['%', hex_digit(b / 16), hex_digit(b % 16)],
    decreases more.len(),
{
    reveal_with_fuel(escaped, 2);
    assert(seq![b].drop_last() == Seq::<u8>::empty());
    if more.len() == 0 {
        assert(bytes + more == bytes);
    } else {
        assert((bytes + more).drop_last() == bytes + more.drop_last());
        law_queries_are_escaped(bytes, more.drop_last(), b);
    }
}

/// The hexadecimal digits are `0` to `9` and `A` to `F`, in order.
pub proof fn law_hexadecimal_digits(n: u8)
    requires
        n < 16,
    ensures
        n < 10 ==> hex_digit(n) as int == '0' as int + n,
        n >= 10 ==> hex_digit(n) as int == 'A' as int + n - 10,
{
}

/// The document of a package without a scope is at its name; that of a scoped one has the
/// separator of the scope escaped.
pub proof fn law_packuments_are_addressed_by_name(base: Text, scope: Text, name: Text)
    requires
        !scope.contains('/'),
        !crate::text::begins(name, "@"@),
    ensures
        packument_address(base, name) == base + "/"@ + name,
        packument_address(base, "@"@ + scope + "/"@ + name) == base + "/@"@ + scope + "%2f"@ + name,
{
    reveal_strlit("@");
    reveal_strlit("/");
    reveal_strlit("/@");
    let whole = "@"@ + scope + "/"@ + name;
    assert(whole.take(1) == "@"@);
    let rest = whole.skip(1);
    assert(rest == scope + "/"@ + name);
    crate::text::lemma_first_separator(scope, "/"@, name);
    assert(rest.take(scope.len() as int) == scope);
    assert(rest.skip(scope.len() as int + 1) == name);
    assert(packument_address(base, whole) =~= base + "/@"@ + scope + "%2f"@ + name);
}

/// The tarball of a package stands below it under its name, which is that without its scope.
pub proof fn law_tarballs_are_named_without_the_scope(base: Text, scope: Text, name: Text, v: Text)
    requires
        !name.contains('/'),
    ensures
        tarball_address(base, name, v) == base + "/"@ + name + "/-/"@ + name + "-"@ + v + ".tgz"@,
        tarball_address(base, scope + "/"@ + name, v) == base + "/"@ + (scope + "/"@ + name)
            + "/-/"@ + name + "-"@ + v + ".tgz"@,
{
    reveal_strlit("/");
    crate::text::law_what_follows_the_last(Seq::empty(), '/', name);
    crate::text::law_what_follows_the_last(scope, '/', name);
    assert(scope + seq!['/'] + name == scope + "/"@ + name);
}

/// A search asks for as many results as were wanted, within what the registry serves.
pub proof fn law_page_sizes(n: int)
    ensures
        1 <= page_size(n) <= 250,
        1 <= n <= 250 ==> page_size(n) == n,
        n < 1 ==> page_size(n) == 1,
        n > 250 ==> page_size(n) == 250,
{
}

/// A `license` that is a text is the license; one that is an object gives its `type`.
pub proof fn law_single_licenses(meta: crate::json::JsonView, license: crate::json::JsonView)
    requires
        crate::json::member(meta, "license"@) == Some(license),
    ensures
        license matches crate::json::JsonView::Text(text) ==> declared_license(meta) == Some(text),
        crate::json::member(license, "type"@) matches Some(crate::json::JsonView::Text(text))
            ==> declared_license(meta) == Some(text),
{
}

/// Without a usable `license`, the types of all `licenses` count, in order and joined by ` OR `;
/// where there is none there is no license.
pub proof fn law_several_licenses(meta: crate::json::JsonView)
    requires
        crate::json::member(meta, "license"@) matches Some(license) ==> !(license is Text) && !(
        crate::json::member(license, "type"@) matches Some(crate::json::JsonView::Text(_))),
    ensures
        match crate::json::member(meta, "licenses"@) {
            Some(crate::json::JsonView::Array(items)) => {
                let types = items.filter_map(
                    |d: crate::json::JsonView|
                        match crate::json::member(d, "type"@) {
                            Some(crate::json::JsonView::Text(text)) => Some(text),
                            _ => None,
                        },
                );
                declared_license(meta) == if types.len() > 0 {
                    Some(crate::text::joined(types, " OR "@))
                } else {
                    None
                }
            },
            _ => declared_license(meta) is None,
        },
{
    if let Some(crate::json::JsonView::Array(items)) = crate::json::member(meta, "licenses"@) {
        lemma_license_types(items);
    }
}

proof fn lemma_license_types(items: Seq<crate::json::JsonView>)
    ensures
        license_types(items) == items.filter_map(
            |d: crate::json::JsonView|
                match crate::json::member(d, "type"@) {
                    Some(crate::json::JsonView::Text(text)) => Some(text),
                    _ => None,
                },
        ),
    decreases items.len(),
{
    if items.len() > 0 {
        lemma_license_types(items.drop_last());
    }
}

/// What is selected is a published version that the range admits, with the tarball, the integrity
/// and the license that its own entry says; there is one wherever some published version is
/// admitted.
pub proof fn law_selections_are_published(
    doc: crate::json::JsonView,
    versions: Seq<(Text, crate::json::JsonView)>,
    requirements: Seq<Text>,
)
    requires
        crate::json::member(doc, "versions"@) == Some(crate::json::JsonView::Object(versions)),
    ensures
        match selected(doc, requirements) {
            Some(s) => exists|i: int|
                0 <= i < versions.len() && (#[trigger] versions[i]).0 == s.0
                    && crate::version::is_version(s.0) && (exists|k: int|
                    0 <= k < requirements.len() && crate::version::admits(
                        #[trigger] requirements[k],
                        s.0,
                    )) && is_entry_of(s, versions[i].1),
            None => forall|i: int, k: int|
                0 <= i < versions.len() && 0 <= k < requirements.len()
                    && crate::version::is_version((#[trigger] versions[i]).0)
                    ==> !crate::version::admits(#[trigger] requirements[k], versions[i].0),
        },
{
    lemma_newest(versions, requirements);
}

/// `s` says what the entry `meta` of a version says.
pub open spec fn is_entry_of(s: SelectedView, meta: crate::json::JsonView) -> bool {
    &&& match crate::json::member(meta, "dist"@) {
        Some(dist) => says(crate::json::member(dist, "tarball"@), s.1) && says(
            crate::json::member(dist, "integrity"@),
            s.2,
        ),
        None => s.1 is None && s.2 is None,
    }
    &&& s.3 == declared_license(meta)
}

proof fn lemma_newest(versions: Seq<(Text, crate::json::JsonView)>, requirements: Seq<Text>)
    ensures
        match newest(versions, requirements) {
            Some(i) => 0 <= i < versions.len() && is_candidate(versions[i], requirements),
            None => forall|i: int|
                0 <= i < versions.len() ==> !is_candidate(#[trigger] versions[i], requirements),
        },
    decreases versions.len(),
{
    if versions.len() > 0 {
        let shorter = versions.drop_last();
        lemma_newest(shorter, requirements);
        if newest(versions, requirements) is None {
            assert forall|i: int| 0 <= i < versions.len() implies !is_candidate(
                #[trigger] versions[i],
                requirements,
            ) by {
                if i < shorter.len() {
                    assert(shorter[i] == versions[i]);
                }
            }
        } else if let Some(i) = newest(shorter, requirements) {
            assert(shorter[i] == versions[i]);
        }
    }
}

/// A package resolves exactly where a version is selected, and to that version: with its own
/// tarball where it has one and otherwise the conventional one, its integrity and its license.
pub proof fn law_packages_resolve_to_their_selection(
    base: Text,
    name: Text,
    requirements: Seq<Text>,
    doc: crate::json::JsonView,
)
    ensures
        resolution(base, name, requirements, doc) is Ok <==> selected(doc, requirements) is Some,
        resolution(base, name, requirements, doc) matches Err(message) ==> message
            == "no published version of "@ + name + " matches "@ + crate::text::joined(
            requirements,
            " || "@,
        ),
        resolution(base, name, requirements, doc) matches Ok(package) ==> {
            let s = selected(doc, requirements)->0;
            &&& package.name == name
            &&& package.version == s.0
            &&& s.1 matches Some(url) ==> package.tarball_url == url
            &&& s.1 is None ==> package.tarball_url == tarball_address(base, name, s.0)
            &&& package.integrity == s.2
            &&& package.license == s.3
        },
{
}

/// Recording an omission keeps those that are recorded, in order, and adds it unless it is there:
/// nothing is recorded twice.
pub proof fn law_omissions_are_recorded_once(list: Seq<OmissionView>, omission: OmissionView)
    ensures
        with_omission(list, omission).contains(omission),
        list.is_prefix_of(with_omission(list, omission)),
        with_omission(list, omission).len() == list.len() + if list.contains(omission) {
            0int
        } else {
            1
        },
        list.no_duplicates() ==> with_omission(list, omission).no_duplicates(),
{
    let now = with_omission(list, omission);
    if !list.contains(omission) {
        assert(now[list.len() as int] == omission);
    }
}

/// What the audit does with a dependency, by how its spec reads: a range of the registry is
/// resolved under the dependency's own name, an alias to a range under its target's, and nothing
/// else is followed; what is not followed is recorded under its own name and spec.
pub proof fn law_dependencies_are_followed_by_their_spec(name: Text, spec: Text)
    ensures
        ({
            let text = crate::text::trimmed(spec);
            let protocol = crate::text::begins(text, "workspace:"@) || crate::text::begins(
                text,
                "link:"@,
            );
            let read = crate::dependency::spec_of(text);
            let action = edge_action(name, spec);
            let followed = if protocol {
                None
            } else {
                match read {
                    crate::dependency::SpecView::Registry(range) => Some((name, range)),
                    crate::dependency::SpecView::Alias(target, inner) => match *inner {
                        crate::dependency::SpecView::Registry(range) => Some((target, range)),
                        _ => None,
                    },
                    _ => None,
                }
            };
            match followed {
                Some((target, range)) => match crate::dependency::range_of(range) {
                    Ok(requirements) => action == Ok::<EdgeActionView, Text>(
                        EdgeActionView::Resolve(target, requirements),
                    ),
                    Err(message) => action == Err::<EdgeActionView, Text>(message),
                },
                None => action matches Ok(EdgeActionView::Omit(omission)) && omission.name == name
                    && omission.spec == text && omission.reason == if crate::text::begins(
                    text,
                    "workspace:"@,
                ) {
                    "workspace: protocol"@
                } else if protocol {
                    "link: protocol"@
                } else {
                    match read {
                        crate::dependency::SpecView::Git(_) => "git dependency"@,
                        crate::dependency::SpecView::Tarball(_) => "remote tarball"@,
                        crate::dependency::SpecView::Path(_) => "local path"@,
                        _ => "npm: alias to a non-registry target"@,
                    }
                },
            }
        }),
{
}

/// An install asks for the abbreviated document by its media type; the full one is the default.
pub proof fn law_details_are_asked_for()
    ensures
        accept_header(PackumentDetail::Full) is None,
        accept_header(PackumentDetail::Abbreviated) == Some("application/vnd.npm.install-v1+json"@),
{
}

/// An omission is shown with its name, its spec where it has one, and its reason.
pub proof fn law_omissions_are_shown(omission: OmissionView)
    ensures
        crate::text::begins(omission_text(omission), omission.name + " ("@),
        crate::dependency::ends(omission_text(omission), omission.reason + ")"@),
        omission.spec.len() > 0 ==> crate::text::begins(
            omission_text(omission),
            omission.name + " ("@ + omission.spec + ": "@,
        ),
        omission.spec.len() == 0 ==> omission_text(omission).len() == omission.name.len() + 3
            + omission.reason.len(),
{
    reveal_strlit(" (");
    reveal_strlit(": ");
    reveal_strlit(")");
    let text = omission_text(omission);
    let head = omission.name + " ("@;
    let tail = omission.reason + ")"@;
    assert(text.take(head.len() as int) =~= head);
    assert(text.skip(text.len() - tail.len()) =~= tail);
    if omission.spec.len() > 0 {
        let long = omission.name + " ("@ + omission.spec + ": "@;
        assert(text.take(long.len() as int) =~= long);
    }
}

/// The values of lists hold the value of every item, in order.
pub proof fn law_lists_hold_every_item(
    dependencies: Seq<(String, String, bool)>,
    results: Seq<SearchResult>,
    omissions: Seq<Omission>,
    i: int,
)
    ensures
        dependency_views(dependencies).len() == dependencies.len(),
        0 <= i < dependencies.len() ==> dependency_views(dependencies)[i] == (
            dependencies[i].0@,
            dependencies[i].1@,
            dependencies[i].2,
        ),
        result_views(results).len() == results.len(),
        0 <= i < results.len() ==> result_views(results)[i] == results[i]@,
        omission_views(omissions).len() == omissions.len(),
        0 <= i < omissions.len() ==> omission_views(omissions)[i] == (OmissionView {
            name: omissions[i].name@,
            spec: omissions[i].spec@,
            reason: omissions[i].reason@,
        }),
{
}

/// A result is what is wanted of it where both succeed with the same value or both fail with the
/// same message.
pub proof fn law_results_are_told_in_full(
    document: Result<Json, String>,
    doc: Result<crate::json::JsonView, Text>,
    package: Result<Resolved, String>,
    resolved: Result<ResolvedView, Text>,
    action: Result<EdgeAction, String>,
    edge: Result<EdgeActionView, Text>,
)
    ensures
        is_document(document, doc) <==> match document {
            Ok(held) => doc matches Ok(value) && held@ == value,
            Err(held) => doc matches Err(message) && held@ == message,
        },
        is_resolved(package, resolved) <==> match package {
            Ok(held) => resolved matches Ok(value) && held@ == value,
            Err(held) => resolved matches Err(message) && held@ == message,
        },
        match package {
            Ok(held) => resolved_result(package) == Ok::<ResolvedView, Text>(held@),
            Err(held) => resolved_result(package) == Err::<ResolvedView, Text>(held@),
        },
        is_action(action, edge) <==> match action {
            Ok(held) => edge matches Ok(value) && held@ == value,
            Err(held) => edge matches Err(message) && held@ == message,
        },
{
}

/// The document in a reply is the one that its bytes hold; a reply that failed, or that holds none,
/// says why.
pub proof fn law_replies_hold_documents(bytes: Vec<u8>, message: String)
    ensures
        reply_document(Ok(bytes)) == crate::json::json_document(bytes@),
        reply_document(Err(message)) == Err::<crate::json::JsonView, Text>(message@),
{
}

/// A package that is looked up is resolved in the document that was fetched for it, from its
/// address and in the form that is asked for; a fetch that fails fails it.
pub proof fn law_packages_are_resolved_in_their_document<
    F: Fn(&str, Option<&str>) -> Result<Vec<u8>, String>,
>(
    fetch: F,
    registry: Registry,
    name: Text,
    requirements: Seq<Text>,
    doc: crate::json::JsonView,
    r: Result<ResolvedView, Text>,
)
    requires
        is_resolution(fetch, registry, name, requirements, r),
        forall|reply: Result<Vec<u8>, String>|
            #[trigger] fetched(
                fetch,
                packument_address(registry.base_url@, name),
                accept_header(registry.detail),
                reply,
            ) ==> reply is Ok && crate::json::json_document(reply->Ok_0@) == Ok::<
                crate::json::JsonView,
                Text,
            >(doc),
    ensures
        r == resolution(registry.base_url@, name, requirements, doc),
{
}

/// The newest published version that is in range is selected: where the versions are ordered, as
/// they are, no other that is in range is newer.
pub proof fn law_the_newest_version_is_selected(
    doc: crate::json::JsonView,
    versions: Seq<(Text, crate::json::JsonView)>,
    requirements: Seq<Text>,
    j: int,
    k: int,
)
    requires
        crate::json::member(doc, "versions"@) == Some(crate::json::JsonView::Object(versions)),
        orders_versions(),
        0 <= j < versions.len(),
        crate::version::is_version(versions[j].0),
        0 <= k < requirements.len(),
        crate::version::admits(requirements[k], versions[j].0),
    ensures
        selected(doc, requirements) matches Some(s) && (s.0 == versions[j].0
            || crate::version::older(versions[j].0, s.0)),
{
    assert(is_candidate(versions[j], requirements));
    lemma_none_is_newer(versions, requirements, j);
}

/// Of two versions one is older, unless they are the same, which is then no older than itself; and
/// what is older than an older one is older.
pub open spec fn orders_versions() -> bool {
    &&& forall|a: Text, b: Text|
        crate::version::is_version(a) && crate::version::is_version(b) ==> a == b
            || #[trigger] crate::version::older(a, b) || crate::version::older(b, a)
    &&& forall|a: Text| crate::version::is_version(a) ==> !#[trigger] crate::version::older(a, a)
    &&& forall|a: Text, b: Text, c: Text|
        #![trigger crate::version::older(a, b), crate::version::older(b, c)]
        crate::version::is_version(a) && crate::version::is_version(b)
            && crate::version::is_version(c) && crate::version::older(a, b)
            && crate::version::older(b, c) ==> crate::version::older(a, c)
}

proof fn lemma_none_is_newer(
    list: Seq<(Text, crate::json::JsonView)>,
    requirements: Seq<Text>,
    j: int,
)
    requires
        orders_versions(),
        0 <= j < list.len(),
        is_candidate(list[j], requirements),
    ensures
        newest(list, requirements) matches Some(i) && 0 <= i < list.len() && is_candidate(
            list[i],
            requirements,
        ) && (list[i].0 == list[j].0 || crate::version::older(list[j].0, list[i].0)),
    decreases list.len(),
{
    let shorter = list.drop_last();
    crate::soundness::lemma_newest_is_candidate(shorter, requirements);
    if j < shorter.len() {
        assert(shorter[j] == list[j]);
        lemma_none_is_newer(shorter, requirements, j);
    } else if let Some(i) = newest(shorter, requirements) {
        assert(shorter[i] == list[i]);
        assert(crate::version::older(list[i].0, list[j].0) || !crate::version::older(
            list[i].0,
            list[j].0,
        ));
    }
}

/// Searches are addressed by the text that is searched for, escaped, and by how many results are
/// asked for.
pub proof fn law_searches_are_addressed_by_their_query(base: Text, query: Text, limit: int)
    ensures
        search_address(base, query, limit) == base + "/-/v1/search?text="@ + escaped(
            vstd::utf8::encode_utf8(query),
        ) + "&size="@ + crate::text::decimal(page_size(limit) as nat),
{
}

/// A search gives the results of the document that was fetched, or says why there is none.
pub proof fn law_searches_are_told_in_full(
    r: Result<Vec<SearchResult>, String>,
    wanted: Result<Seq<SearchResultView>, Text>,
)
    ensures
        is_search(r, wanted) <==> match r {
            Ok(held) => wanted matches Ok(value) && result_views(held@) == value,
            Err(held) => wanted matches Err(message) && held@ == message,
        },
{
}

/// Dependencies keep their place: whatever is laid over them later, those that came before stand
/// where they stood.
pub proof fn law_dependencies_keep_their_place(
    list: Seq<DependencyView>,
    entries: Seq<DependencyView>,
    more: Seq<DependencyView>,
    i: int,
)
    requires
        0 <= i < all_overlaid(list, entries).len(),
    ensures
        i < all_overlaid(list, entries + more).len(),
        all_overlaid(list, entries + more)[i].0 == all_overlaid(list, entries)[i].0,
    decreases more.len(),
{
    if more.len() == 0 {
        assert(entries + more =~= entries);
    } else {
        law_dependencies_keep_their_place(list, entries, more.drop_last(), i);
        assert((entries + more).drop_last() =~= entries + more.drop_last());
        let before = all_overlaid(list, entries + more.drop_last());
        lemma_position(before, more.last().0);
    }
}

proof fn lemma_position(list: Seq<DependencyView>, name: Text)
    ensures
        position_of(list, name) matches Some(i) ==> 0 <= i < list.len() && list[i].0 == name,
    decreases list.len(),
{
    if list.len() > 0 {
        lemma_position(list.drop_last(), name);
    }
}

/// The values of packages, results and selections say all that these say.
pub proof fn law_values_say_all(package: Resolved, result: SearchResult, s: SelectedVersion)
    ensures
        package@.name == package.name@,
        package@.version == package.version@,
        package@.tarball_url == package.tarball_url@,
        package@.integrity == crate::text::optional_text(package.integrity),
        package@.license == crate::text::optional_text(package.license),
        result@.name == result.name@,
        result@.version == result.version@,
        result@.description == crate::text::optional_text(result.description),
        result@.keywords == crate::text::texts(result.keywords@),
        result@.date == crate::text::optional_text(result.date),
        result@.homepage == crate::text::optional_text(result.homepage),
        selected_view(s) == (
            s.0@,
            crate::text::optional_text(s.1),
            crate::text::optional_text(s.2),
            crate::text::optional_text(s.3),
        ),
{
}

/// What a fetch may give is what it gives for just this address and just this header.
pub proof fn law_fetches_ask_for_the_address<
    F: Fn(&str, Option<&str>) -> Result<Vec<u8>, String>,
>(fetch: F, url: Text, accept: Option<Text>, reply: Result<Vec<u8>, String>)
    requires
        fetched(fetch, url, accept, reply),
    ensures
        exists|u: &str, a: Option<&str>|
            #[trigger] call_ensures(fetch, (u, a), reply) && u@ == url && match a {
                Some(header) => accept == Some(header@),
                None => accept is None,
            },
{
    let (u, a) = choose|u: &str, a: Option<&str>|
        u@ == url && optional_str(a) == accept && #[trigger] call_ensures(fetch, (u, a), reply);
    assert(call_ensures(fetch, (u, a), reply));
}

}
