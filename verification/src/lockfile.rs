//! Installing the tree that a `package-lock.json` pins: what is fetched where, which links are
//! made, and what is reported.
//!
//! Fetching, unpacking and linking are the caller's. What they act on comes out of a file that
//! may be hostile, so every path that leaves this module is contained in the directory that it
//! belongs to.

use crate::common::host_of;
use crate::json::Json;
use crate::path::{join_path, safe_join};
use crate::registry::{license_of, Resolved, ResolvedView};
use crate::text::{
    after_prefix, before, begins_with, copy_texts, has_char, is_listed, quoted, same, split,
    tail_after, Text,
};
use crate::version::Version;
use vstd::prelude::*;
use vstd::string::*;

verus! {

/// An entry of a lockfile.
#[derive(Debug, PartialEq, Eq)]
pub struct LockedPackage {
    pub name: String,
    /// Where the entry is installed, relative to the project.
    pub key: String,
    pub version: String,
    pub resolved: Option<String>,
    pub integrity: Option<String>,
    pub license: Option<String>,
    pub dev: bool,
    pub optional: bool,
    pub dev_optional: bool,
    /// The entry is a link to another directory.
    pub link: bool,
    pub os: Vec<String>,
    pub cpu: Vec<String>,
    /// The programs of the package: their names and their paths inside it.
    pub bin: Vec<(String, String)>,
}

/// The mathematical value of a [`LockedPackage`].
pub struct LockedView {
    pub name: Text,
    pub key: Text,
    pub version: Text,
    pub resolved: Option<Text>,
    pub integrity: Option<Text>,
    pub license: Option<Text>,
    pub dev: bool,
    pub optional: bool,
    pub dev_optional: bool,
    pub link: bool,
    pub os: Seq<Text>,
    pub cpu: Seq<Text>,
    pub bin: Seq<(Text, Text)>,
}

/// The pairs of a list.
pub open spec fn pair_views(list: Seq<(String, String)>) -> Seq<(Text, Text)> {
    Seq::new(list.len(), |i: int| (list[i].0@, list[i].1@))
}

impl View for LockedPackage {
    type V = LockedView;

    open spec fn view(&self) -> LockedView {
        LockedView {
            name: self.name@,
            key: self.key@,
            version: self.version@,
            resolved: crate::text::optional_text(self.resolved),
            integrity: crate::text::optional_text(self.integrity),
            license: crate::text::optional_text(self.license),
            dev: self.dev,
            optional: self.optional,
            dev_optional: self.dev_optional,
            link: self.link,
            os: crate::text::texts(self.os@),
            cpu: crate::text::texts(self.cpu@),
            bin: pair_views(self.bin@),
        }
    }
}

fn copy_pairs(list: &Vec<(String, String)>) -> (r: Vec<(String, String)>)
    ensures
        pair_views(r@) == pair_views(list@),
{
    let ghost all = pair_views(list@);
    let mut out: Vec<(String, String)> = Vec::new();
    let mut i: usize = 0;
    while i < list.len()
        invariant
            i <= list@.len(),
            all == pair_views(list@),
            pair_views(out@) == all.take(i as int),
        decreases list@.len() - i,
    {
        let ghost before = out@;
        out.push((list[i].0.clone(), list[i].1.clone()));
        assert(pair_views(out@) == pair_views(before).push(all[i as int]));
        assert(all.take(i + 1) == all.take(i as int).push(all[i as int]));
        i = i + 1;
    }
    assert(all.take(i as int) == all);
    out
}

impl Clone for LockedPackage {
    /// The same entry again.
    fn clone(&self) -> (r: LockedPackage)
        ensures
            r@ == self@,
    {
        LockedPackage {
            name: self.name.clone(),
            key: self.key.clone(),
            version: self.version.clone(),
            resolved: self.resolved.clone(),
            integrity: self.integrity.clone(),
            license: self.license.clone(),
            dev: self.dev,
            optional: self.optional,
            dev_optional: self.dev_optional,
            link: self.link,
            os: copy_texts(&self.os),
            cpu: copy_texts(&self.cpu),
            bin: copy_pairs(&self.bin),
        }
    }
}

/// The entries of a list.
pub open spec fn locked_views(list: Seq<LockedPackage>) -> Seq<LockedView> {
    Seq::new(list.len(), |i: int| list[i]@)
}

// ---------------------------------------------------------------------------
// Links to programs
// ---------------------------------------------------------------------------

/// A link in `node_modules/.bin`.
#[derive(Debug, Clone, PartialEq, Eq)]
pub struct BinLink {
    /// The link's name.
    pub name: String,
    /// The program's path below `node_modules`.
    pub rel: String,
    /// The program's path.
    pub target: String,
}

/// The mathematical value of a [`BinLink`].
pub struct BinLinkView {
    pub name: Text,
    pub rel: Text,
    pub target: Text,
}

impl View for BinLink {
    type V = BinLinkView;

    open spec fn view(&self) -> BinLinkView {
        BinLinkView { name: self.name@, rel: self.rel@, target: self.target@ }
    }
}

/// The links of a list.
pub open spec fn bin_views(list: Seq<BinLink>) -> Seq<BinLinkView> {
    Seq::new(list.len(), |i: int| list[i]@)
}

impl BinLink {
    /// What the link holds: the way from `.bin` to the program.
    pub fn value(&self) -> (r: String)
        ensures
            r@ == "../"@ + self@.rel,
    {
        let mut out = "../".to_owned();
        out.append(self.rel.as_str());
        out
    }
}

/// The links to make, in order; and why the making ends early, if it does.
pub struct BinsView {
    pub links: Seq<BinLinkView>,
    pub fault: Option<Text>,
}

/// A link's name is one filename: not empty, without a separator, and not `.` or `..`.
pub open spec fn is_bin_name(name: Text) -> bool {
    name.len() > 0 && !name.contains('/') && name != "."@ && name != ".."@
}

/// One of `links` is called `name`.
pub open spec fn has_link(links: Seq<BinLinkView>, name: Text) -> bool {
    exists|i: int| 0 <= i < links.len() && (#[trigger] links[i]).name == name
}

/// `text` without any leading `./`.
pub open spec fn without_dot_slashes(text: Text) -> Text
    decreases text.len(),
{
    if crate::text::begins(text, "./"@) && "./"@.len() > 0 {
        without_dot_slashes(text.skip("./"@.len() as int))
    } else {
        text
    }
}

/// `bins` with one more program of the package installed at `base` below `node_modules`. A name
/// that is no filename is passed over, and so is one that is taken; a program outside
/// `node_modules` ends the making.
pub open spec fn with_bin(
    node_modules: Text,
    base: Text,
    bins: BinsView,
    bin: (Text, Text),
) -> BinsView {
    if bins.fault is Some || !is_bin_name(bin.0) || has_link(bins.links, bin.0) {
        bins
    } else {
        let rel = base + "/"@ + without_dot_slashes(bin.1);
        match crate::path::contained_path(node_modules, rel) {
            Ok(target) => BinsView {
                links: bins.links.push(BinLinkView { name: bin.0, rel, target }),
                fault: None,
            },
            Err(fault) => BinsView { links: bins.links, fault: Some(fault) },
        }
    }
}

/// `bins` with all of `list`.
pub open spec fn with_bins(
    node_modules: Text,
    base: Text,
    bins: BinsView,
    list: Seq<(Text, Text)>,
) -> BinsView
    decreases list.len(),
{
    if list.len() == 0 {
        bins
    } else {
        with_bin(
            node_modules,
            base,
            with_bins(node_modules, base, bins, list.drop_last()),
            list.last(),
        )
    }
}

/// The links for the programs of `packages`, in order. A package that is not below `node_modules`
/// has none.
pub open spec fn bins_of(node_modules: Text, packages: Seq<LockedView>) -> BinsView
    decreases packages.len(),
{
    if packages.len() == 0 {
        BinsView { links: Seq::empty(), fault: None }
    } else {
        let earlier = bins_of(node_modules, packages.drop_last());
        let package = packages.last();
        if crate::text::begins(package.key, "node_modules/"@) {
            with_bins(
                node_modules,
                package.key.skip("node_modules/"@.len() as int),
                earlier,
                package.bin,
            )
        } else {
            earlier
        }
    }
}

/// The links to make, and why the making ends early, if it does.
#[derive(Debug, Clone, PartialEq, Eq)]
pub struct Bins {
    pub links: Vec<BinLink>,
    pub fault: Option<String>,
}

impl View for Bins {
    type V = BinsView;

    open spec fn view(&self) -> BinsView {
        BinsView {
            links: bin_views(self.links@),
            fault: crate::text::optional_text(self.fault),
        }
    }
}

fn skip_dot_slashes(text: &str) -> (r: String)
    ensures
        r@ == without_dot_slashes(text@),
    decreases text@.len(),
{
    proof {
        reveal_strlit("./");
    }
    match after_prefix(text, "./") {
        Some(rest) => skip_dot_slashes(rest.as_str()),
        None => text.to_owned(),
    }
}

fn is_linked(links: &Vec<BinLink>, name: &str) -> (r: bool)
    ensures
        r == has_link(bin_views(links@), name@),
{
    let ghost all = bin_views(links@);
    let mut i: usize = 0;
    while i < links.len()
        invariant
            i <= links@.len(),
            all == bin_views(links@),
            forall|k: int| 0 <= k < i ==> (#[trigger] all[k]).name != name@,
        decreases links@.len() - i,
    {
        if same(links[i].name.as_str(), name) {
            assert(all[i as int].name == name@);
            return true;
        }
        i = i + 1;
    }
    false
}

fn add_bin(node_modules: &str, base: &str, bins: &mut Bins, name: &str, path: &str)
    ensures
        final(bins)@ == with_bin(node_modules@, base@, old(bins)@, (name@, path@)),
{
    if bins.fault.is_some() {
        return ;
    }
    if name.is_empty() || has_char(name, '/') || same(name, ".") || same(name, "..") {
        return ;
    }
    if is_linked(&bins.links, name) {
        return ;
    }
    let mut rel = base.to_owned();
    rel.append("/");
    rel.append(skip_dot_slashes(path).as_str());
    let ghost before = bins.links@;
    match safe_join(node_modules, rel.as_str()) {
        Ok(target) => {
            let link = BinLink { name: name.to_owned(), rel, target };
            bins.links.push(link);
            assert(bins@.links == bin_views(before).push(link@));
        },
        Err(fault) => {
            bins.fault = Some(fault);
        },
    }
}

/// Plan `node_modules/.bin`: a link for every program of `packages`. On a collision the first
/// package keeps the name; a program outside `node_modules` ends the making.
pub fn link_bins(node_modules: &str, packages: &Vec<LockedPackage>) -> (r: Bins)
    ensures
        r@ == bins_of(node_modules@, locked_views(packages@)),
{
    let ghost all = locked_views(packages@);
    let mut bins = Bins { links: Vec::new(), fault: None };
    let mut i: usize = 0;
    assert(all.take(0).len() == 0);
    assert(bins@.links == Seq::<BinLinkView>::empty());
    while i < packages.len()
        invariant
            i <= packages@.len(),
            all == locked_views(packages@),
            bins@ == bins_of(node_modules@, all.take(i as int)),
        decreases packages@.len() - i,
    {
        let package = &packages[i];
        assert(all.take(i + 1).drop_last() == all.take(i as int));
        assert(all.take(i + 1).last() == package@);
        if let Some(base) = after_prefix(package.key.as_str(), "node_modules/") {
            let ghost list = pair_views(package.bin@);
            let ghost earlier = bins@;
            let mut k: usize = 0;
            assert(list.take(0).len() == 0);
            while k < package.bin.len()
                invariant
                    k <= package.bin@.len(),
                    list == pair_views(package.bin@),
                    bins@ == with_bins(node_modules@, base@, earlier, list.take(k as int)),
                decreases package.bin@.len() - k,
            {
                assert(list.take(k + 1).drop_last() == list.take(k as int));
                assert(list.take(k + 1).last() == (
                    package.bin@[k as int].0@,
                    package.bin@[k as int].1@,
                ));
                add_bin(
                    node_modules,
                    base.as_str(),
                    &mut bins,
                    package.bin[k].0.as_str(),
                    package.bin[k].1.as_str(),
                );
                k = k + 1;
            }
            assert(list.take(k as int) == list);
        }
        i = i + 1;
    }
    assert(all.take(i as int) == all);
    bins
}

/// Every link to a program has one filename as its name, its own name, and a program inside
/// `node_modules`.
pub open spec fn bins_are_safe(node_modules: Text, bins: BinsView) -> bool {
    &&& forall|i: int|
        0 <= i < bins.links.len() ==> is_bin_name((#[trigger] bins.links[i]).name)
            && crate::path::is_contained(bins.links[i].rel) && bins.links[i].target
            == crate::path::joined_path(node_modules, bins.links[i].rel)
    &&& forall|i: int, j: int|
        #![trigger bins.links[i], bins.links[j]]
        0 <= i < j < bins.links.len() ==> bins.links[i].name != bins.links[j].name
}

proof fn lemma_with_bins_is_safe(
    node_modules: Text,
    base: Text,
    bins: BinsView,
    list: Seq<(Text, Text)>,
)
    requires
        bins_are_safe(node_modules, bins),
    ensures
        bins_are_safe(node_modules, with_bins(node_modules, base, bins, list)),
    decreases list.len(),
{
    if list.len() > 0 {
        lemma_with_bins_is_safe(node_modules, base, bins, list.drop_last());
        let earlier = with_bins(node_modules, base, bins, list.drop_last());
        let now = with_bins(node_modules, base, bins, list);
        if now.links.len() > earlier.links.len() {
            assert forall|i: int, j: int|
                #![trigger now.links[i], now.links[j]]
                0 <= i < j < now.links.len() implies now.links[i].name != now.links[j].name by {
                assert(now.links[i] == earlier.links[i]);
                if j < earlier.links.len() {
                    assert(now.links[j] == earlier.links[j]);
                }
            }
        }
    }
}

/// No lockfile, however it is made, leads a link to a program out of `node_modules`, nor one out
/// of `.bin`; and no name is linked twice.
pub proof fn law_program_links_stay_inside(node_modules: Text, packages: Seq<LockedView>)
    ensures
        bins_are_safe(node_modules, bins_of(node_modules, packages)),
    decreases packages.len(),
{
    if packages.len() > 0 {
        law_program_links_stay_inside(node_modules, packages.drop_last());
        lemma_with_bins_is_safe(
            node_modules,
            packages.last().key.skip("node_modules/"@.len() as int),
            bins_of(node_modules, packages.drop_last()),
            packages.last().bin,
        );
    }
}

// ---------------------------------------------------------------------------
// Links to directories of the project
// ---------------------------------------------------------------------------

/// A link to a directory of the project.
#[derive(Debug, Clone, PartialEq, Eq)]
pub struct LocalLink {
    /// Where the link is.
    pub path: String,
    /// What it holds: the way from its directory to its target.
    pub value: String,
}

/// The links of a list: where each is and what it holds.
pub open spec fn local_views(list: Seq<LocalLink>) -> Seq<(Text, Text)> {
    Seq::new(list.len(), |i: int| (list[i].path@, list[i].value@))
}

/// The links to make, the warnings to give, and why the making ends early, if it does.
#[derive(Debug, Clone, PartialEq, Eq)]
pub struct Locals {
    pub links: Vec<LocalLink>,
    pub warnings: Vec<String>,
    pub fault: Option<String>,
}

/// The mathematical value of a [`Locals`].
pub struct LocalsView {
    pub links: Seq<(Text, Text)>,
    pub warnings: Seq<Text>,
    pub fault: Option<Text>,
}

impl View for Locals {
    type V = LocalsView;

    open spec fn view(&self) -> LocalsView {
        LocalsView {
            links: local_views(self.links@),
            warnings: crate::text::texts(self.warnings@),
            fault: crate::text::optional_text(self.fault),
        }
    }
}

/// How many of `pieces` are not empty.
pub open spec fn nonempty(pieces: Seq<Text>) -> int
    decreases pieces.len(),
{
    if pieces.len() == 0 {
        0
    } else {
        nonempty(pieces.drop_last()) + if pieces.last().len() > 0 {
            1int
        } else {
            0
        }
    }
}

/// How many directories a link at `key` is below the project.
pub open spec fn depth(key: Text) -> int {
    nonempty(crate::text::pieces(key, "/"@)) - 1
}

/// `n` steps up.
pub open spec fn climb(n: int) -> Text
    decreases n,
{
    if n <= 0 {
        Seq::empty()
    } else {
        climb(n - 1) + "../"@
    }
}

/// The directory that a link names: without a `file:` in front and without leading `./`.
pub open spec fn link_target(resolved: Text) -> Text {
    without_dot_slashes(
        if crate::text::begins(resolved, "file:"@) {
            resolved.skip("file:"@.len() as int)
        } else {
            resolved
        },
    )
}

/// `locals` with one more link. One without a target, or with one outside the project, is warned
/// of and passed over; a link that is itself outside ends the making.
pub open spec fn with_local(dest: Text, locals: LocalsView, package: LockedView) -> LocalsView {
    if locals.fault is Some {
        locals
    } else {
        match package.resolved {
            None => LocalsView {
                warnings: locals.warnings.push(
                    "link `"@ + package.key + "` has no target; skipping"@,
                ),
                ..locals
            },
            Some(resolved) => {
                let target = link_target(resolved);
                match crate::path::contained_path(dest, package.key) {
                    Err(fault) => LocalsView { fault: Some(fault), ..locals },
                    Ok(path) => if crate::path::is_contained(target) {
                        LocalsView {
                            links: locals.links.push((path, climb(depth(package.key)) + target)),
                            ..locals
                        }
                    } else {
                        LocalsView {
                            warnings: locals.warnings.push(
                                "workspace link `"@ + package.key + "` targets `"@ + target
                                    + "` outside the project; skipping"@,
                            ),
                            ..locals
                        }
                    },
                }
            },
        }
    }
}

/// The links for `packages`, in order.
pub open spec fn locals_of(dest: Text, packages: Seq<LockedView>) -> LocalsView
    decreases packages.len(),
{
    if packages.len() == 0 {
        LocalsView { links: Seq::empty(), warnings: Seq::empty(), fault: None }
    } else {
        with_local(dest, locals_of(dest, packages.drop_last()), packages.last())
    }
}

/// The first piece of a text that does not begin with the separator is not empty.
proof fn lemma_nonempty(text: Text)
    requires
        text.len() > 0,
        !crate::text::begins(text, "/"@),
    ensures
        nonempty(crate::text::pieces(text, "/"@)) > 0,
{
    reveal_strlit("/");
    let all = crate::text::pieces(text, "/"@);
    assert(all.len() > 0 && all[0].len() > 0) by {
        match crate::text::first_occurrence(text, "/"@) {
            Some(i) => {
                crate::text::lemma_first_occurrence(text, "/"@);
            },
            None => {},
        }
    }
    lemma_count(all, 0);
}

proof fn lemma_count(pieces: Seq<Text>, at: int)
    requires
        0 <= at < pieces.len(),
        pieces[at].len() > 0,
    ensures
        nonempty(pieces) > 0,
    decreases pieces.len(),
{
    lemma_count_is_natural(pieces.drop_last());
    if at < pieces.len() - 1 {
        lemma_count(pieces.drop_last(), at);
    }
}

proof fn lemma_count_is_natural(pieces: Seq<Text>)
    ensures
        0 <= nonempty(pieces) <= pieces.len(),
    decreases pieces.len(),
{
    if pieces.len() > 0 {
        lemma_count_is_natural(pieces.drop_last());
    }
}

/// The way up from a link at `key` to the project.
fn way_up(key: &str) -> (r: String)
    requires
        key@.len() > 0,
        !crate::text::begins(key@, "/"@),
    ensures
        r@ == climb(depth(key@)),
{
    proof {
        reveal_strlit("/");
        lemma_nonempty(key@);
    }
    let parts = split(key, "/");
    let ghost all = crate::text::texts(parts@);
    let mut count: usize = 0;
    let mut i: usize = 0;
    assert(all.take(0).len() == 0);
    while i < parts.len()
        invariant
            count <= i <= parts@.len(),
            all == crate::text::texts(parts@),
            count == nonempty(all.take(i as int)),
        decreases parts@.len() - i,
    {
        assert(all.take(i + 1).drop_last() == all.take(i as int));
        assert(all.take(i + 1).last() == parts@[i as int]@);
        if !parts[i].as_str().is_empty() {
            count = count + 1;
        }
        i = i + 1;
    }
    assert(all.take(i as int) == all);
    let steps: usize = count - 1;
    let mut out = String::new();
    let mut k: usize = 0;
    assert(out@ == Seq::<char>::empty());
    while k < steps
        invariant
            k <= steps,
            out@ == climb(k as int),
        decreases steps - k,
    {
        out.append("../");
        k = k + 1;
    }
    out
}

fn target_of(resolved: &str) -> (r: String)
    ensures
        r@ == link_target(resolved@),
{
    match after_prefix(resolved, "file:") {
        Some(rest) => skip_dot_slashes(rest.as_str()),
        None => skip_dot_slashes(resolved),
    }
}

fn add_local(dest: &str, locals: &mut Locals, package: &LockedPackage)
    requires
        package@.key.len() > 0,
    ensures
        final(locals)@ == with_local(dest@, old(locals)@, package@),
{
    if locals.fault.is_some() {
        return ;
    }
    let ghost links_before = locals.links@;
    let ghost warnings_before = locals.warnings@;
    match &package.resolved {
        None => {
            let mut warning = "link `".to_owned();
            warning.append(package.key.as_str());
            warning.append("` has no target; skipping");
            locals.warnings.push(warning);
            assert(locals@.warnings == crate::text::texts(warnings_before).push(warning@));
        },
        Some(resolved) => {
            let target = target_of(resolved.as_str());
            match safe_join(dest, package.key.as_str()) {
                Err(fault) => {
                    locals.fault = Some(fault);
                },
                Ok(path) => {
                    match safe_join(dest, target.as_str()) {
                        Ok(_) => {
                            let mut value = way_up(package.key.as_str());
                            value.append(target.as_str());
                            let link = LocalLink { path, value };
                            locals.links.push(link);
                            assert(locals@.links == local_views(links_before).push(
                                (path@, value@),
                            ));
                        },
                        Err(_) => {
                            let mut warning = "workspace link `".to_owned();
                            warning.append(package.key.as_str());
                            warning.append("` targets `");
                            warning.append(target.as_str());
                            warning.append("` outside the project; skipping");
                            locals.warnings.push(warning);
                            assert(locals@.warnings == crate::text::texts(warnings_before).push(
                                warning@,
                            ));
                        },
                    }
                },
            }
        },
    }
}

/// Plan the links of workspace members and local dependencies: relative ones, so that the tree
/// can be moved, and only to directories inside the project `dest`.
pub fn link_locals(dest: &str, packages: &Vec<LockedPackage>) -> (r: Locals)
    requires
        forall|i: int| 0 <= i < packages@.len() ==> (#[trigger] packages@[i])@.key.len() > 0,
    ensures
        r@ == locals_of(dest@, locked_views(packages@)),
{
    let ghost all = locked_views(packages@);
    let mut locals = Locals { links: Vec::new(), warnings: Vec::new(), fault: None };
    let mut i: usize = 0;
    assert(all.take(0).len() == 0);
    assert(locals@.links == Seq::<(Text, Text)>::empty());
    assert(locals@.warnings == Seq::<Text>::empty());
    while i < packages.len()
        invariant
            i <= packages@.len(),
            all == locked_views(packages@),
            locals@ == locals_of(dest@, all.take(i as int)),
            forall|k: int| 0 <= k < packages@.len() ==> (#[trigger] packages@[k])@.key.len() > 0,
        decreases packages@.len() - i,
    {
        assert(all.take(i + 1).drop_last() == all.take(i as int));
        assert(all.take(i + 1).last() == packages@[i as int]@);
        add_local(dest, &mut locals, &packages[i]);
        i = i + 1;
    }
    assert(all.take(i as int) == all);
    locals
}

/// `link` is at a contained path of the project and leads up to it and down to a contained
/// directory.
pub open spec fn is_local_link(dest: Text, link: (Text, Text)) -> bool {
    exists|key: Text, target: Text|
        crate::path::is_contained(key) && crate::path::is_contained(target) && link.0
            == #[trigger] crate::path::joined_path(dest, key) && link.1 == #[trigger] (climb(
            depth(key),
        ) + target)
}

/// No lockfile, however it is made, leads a link out of the project: each stands inside it, and
/// leads back up to it and down to a directory inside it.
pub proof fn law_local_links_stay_inside(dest: Text, packages: Seq<LockedView>)
    ensures
        forall|i: int|
            0 <= i < locals_of(dest, packages).links.len() ==> is_local_link(
                dest,
                #[trigger] locals_of(dest, packages).links[i],
            ),
    decreases packages.len(),
{
    if packages.len() > 0 {
        law_local_links_stay_inside(dest, packages.drop_last());
        let earlier = locals_of(dest, packages.drop_last());
        let now = locals_of(dest, packages);
        assert forall|i: int| 0 <= i < now.links.len() implies is_local_link(
            dest,
            #[trigger] now.links[i],
        ) by {
            if i < earlier.links.len() {
                assert(now.links[i] == earlier.links[i]);
            } else {
                let key = packages.last().key;
                let target = link_target(packages.last().resolved->0);
                assert(now.links[i].0 == crate::path::joined_path(dest, key));
                assert(now.links[i].1 == climb(depth(key)) + target);
            }
        }
    }
}

// ---------------------------------------------------------------------------
// Installing
// ---------------------------------------------------------------------------

/// What an install did: which packages landed, the warnings to give, and why it ended early, if
/// it did.
#[derive(Debug, Clone, PartialEq, Eq)]
pub struct Installed {
    /// The positions of the packages that landed.
    pub landed: Vec<usize>,
    pub warnings: Vec<String>,
    pub fault: Option<String>,
}

/// The mathematical value of an [`Installed`].
pub struct InstalledView {
    pub landed: Seq<int>,
    pub warnings: Seq<Text>,
    pub fault: Option<Text>,
}

/// The positions of a list.
pub open spec fn positions(list: Seq<usize>) -> Seq<int> {
    Seq::new(list.len(), |i: int| list[i] as int)
}

impl View for Installed {
    type V = InstalledView;

    open spec fn view(&self) -> InstalledView {
        InstalledView {
            landed: positions(self.landed@),
            warnings: crate::text::texts(self.warnings@),
            fault: crate::text::optional_text(self.fault),
        }
    }
}

/// An optional text, or an empty one.
pub open spec fn or_empty(value: Option<Text>) -> Text {
    match value {
        Some(text) => text,
        None => Seq::empty(),
    }
}

/// What is said of an optional package that failed.
pub open spec fn skipped_warning(name: Text, cause: Text) -> Text {
    "optional dependency `"@ + name + "` failed to install ("@ + cause + "); skipping"@
}

/// What an install of the first `n` of `packages` did, given how each one's fetch came out. A
/// package that would land outside `dest`, or a required one that fails, ends it.
pub open spec fn installed_after(
    dest: Text,
    packages: Seq<LockedView>,
    outcomes: Seq<Result<(), String>>,
    n: int,
) -> InstalledView
    decreases n,
{
    if n <= 0 {
        InstalledView { landed: Seq::empty(), warnings: Seq::empty(), fault: None }
    } else {
        let earlier = installed_after(dest, packages, outcomes, n - 1);
        let package = packages[n - 1];
        if earlier.fault is Some {
            earlier
        } else {
            match crate::path::contained_path(dest, package.key) {
                Err(fault) => InstalledView { fault: Some(fault), ..earlier },
                Ok(_) => match outcomes[n - 1] {
                    Ok(_) => InstalledView { landed: earlier.landed.push(n - 1), ..earlier },
                    Err(cause) => if package.optional || package.dev_optional {
                        InstalledView {
                            warnings: earlier.warnings.push(
                                skipped_warning(package.name, cause@),
                            ),
                            ..earlier
                        }
                    } else {
                        InstalledView { fault: Some(cause@), ..earlier }
                    },
                },
            }
        }
    }
}

/// Outcomes that are not looked at do not matter.
proof fn lemma_same_start(
    dest: Text,
    packages: Seq<LockedView>,
    a: Seq<Result<(), String>>,
    b: Seq<Result<(), String>>,
    n: int,
)
    requires
        n <= a.len(),
        n <= b.len(),
        forall|i: int| 0 <= i < n ==> #[trigger] a[i] == b[i],
    ensures
        installed_after(dest, packages, a, n) == installed_after(dest, packages, b, n),
    decreases n,
{
    if n > 0 {
        lemma_same_start(dest, packages, a, b, n - 1);
    }
}

// ---------------------------------------------------------------------------
// Reporting
// ---------------------------------------------------------------------------

/// An entry as an installed package, or why it is none.
pub open spec fn as_installed(package: LockedView) -> Result<ResolvedView, Text> {
    match crate::version::version_fault(package.version) {
        Some(cause) => Err(
            "package `"@ + package.name + "`: invalid version "@ + crate::text::quotation(
                package.version,
            ) + ": "@ + cause,
        ),
        None => Ok(
            ResolvedView {
                name: package.name,
                version: package.version,
                tarball_url: or_empty(package.resolved),
                integrity: package.integrity,
                license: None,
            },
        ),
    }
}

/// The entries as installed packages, in order; the first that is none decides.
pub open spec fn all_installed(packages: Seq<LockedView>) -> Result<Seq<ResolvedView>, Text>
    decreases packages.len(),
{
    if packages.len() == 0 {
        Ok(Seq::empty())
    } else {
        match all_installed(packages.drop_last()) {
            Err(message) => Err(message),
            Ok(list) => match as_installed(packages.last()) {
                Err(message) => Err(message),
                Ok(package) => Ok(list.push(package)),
            },
        }
    }
}

proof fn lemma_first_invalid_decides(packages: Seq<LockedView>, n: int)
    requires
        0 <= n <= packages.len(),
        all_installed(packages.take(n)) is Err,
    ensures
        all_installed(packages) == all_installed(packages.take(n)),
    decreases packages.len(),
{
    if n == packages.len() {
        assert(packages.take(n) == packages);
    } else {
        assert(packages.drop_last().take(n) == packages.take(n));
        lemma_first_invalid_decides(packages.drop_last(), n);
    }
}

/// `r` is `wanted`.
pub open spec fn is_report(
    r: Result<Vec<Resolved>, String>,
    wanted: Result<Seq<ResolvedView>, Text>,
) -> bool {
    match r {
        Ok(list) => wanted == Ok::<Seq<ResolvedView>, Text>(crate::walk::package_views(list@)),
        Err(message) => wanted == Err::<Seq<ResolvedView>, Text>(message@),
    }
}

fn report(package: &LockedPackage) -> (r: Result<Resolved, String>)
    ensures
        match r {
            Ok(resolved) => as_installed(package@) == Ok::<ResolvedView, Text>(resolved@),
            Err(message) => as_installed(package@) == Err::<ResolvedView, Text>(message@),
        },
{
    match Version::parse(package.version.as_str()) {
        Err(cause) => {
            let mut message = "package `".to_owned();
            message.append(package.name.as_str());
            message.append("`: invalid version ");
            message.append(quoted(package.version.as_str()).as_str());
            message.append(": ");
            message.append(cause.as_str());
            Err(message)
        },
        Ok(version) => {
            let tarball_url = match &package.resolved {
                Some(url) => url.clone(),
                None => {
                    let empty = String::new();
                    assert(empty@ == Seq::<char>::empty());
                    empty
                },
            };
            Ok(
                Resolved {
                    name: package.name.clone(),
                    version,
                    tarball_url,
                    integrity: package.integrity.clone(),
                    license: None,
                },
            )
        },
    }
}

/// The entries as installed packages.
pub fn installed_packages(packages: &Vec<LockedPackage>) -> (r: Result<Vec<Resolved>, String>)
    ensures
        is_report(r, all_installed(locked_views(packages@))),
{
    let ghost all = locked_views(packages@);
    let mut list: Vec<Resolved> = Vec::new();
    let mut i: usize = 0;
    assert(all.take(0).len() == 0);
    assert(crate::walk::package_views(list@) == Seq::<ResolvedView>::empty());
    while i < packages.len()
        invariant
            i <= packages@.len(),
            all == locked_views(packages@),
            all_installed(all.take(i as int)) == Ok::<Seq<ResolvedView>, Text>(
                crate::walk::package_views(list@),
            ),
        decreases packages@.len() - i,
    {
        let ghost before = list@;
        assert(all.take(i + 1).drop_last() == all.take(i as int));
        assert(all.take(i + 1).last() == packages@[i as int]@);
        match report(&packages[i]) {
            Err(message) => {
                proof {
                    lemma_first_invalid_decides(all, i + 1);
                }
                return Err(message);
            },
            Ok(package) => {
                list.push(package);
                assert(crate::walk::package_views(list@) == crate::walk::package_views(
                    before,
                ).push(package@));
            },
        }
        i = i + 1;
    }
    assert(all.take(i as int) == all);
    Ok(list)
}

// ---------------------------------------------------------------------------
// Reading a lockfile
// ---------------------------------------------------------------------------

/// The package that a key names: what stands after its last `node_modules/`.
pub open spec fn key_name(key: Text) -> Text {
    crate::text::pieces(key, "node_modules/"@).last()
}

/// The members of a list that are texts, in order.
pub open spec fn text_pairs(list: Seq<(Text, crate::json::JsonView)>) -> Seq<(Text, Text)>
    decreases list.len(),
{
    if list.len() == 0 {
        Seq::empty()
    } else {
        match list.last().1 {
            crate::json::JsonView::Text(text) => text_pairs(list.drop_last()).push(
                (list.last().0, text),
            ),
            _ => text_pairs(list.drop_last()),
        }
    }
}

/// The programs of the package `name`: a table of names and paths, or one path that goes by the
/// package's own name without its scope.
pub open spec fn programs(name: Text, bin: Option<crate::json::JsonView>) -> Seq<(Text, Text)> {
    match bin {
        Some(crate::json::JsonView::Text(path)) => seq![
            (crate::text::after_last(name, '/'), path),
        ],
        Some(crate::json::JsonView::Object(list)) => text_pairs(list),
        _ => Seq::empty(),
    }
}

/// The flag `key` of an entry.
pub open spec fn flag(meta: crate::json::JsonView, key: Text) -> bool {
    crate::json::member(meta, key) == Some(crate::json::JsonView::Bool(true))
}

/// The entry at `key`. One that is installed under another name has its own in `name`.
pub open spec fn entry(key: Text, meta: crate::json::JsonView) -> LockedView {
    let name = match crate::json::text_member(meta, "name"@) {
        Some(name) => name,
        None => key_name(key),
    };
    LockedView {
        name,
        key,
        version: or_empty(crate::json::text_member(meta, "version"@)),
        resolved: crate::json::text_member(meta, "resolved"@),
        integrity: crate::json::text_member(meta, "integrity"@),
        license: crate::registry::declared_license(meta),
        dev: flag(meta, "dev"@),
        optional: flag(meta, "optional"@),
        dev_optional: flag(meta, "devOptional"@),
        link: flag(meta, "link"@),
        os: crate::json::string_list(crate::json::member(meta, "os"@)),
        cpu: crate::json::string_list(crate::json::member(meta, "cpu"@)),
        bin: programs(name, crate::json::member(meta, "bin"@)),
    }
}

/// `list` has an entry at `key`.
pub open spec fn has_entry(list: Seq<LockedView>, key: Text) -> bool {
    exists|i: int| 0 <= i < list.len() && (#[trigger] list[i]).key == key
}

/// The entries of a list, one for each key: the first, as looking a member up gives it. The
/// project itself, at the empty key, is none.
pub open spec fn entries(list: Seq<(Text, crate::json::JsonView)>) -> Seq<LockedView>
    decreases list.len(),
{
    if list.len() == 0 {
        Seq::empty()
    } else {
        let earlier = entries(list.drop_last());
        if list.last().0.len() == 0 || has_entry(earlier, list.last().0) {
            earlier
        } else {
            earlier.push(entry(list.last().0, list.last().1))
        }
    }
}

/// No two of `packages` are installed at one path.
pub open spec fn have_own_paths(packages: Seq<LockedView>) -> bool {
    forall|i: int, j: int|
        #![trigger packages[i], packages[j]]
        0 <= i < j < packages.len() ==> packages[i].key != packages[j].key
}

/// Each key of a lockfile but the empty one has one entry.
pub proof fn law_keys_have_one_entry(list: Seq<(Text, crate::json::JsonView)>)
    ensures
        have_own_paths(entries(list)),
        forall|i: int|
            0 <= i < list.len() && (#[trigger] list[i]).0.len() > 0 ==> has_entry(
                entries(list),
                list[i].0,
            ),
    decreases list.len(),
{
    if list.len() > 0 {
        let shorter = list.drop_last();
        law_keys_have_one_entry(shorter);
        let earlier = entries(shorter);
        let now = entries(list);
        if now != earlier {
            assert(now.last().key == list.last().0);
            assert forall|i: int, j: int|
                #![trigger now[i], now[j]]
                0 <= i < j < now.len() implies now[i].key != now[j].key by {
                assert(now[i] == earlier[i]);
            }
        }
        assert forall|i: int| 0 <= i < list.len() && (#[trigger] list[i]).0.len()
            > 0 implies has_entry(now, list[i].0) by {
            if i < shorter.len() {
                assert(shorter[i] == list[i]);
                let k = choose|k: int|
                    0 <= k < earlier.len() && (#[trigger] earlier[k]).key == list[i].0;
                assert(now[k] == earlier[k]);
            } else if now != earlier {
                assert(now[now.len() - 1].key == list[i].0);
            }
        }
    }
}

/// Where an entry at `key` belongs among `list`: behind the ones that do not come after it.
pub open spec fn entry_place(list: Seq<LockedView>, key: Text) -> int
    decreases list.len(),
{
    if list.len() == 0 {
        0
    } else {
        let place = entry_place(list.drop_last(), key);
        if place == list.len() - 1 && !crate::text::precedes(key, list.last().key) {
            list.len() as int
        } else {
            place
        }
    }
}

/// `list` by install path.
pub open spec fn by_path(list: Seq<LockedView>) -> Seq<LockedView>
    decreases list.len(),
{
    if list.len() == 0 {
        Seq::empty()
    } else {
        let sorted = by_path(list.drop_last());
        sorted.insert(entry_place(sorted, list.last().key), list.last())
    }
}

/// The install paths of `list` ascend.
pub open spec fn is_by_path(list: Seq<LockedView>) -> bool {
    forall|i: int, j: int|
        #![trigger list[i], list[j]]
        0 <= i < j < list.len() ==> crate::text::precedes(list[i].key, list[j].key)
}

proof fn lemma_entry_place(list: Seq<LockedView>, key: Text)
    ensures
        0 <= entry_place(list, key) <= list.len(),
        forall|i: int|
            0 <= i < entry_place(list, key) ==> !crate::text::precedes(
                key,
                (#[trigger] list[i]).key,
            ),
        entry_place(list, key) < list.len() ==> crate::text::precedes(
            key,
            list[entry_place(list, key)].key,
        ),
    decreases list.len(),
{
    if list.len() > 0 {
        let shorter = list.drop_last();
        lemma_entry_place(shorter, key);
        assert forall|i: int| 0 <= i < entry_place(list, key) implies !crate::text::precedes(
            key,
            (#[trigger] list[i]).key,
        ) by {
            if i < shorter.len() {
                assert(shorter[i] == list[i]);
            }
        }
        let place = entry_place(shorter, key);
        if place < shorter.len() {
            assert(shorter[place] == list[place]);
        }
    }
}

/// An entry at a new path, put in its place, leaves a list in order.
proof fn lemma_put_in_place(list: Seq<LockedView>, entry: LockedView)
    requires
        is_by_path(list),
        !has_entry(list, entry.key),
    ensures
        is_by_path(list.insert(entry_place(list, entry.key), entry)),
{
    let place = entry_place(list, entry.key);
    lemma_entry_place(list, entry.key);
    let now = list.insert(place, entry);
    assert forall|i: int, j: int|
        #![trigger now[i], now[j]]
        0 <= i < j < now.len() implies crate::text::precedes(now[i].key, now[j].key) by {
        if j == place {
            assert(now[i] == list[i]);
            crate::text::law_text_order_is_total(list[i].key, entry.key, list[i].key);
        } else if i == place {
            assert(now[j] == list[j - 1]);
            crate::text::law_text_order_is_total(entry.key, list[place].key, list[j - 1].key);
        } else {
            let a = if i < place { i } else { i - 1 };
            let b = if j < place { j } else { j - 1 };
            assert(now[i] == list[a] && now[j] == list[b]);
        }
    }
}

/// Where a list in order has an entry at `key`, it stands just before the place for another.
proof fn lemma_entry_at_place(list: Seq<LockedView>, key: Text)
    requires
        is_by_path(list),
    ensures
        has_entry(list, key) <==> entry_place(list, key) > 0 && list[entry_place(list, key) - 1].key
            == key,
{
    let place = entry_place(list, key);
    lemma_entry_place(list, key);
    if has_entry(list, key) {
        let i = choose|i: int| 0 <= i < list.len() && (#[trigger] list[i]).key == key;
        crate::text::law_text_order_is_total(key, key, key);
        if i >= place {
            if i > place {
                assert(crate::text::precedes(list[place].key, list[i].key));
                crate::text::law_text_order_is_total(key, list[place].key, key);
            }
        } else if i < place - 1 {
            assert(crate::text::precedes(list[i].key, list[place - 1].key));
        }
    }
}

/// An entry put anywhere adds its path.
proof fn lemma_inserted_has(list: Seq<LockedView>, place: int, entry: LockedView, key: Text)
    requires
        0 <= place <= list.len(),
    ensures
        has_entry(list.insert(place, entry), key) <==> entry.key == key || has_entry(list, key),
{
    let now = list.insert(place, entry);
    assert(now[place] == entry);
    if has_entry(list, key) {
        let k = choose|k: int| 0 <= k < list.len() && (#[trigger] list[k]).key == key;
        let m = if k < place { k } else { k + 1 };
        assert(now[m] == list[k]);
    }
    if has_entry(now, key) {
        let m = choose|m: int| 0 <= m < now.len() && (#[trigger] now[m]).key == key;
        if m != place {
            let k = if m < place { m } else { m - 1 };
            assert(list[k] == now[m]);
        }
    }
}

/// Sorting keeps which paths there are.
proof fn lemma_sorted_has(list: Seq<LockedView>, key: Text)
    ensures
        has_entry(by_path(list), key) <==> has_entry(list, key),
    decreases list.len(),
{
    if list.len() > 0 {
        let shorter = list.drop_last();
        lemma_sorted_has(shorter, key);
        let sorted = by_path(shorter);
        let place = entry_place(sorted, list.last().key);
        lemma_entry_place(sorted, list.last().key);
        lemma_inserted_has(sorted, place, list.last(), key);
        lemma_inserted_has(shorter, shorter.len() as int, list.last(), key);
        assert(shorter.insert(shorter.len() as int, list.last()) == list);
    }
}

/// Sorting entries with paths of their own gives a list in that order.
pub proof fn law_entries_are_by_path(list: Seq<LockedView>)
    requires
        have_own_paths(list),
    ensures
        is_by_path(by_path(list)),
    decreases list.len(),
{
    if list.len() > 0 {
        let shorter = list.drop_last();
        assert(have_own_paths(shorter)) by {
            assert forall|i: int, j: int|
                #![trigger shorter[i], shorter[j]]
                0 <= i < j < shorter.len() implies shorter[i].key != shorter[j].key by {
                assert(list[i] == shorter[i] && list[j] == shorter[j]);
            }
        }
        law_entries_are_by_path(shorter);
        lemma_sorted_has(shorter, list.last().key);
        assert(!has_entry(shorter, list.last().key)) by {
            if has_entry(shorter, list.last().key) {
                let i = choose|i: int|
                    0 <= i < shorter.len() && (#[trigger] shorter[i]).key == list.last().key;
                assert(list[i] == shorter[i]);
                assert(list[i].key != list[list.len() - 1].key);
            }
        }
        lemma_put_in_place(by_path(shorter), list.last());
    }
}

/// Entries whose install paths ascend have paths of their own.
proof fn lemma_own_paths(list: Seq<LockedView>)
    requires
        is_by_path(list),
    ensures
        have_own_paths(list),
{
    assert forall|i: int, j: int|
        #![trigger list[i], list[j]]
        0 <= i < j < list.len() implies list[i].key != list[j].key by {
        crate::text::law_text_order_is_total(list[i].key, list[i].key, list[i].key);
    }
}

/// Sorting by install path loses no entry and adds none.
pub proof fn law_sorting_entries_permutes(list: Seq<LockedView>)
    ensures
        by_path(list).to_multiset() == list.to_multiset(),
    decreases list.len(),
{
    if list.len() > 0 {
        let shorter = list.drop_last();
        law_sorting_entries_permutes(shorter);
        let sorted = by_path(shorter);
        let place = entry_place(sorted, list.last().key);
        lemma_entry_place(sorted, list.last().key);
        vstd::seq_lib::to_multiset_insert(sorted, place, list.last());
        vstd::seq_lib::to_multiset_build(shorter, list.last());
        assert(shorter.push(list.last()) == list);
    } else {
        assert(by_path(list) == list);
    }
}

fn find_entry_place(list: &Vec<LockedPackage>, key: &str) -> (r: usize)
    ensures
        r == entry_place(locked_views(list@), key@),
        r <= list@.len(),
{
    let ghost all = locked_views(list@);
    let mut place: usize = 0;
    let mut i: usize = 0;
    assert(all.take(0).len() == 0);
    while i < list.len()
        invariant
            i <= list@.len(),
            all == locked_views(list@),
            place <= i,
            place == entry_place(all.take(i as int), key@),
        decreases list@.len() - i,
    {
        assert(all.take(i + 1).drop_last() == all.take(i as int));
        assert(all.take(i + 1).last() == list@[i as int]@);
        if place == i && !before(key, list[i].key.as_str()) {
            place = i + 1;
        }
        i = i + 1;
    }
    assert(all.take(i as int) == all);
    place
}

/// The entries of a lockfile by install path, or why it has none.
pub open spec fn lockfile_entries(doc: crate::json::JsonView) -> Result<Seq<LockedView>, Text> {
    match crate::json::as_members(crate::json::member(doc, "packages"@)) {
        Some(list) => Ok(by_path(entries(list))),
        None => Err("lockfile has no `packages` (lockfileVersion 2 or 3 is needed)"@),
    }
}

/// What reading the bytes of a lockfile gives.
pub open spec fn lockfile_in(bytes: Seq<u8>) -> Result<Seq<LockedView>, Text> {
    match crate::json::json_document(bytes) {
        Ok(doc) => lockfile_entries(doc),
        Err(message) => Err(message),
    }
}

/// A lockfile.
pub struct Lockfile {
    /// Its entries; one that was read has them by install path.
    pub packages: Vec<LockedPackage>,
}

/// `r` is `wanted`.
pub open spec fn is_lockfile(
    r: Result<Lockfile, String>,
    wanted: Result<Seq<LockedView>, Text>,
) -> bool {
    match r {
        Ok(lockfile) => wanted == Ok::<Seq<LockedView>, Text>(
            locked_views(lockfile.packages@),
        ),
        Err(message) => wanted == Err::<Seq<LockedView>, Text>(message@),
    }
}

fn name_of_key(key: &str) -> (r: String)
    ensures
        r@ == key_name(key@),
{
    proof {
        reveal_strlit("node_modules/");
    }
    let mut parts = split(key, "node_modules/");
    let ghost all = crate::text::texts(parts@);
    match parts.pop() {
        Some(last) => {
            assert(all.last() == last@);
            last
        },
        None => {
            proof {
                assert(crate::text::pieces(key@, "node_modules/"@).len() > 0);
            }
            key.to_owned()
        },
    }
}

fn text_or_empty(meta: &Json, key: &str) -> (r: String)
    ensures
        r@ == or_empty(crate::json::text_member(meta@, key@)),
{
    match meta.text_at(key) {
        Some(text) => text,
        None => {
            let empty = String::new();
            assert(empty@ == Seq::<char>::empty());
            empty
        },
    }
}

fn read_programs(name: &str, meta: &Json) -> (r: Vec<(String, String)>)
    ensures
        pair_views(r@) == programs(name@, crate::json::member(meta@, "bin"@)),
{
    let mut out: Vec<(String, String)> = Vec::new();
    assert(pair_views(out@) == Seq::<(Text, Text)>::empty());
    if let Some(bin) = meta.get("bin") {
        if let Some(path) = bin.as_str() {
            out.push((tail_after(name, '/'), path.to_owned()));
            assert(pair_views(out@) == seq![(crate::text::after_last(name@, '/'), path@)]);
        } else if let Some(list) = bin.as_object() {
            let ghost all = crate::json::members(list@);
            let mut i: usize = 0;
            assert(all.take(0).len() == 0);
            while i < list.len()
                invariant
                    i <= list@.len(),
                    all == crate::json::members(list@),
                    pair_views(out@) == text_pairs(all.take(i as int)),
                decreases list@.len() - i,
            {
                let ghost before = out@;
                assert(all.take(i + 1).drop_last() == all.take(i as int));
                assert(all.take(i + 1).last() == (list@[i as int].0@, list@[i as int].1@));
                if let Some(path) = list[i].1.as_str() {
                    out.push((list[i].0.clone(), path.to_owned()));
                    assert(pair_views(out@) == pair_views(before).push(
                        (all[i as int].0, path@),
                    ));
                }
                i = i + 1;
            }
            assert(all.take(i as int) == all);
        }
    }
    out
}

fn read_entry(key: &str, meta: &Json) -> (r: LockedPackage)
    ensures
        r@ == entry(key@, meta@),
{
    let name = match meta.text_at("name") {
        Some(name) => name,
        None => name_of_key(key),
    };
    let bin = read_programs(name.as_str(), meta);
    LockedPackage {
        name,
        key: key.to_owned(),
        version: text_or_empty(meta, "version"),
        resolved: meta.text_at("resolved"),
        integrity: meta.text_at("integrity"),
        license: license_of(meta),
        dev: meta.is_true_at("dev"),
        optional: meta.is_true_at("optional"),
        dev_optional: meta.is_true_at("devOptional"),
        link: meta.is_true_at("link"),
        os: meta.strings_at("os"),
        cpu: meta.strings_at("cpu"),
        bin,
    }
}

impl Lockfile {
    /// Read a lockfile.
    pub fn parse(text: &str) -> (r: Result<Lockfile, String>)
        ensures
            is_lockfile(r, lockfile_in(vstd::utf8::encode_utf8(text@))),
            r matches Ok(lockfile) ==> is_by_path(locked_views(lockfile.packages@)),
    {
        match Json::parse(text.as_bytes()) {
            Ok(doc) => Lockfile::read(&doc),
            Err(message) => Err(message),
        }
    }

    /// Read the document of a lockfile.
    pub fn read(doc: &Json) -> (r: Result<Lockfile, String>)
        ensures
            is_lockfile(r, lockfile_entries(doc@)),
            r matches Ok(lockfile) ==> is_by_path(locked_views(lockfile.packages@)),
    {
        let members = match doc.get("packages") {
            Some(packages) => packages.as_object(),
            None => None,
        };
        match members {
            None => Err(
                "lockfile has no `packages` (lockfileVersion 2 or 3 is needed)".to_owned(),
            ),
            Some(list) => {
                let ghost all = crate::json::members(list@);
                let mut packages: Vec<LockedPackage> = Vec::new();
                let mut i: usize = 0;
                assert(all.take(0).len() == 0);
                assert(locked_views(packages@) == Seq::<LockedView>::empty());
                while i < list.len()
                    invariant
                        i <= list@.len(),
                        all == crate::json::members(list@),
                        locked_views(packages@) == by_path(entries(all.take(i as int))),
                        is_by_path(locked_views(packages@)),
                    decreases list@.len() - i,
                {
                    let ghost before = packages@;
                    assert(all.take(i + 1).drop_last() == all.take(i as int));
                    assert(all.take(i + 1).last() == (list@[i as int].0@, list@[i as int].1@));
                    if !list[i].0.as_str().is_empty() {
                        let key = list[i].0.as_str();
                        let place = find_entry_place(&packages, key);
                        proof {
                            lemma_entry_at_place(locked_views(before), key@);
                            lemma_sorted_has(entries(all.take(i as int)), key@);
                        }
                        if place == 0 || !same(packages[place - 1].key.as_str(), key) {
                            let package = read_entry(key, &list[i].1);
                            let ghost read = package@;
                            packages.insert(place, package);
                            assert(locked_views(packages@) == locked_views(before).insert(
                                place as int,
                                read,
                            ));
                            assert(entries(all.take(i + 1)).drop_last() == entries(
                                all.take(i as int),
                            ));
                            proof {
                                lemma_put_in_place(locked_views(before), read);
                            }
                        }
                    }
                    i = i + 1;
                }
                assert(all.take(i as int) == all);
                Ok(Lockfile { packages })
            },
        }
    }
}

// ---------------------------------------------------------------------------
// What a machine installs
// ---------------------------------------------------------------------------

/// npm's name for an operating system.
pub open spec fn npm_os(os: Text) -> Text {
    if os == "macos"@ {
        "darwin"@
    } else if os == "windows"@ {
        "win32"@
    } else {
        os
    }
}

/// npm's name for a processor.
pub open spec fn npm_cpu(arch: Text) -> Text {
    if arch == "x86_64"@ {
        "x64"@
    } else if arch == "aarch64"@ {
        "arm64"@
    } else if arch == "x86"@ {
        "ia32"@
    } else {
        arch
    }
}

/// `list` admits `name`: it does not rule it out, and where it names others it names this one.
pub open spec fn admits(list: Seq<Text>, name: Text) -> bool {
    &&& !list.contains("!"@ + name)
    &&& (forall|i: int| 0 <= i < list.len() ==> crate::text::begins(#[trigger] list[i], "!"@))
        || list.contains(name)
}

/// The entry is a tarball of a registry.
pub open spec fn is_tarball(package: LockedView) -> bool {
    package.resolved matches Some(url) && crate::dependency::is_web_url(url)
}

/// The machine with this system and processor installs the entry.
pub open spec fn is_installed_on(package: LockedView, os: Text, cpu: Text) -> bool {
    !package.link && admits(package.os, os) && admits(package.cpu, cpu) && is_tarball(package)
}

/// The entry is a link below `node_modules`.
pub open spec fn is_link(package: LockedView) -> bool {
    package.link && crate::text::begins(package.key, "node_modules/"@)
}

/// The entries that the machine installs, in order.
pub open spec fn installed_on(packages: Seq<LockedView>, os: Text, cpu: Text) -> Seq<LockedView> {
    packages.filter(|p: LockedView| is_installed_on(p, os, cpu))
}

/// The links, in order.
pub open spec fn links_in(packages: Seq<LockedView>) -> Seq<LockedView> {
    packages.filter(|p: LockedView| is_link(p))
}

fn allows(list: &Vec<String>, name: &str) -> (r: bool)
    ensures
        r == admits(crate::text::texts(list@), name@),
{
    let ghost all = crate::text::texts(list@);
    let mut banned = "!".to_owned();
    banned.append(name);
    let mut only_bans = true;
    let mut named = false;
    let mut i: usize = 0;
    while i < list.len()
        invariant
            i <= list@.len(),
            all == crate::text::texts(list@),
            banned@ == "!"@ + name@,
            only_bans == forall|k: int| 0 <= k < i ==> crate::text::begins(#[trigger] all[k], "!"@),
            named == exists|k: int| 0 <= k < i && #[trigger] all[k] == name@,
            forall|k: int| 0 <= k < i ==> #[trigger] all[k] != banned@,
        decreases list@.len() - i,
    {
        assert(all[i as int] == list@[i as int]@);
        if same(list[i].as_str(), banned.as_str()) {
            assert(all.contains(banned@));
            return false;
        }
        if !begins_with(list[i].as_str(), "!") {
            only_bans = false;
        }
        if same(list[i].as_str(), name) {
            named = true;
        }
        i = i + 1;
    }
    only_bans || named
}

impl LockedPackage {
    /// Whether the entry is a tarball of a registry.
    pub fn is_registry_tarball(&self) -> (r: bool)
        ensures
            r == is_tarball(self@),
    {
        match &self.resolved {
            Some(url) => begins_with(url.as_str(), "https://") || begins_with(
                url.as_str(),
                "http://",
            ),
            None => false,
        }
    }
}

impl Lockfile {
    /// What a machine with the system `os` and the processor `arch` installs: the tarballs that
    /// are meant for it.
    pub fn installable(&self, os: &str, arch: &str) -> (r: Vec<LockedPackage>)
        ensures
            locked_views(r@) == installed_on(
                locked_views(self.packages@),
                npm_os(os@),
                npm_cpu(arch@),
            ),
    {
        let os = if same(os, "macos") {
            "darwin"
        } else if same(os, "windows") {
            "win32"
        } else {
            os
        };
        let cpu = if same(arch, "x86_64") {
            "x64"
        } else if same(arch, "aarch64") {
            "arm64"
        } else if same(arch, "x86") {
            "ia32"
        } else {
            arch
        };
        let ghost all = locked_views(self.packages@);
        let ghost keep = |p: LockedView| is_installed_on(p, os@, cpu@);
        let mut out: Vec<LockedPackage> = Vec::new();
        let mut i: usize = 0;
        assert(locked_views(out@) == all.take(0).filter(keep)) by {
            reveal(Seq::filter);
        }
        while i < self.packages.len()
            invariant
                i <= self.packages@.len(),
                all == locked_views(self.packages@),
                keep == (|p: LockedView| is_installed_on(p, os@, cpu@)),
                locked_views(out@) == all.take(i as int).filter(keep),
            decreases self.packages@.len() - i,
        {
            let package = &self.packages[i];
            let ghost before = out@;
            assert(all.take(i + 1).drop_last() == all.take(i as int));
            assert(all.take(i + 1).last() == package@);
            let wanted = !package.link && allows(&package.os, os) && allows(&package.cpu, cpu)
                && package.is_registry_tarball();
            if wanted {
                let copy = package.clone();
                out.push(copy);
                assert(locked_views(out@) == locked_views(before).push(package@));
            }
            proof {
                reveal(Seq::filter);
            }
            i = i + 1;
        }
        assert(all.take(i as int) == all);
        out
    }

    /// The links below `node_modules`: workspace members and local dependencies.
    pub fn links(&self) -> (r: Vec<LockedPackage>)
        ensures
            locked_views(r@) == links_in(locked_views(self.packages@)),
            forall|i: int| 0 <= i < r@.len() ==> (#[trigger] r@[i])@.key.len() > 0,
    {
        let ghost all = locked_views(self.packages@);
        let ghost keep = |p: LockedView| is_link(p);
        let mut out: Vec<LockedPackage> = Vec::new();
        let mut i: usize = 0;
        proof {
            reveal_strlit("node_modules/");
            reveal(Seq::filter);
        }
        assert(locked_views(out@) == all.take(0).filter(keep));
        while i < self.packages.len()
            invariant
                i <= self.packages@.len(),
                all == locked_views(self.packages@),
                keep == (|p: LockedView| is_link(p)),
                locked_views(out@) == all.take(i as int).filter(keep),
                "node_modules/"@.len() > 0,
                forall|k: int| 0 <= k < out@.len() ==> (#[trigger] out@[k])@.key.len() > 0,
            decreases self.packages@.len() - i,
        {
            let package = &self.packages[i];
            let ghost before = out@;
            assert(all.take(i + 1).drop_last() == all.take(i as int));
            assert(all.take(i + 1).last() == package@);
            if package.link && begins_with(package.key.as_str(), "node_modules/") {
                let copy = package.clone();
                out.push(copy);
                assert(locked_views(out@) == locked_views(before).push(package@));
            }
            proof {
                reveal(Seq::filter);
            }
            i = i + 1;
        }
        assert(all.take(i as int) == all);
        out
    }
}

// ---------------------------------------------------------------------------
// Whole installs
// ---------------------------------------------------------------------------

/// The distinct hosts other than the public registry that the tarballs of `packages` come from,
/// in the order in which they first appear.
pub open spec fn other_hosts(packages: Seq<LockedView>) -> Seq<Text>
    decreases packages.len(),
{
    if packages.len() == 0 {
        Seq::empty()
    } else {
        let hosts = other_hosts(packages.drop_last());
        let host = crate::common::host(or_empty(packages.last().resolved));
        if host == "registry.npmjs.org"@ || hosts.contains(host) {
            hosts
        } else {
            hosts.push(host)
        }
    }
}

/// What is said of a host other than the public registry.
pub open spec fn host_warning(host: Text) -> Text {
    "lockfile fetches tarballs from `"@ + host + "`, not registry.npmjs.org"@
}

/// What is said of the hosts that the tarballs of `packages` come from: one warning for each
/// distinct host other than the public registry.
pub open spec fn host_warnings(packages: Seq<LockedView>) -> Seq<Text> {
    Seq::new(other_hosts(packages).len(), |i: int| host_warning(other_hosts(packages)[i]))
}

/// The warnings to give before anything is fetched: a lockfile names the URL of each tarball and
/// the hash that it is checked against, so a host other than the public registry must be visible.
pub fn warn_of_hosts(packages: &Vec<LockedPackage>) -> (r: Vec<String>)
    ensures
        crate::text::texts(r@) == host_warnings(locked_views(packages@)),
{
    let ghost all = locked_views(packages@);
    let mut hosts: Vec<String> = Vec::new();
    let mut i: usize = 0;
    assert(all.take(0).len() == 0);
    assert(crate::text::texts(hosts@) == Seq::<Text>::empty());
    while i < packages.len()
        invariant
            i <= packages@.len(),
            all == locked_views(packages@),
            crate::text::texts(hosts@) == other_hosts(all.take(i as int)),
        decreases packages@.len() - i,
    {
        let ghost before = hosts@;
        assert(all.take(i + 1).drop_last() == all.take(i as int));
        assert(all.take(i + 1).last() == packages@[i as int]@);
        let url = match &packages[i].resolved {
            Some(url) => url.as_str(),
            None => "",
        };
        proof {
            reveal_strlit("");
            assert(url@ == or_empty(packages@[i as int]@.resolved));
        }
        let host = host_of(url);
        if !same(host.as_str(), "registry.npmjs.org") && !is_listed(&hosts, host.as_str()) {
            hosts.push(host);
            assert(crate::text::texts(hosts@) == crate::text::texts(before).push(host@));
        }
        i = i + 1;
    }
    assert(all.take(i as int) == all);
    let ghost wanted = host_warnings(all);
    let mut warnings: Vec<String> = Vec::new();
    let mut k: usize = 0;
    while k < hosts.len()
        invariant
            k <= hosts@.len(),
            crate::text::texts(hosts@) == other_hosts(all),
            wanted == host_warnings(all),
            crate::text::texts(warnings@) == wanted.take(k as int),
        decreases hosts@.len() - k,
    {
        let ghost before = warnings@;
        let mut warning = "lockfile fetches tarballs from `".to_owned();
        warning.append(hosts[k].as_str());
        warning.append("`, not registry.npmjs.org");
        assert(crate::text::texts(hosts@)[k as int] == hosts@[k as int]@);
        assert(warning@ == wanted[k as int]);
        warnings.push(warning);
        assert(crate::text::texts(warnings@) == crate::text::texts(before).push(warning@));
        assert(wanted.take(k + 1) == wanted.take(k as int).push(wanted[k as int]));
        k = k + 1;
    }
    assert(wanted.take(k as int) == wanted);
    warnings
}

/// The packages at `landed`.
pub open spec fn picked(packages: Seq<LockedView>, landed: Seq<int>) -> Seq<LockedView> {
    Seq::new(landed.len(), |i: int| packages[landed[i]])
}

fn pick(packages: &Vec<LockedPackage>, landed: &Vec<usize>) -> (r: Vec<LockedPackage>)
    requires
        forall|k: int| 0 <= k < landed@.len() ==> #[trigger] landed@[k] < packages@.len(),
    ensures
        locked_views(r@) == picked(locked_views(packages@), positions(landed@)),
{
    let ghost wanted = picked(locked_views(packages@), positions(landed@));
    let mut out: Vec<LockedPackage> = Vec::new();
    let mut i: usize = 0;
    while i < landed.len()
        invariant
            i <= landed@.len(),
            wanted == picked(locked_views(packages@), positions(landed@)),
            locked_views(out@) == wanted.take(i as int),
            forall|k: int| 0 <= k < landed@.len() ==> #[trigger] landed@[k] < packages@.len(),
        decreases landed@.len() - i,
    {
        let ghost before = out@;
        let at: usize = landed[i];
        let copy = packages[at].clone();
        assert(positions(landed@)[i as int] == at);
        assert(locked_views(packages@)[at as int] == packages@[at as int]@);
        assert(wanted[i as int] == copy@);
        out.push(copy);
        assert(locked_views(out@) == locked_views(before).push(copy@));
        assert(wanted.take(i + 1) == wanted.take(i as int).push(wanted[i as int]));
        i = i + 1;
    }
    assert(wanted.take(i as int) == wanted);
    out
}

/// The install paths of `packages`.
pub open spec fn paths_of(packages: Seq<LockedView>) -> Seq<Text> {
    Seq::new(packages.len(), |i: int| packages[i].key)
}

fn list_paths(packages: &Vec<LockedPackage>) -> (r: Vec<String>)
    ensures
        crate::text::texts(r@) == paths_of(locked_views(packages@)),
{
    let ghost wanted = paths_of(locked_views(packages@));
    let mut paths: Vec<String> = Vec::new();
    let mut i: usize = 0;
    while i < packages.len()
        invariant
            i <= packages@.len(),
            wanted == paths_of(locked_views(packages@)),
            crate::text::texts(paths@) == wanted.take(i as int),
        decreases packages@.len() - i,
    {
        let ghost before = paths@;
        let path = packages[i].key.clone();
        assert(wanted[i as int] == path@);
        paths.push(path);
        assert(crate::text::texts(paths@) == crate::text::texts(before).push(path@));
        assert(wanted.take(i + 1) == wanted.take(i as int).push(wanted[i as int]));
        i = i + 1;
    }
    assert(wanted.take(i as int) == wanted);
    paths
}

/// Those of `packages` that are installed at one of `paths`.
pub open spec fn placed_at(packages: Seq<LockedView>, paths: Seq<Text>) -> Seq<LockedView>
    decreases packages.len(),
{
    if packages.len() == 0 {
        Seq::empty()
    } else {
        let earlier = placed_at(packages.drop_last(), paths);
        if paths.contains(packages.last().key) {
            earlier.push(packages.last())
        } else {
            earlier
        }
    }
}

fn pick_placed(packages: &Vec<LockedPackage>, paths: &Vec<String>) -> (r: Vec<LockedPackage>)
    ensures
        locked_views(r@) == placed_at(locked_views(packages@), crate::text::texts(paths@)),
{
    let ghost all = locked_views(packages@);
    let mut out: Vec<LockedPackage> = Vec::new();
    let mut i: usize = 0;
    assert(all.take(0).len() == 0);
    assert(locked_views(out@) == Seq::<LockedView>::empty());
    while i < packages.len()
        invariant
            i <= packages@.len(),
            all == locked_views(packages@),
            locked_views(out@) == placed_at(all.take(i as int), crate::text::texts(paths@)),
        decreases packages@.len() - i,
    {
        let package = &packages[i];
        let ghost before = out@;
        assert(all.take(i + 1).drop_last() == all.take(i as int));
        assert(all.take(i + 1).last() == package@);
        if is_listed(paths, package.key.as_str()) {
            let copy = package.clone();
            out.push(copy);
            assert(locked_views(out@) == locked_views(before).push(package@));
        }
        i = i + 1;
    }
    assert(all.take(i as int) == all);
    out
}

/// What an install from a lockfile comes to: the warnings about links, the links to make, the
/// install paths of what landed, and the installed packages or why it failed. Whoever skips an
/// unchanged tree later hands the paths in again.
#[derive(Debug, PartialEq, Eq)]
pub struct LockInstall {
    pub warnings: Vec<String>,
    pub bins: Vec<BinLink>,
    pub locals: Vec<LocalLink>,
    pub landed: Vec<String>,
    pub result: Result<Vec<Resolved>, String>,
}

/// The mathematical value of a [`LockInstall`].
pub struct LockInstallView {
    pub warnings: Seq<Text>,
    pub bins: Seq<BinLinkView>,
    pub locals: Seq<(Text, Text)>,
    pub landed: Seq<Text>,
    pub result: Result<Seq<ResolvedView>, Text>,
}

impl View for LockInstall {
    type V = LockInstallView;

    open spec fn view(&self) -> LockInstallView {
        LockInstallView {
            warnings: crate::text::texts(self.warnings@),
            bins: bin_views(self.bins@),
            locals: local_views(self.locals@),
            landed: crate::text::texts(self.landed@),
            result: match self.result {
                Ok(list) => Ok(crate::walk::package_views(list@)),
                Err(message) => Err(message@),
            },
        }
    }
}

/// What an install comes to when the tree is already in place, with packages at `paths`: those
/// are reported, and nothing else.
pub open spec fn unchanged_install(packages: Seq<LockedView>, paths: Seq<Text>) -> LockInstallView {
    let placed = placed_at(packages, paths);
    LockInstallView {
        warnings: Seq::empty(),
        bins: Seq::empty(),
        locals: Seq::empty(),
        landed: paths_of(placed),
        result: all_installed(placed),
    }
}

/// What an install of `packages` and `links` below `dest` comes to, given what the fetching did.
/// Programs are linked only for packages that landed, directories after them; what landed is
/// reported.
pub open spec fn fresh_install(
    dest: Text,
    packages: Seq<LockedView>,
    links: Seq<LockedView>,
    installed: InstalledView,
) -> LockInstallView {
    let landed = picked(packages, installed.landed);
    let nothing = LockInstallView {
        warnings: Seq::empty(),
        bins: Seq::empty(),
        locals: Seq::empty(),
        landed: paths_of(landed),
        result: Ok(Seq::empty()),
    };
    match installed.fault {
        Some(fault) => LockInstallView { result: Err(fault), ..nothing },
        None => {
            let bins = bins_of(crate::path::joined_path(dest, "node_modules"@), landed);
            match bins.fault {
                Some(fault) => LockInstallView { bins: bins.links, result: Err(fault), ..nothing },
                None => {
                    let locals = locals_of(dest, links);
                    LockInstallView {
                        warnings: locals.warnings,
                        bins: bins.links,
                        locals: locals.links,
                        landed: paths_of(landed),
                        result: match locals.fault {
                            Some(fault) => Err(fault),
                            None => all_installed(landed),
                        },
                    }
                },
            }
        },
    }
}

/// The state of an install.
pub struct InstallView {
    pub dest: Text,
    pub packages: Seq<LockedView>,
    pub links: Seq<LockedView>,
    /// The install paths of what is in place already, where the tree is unchanged.
    pub placed: Option<Seq<Text>>,
    /// Whether each package is told of before it is fetched.
    pub observed: bool,
    /// How many of the warnings about hosts were given.
    pub warned: int,
    /// How the fetches came out, package by package.
    pub outcomes: Seq<Result<(), String>>,
    /// How many of the warnings about packages that were passed over were given.
    pub noted: int,
    /// Whether the next package was told of.
    pub told: bool,
    /// Whether a fetch was handed out and its outcome not handed in yet.
    pub awaiting: bool,
}

/// What an install does next.
#[derive(Debug, PartialEq, Eq)]
pub enum InstallAction {
    /// Give this warning.
    Warn(String),
    /// Give this warning: the optional package that was fetched last is passed over.
    Skipped(String),
    /// Tell of the package that is fetched next.
    Tell { index: usize, total: usize, name: String, version: String },
    /// Fetch a package, check it and unpack it in `dir`.
    Fetch { name: String, url: String, integrity: Option<String>, dir: String },
    /// Nothing: the install is over.
    Done(LockInstall),
}

/// The mathematical value of an [`InstallAction`].
pub enum InstallActionView {
    Warn(Text),
    Skipped(Text),
    Tell { index: int, total: int, name: Text, version: Text },
    Fetch { name: Text, url: Text, integrity: Option<Text>, dir: Text },
    Done(LockInstallView),
}

impl View for InstallAction {
    type V = InstallActionView;

    open spec fn view(&self) -> InstallActionView {
        match *self {
            InstallAction::Warn(message) => InstallActionView::Warn(message@),
            InstallAction::Skipped(message) => InstallActionView::Skipped(message@),
            InstallAction::Tell { index, total, name, version } => InstallActionView::Tell {
                index: index as int,
                total: total as int,
                name: name@,
                version: version@,
            },
            InstallAction::Fetch { name, url, integrity, dir } => InstallActionView::Fetch {
                name: name@,
                url: url@,
                integrity: crate::text::optional_text(integrity),
                dir: dir@,
            },
            InstallAction::Done(done) => InstallActionView::Done(done@),
        }
    }
}

/// An install that has not begun.
pub open spec fn install_of(
    dest: Text,
    packages: Seq<LockedView>,
    links: Seq<LockedView>,
    placed: Option<Seq<Text>>,
    observed: bool,
) -> InstallView {
    InstallView {
        dest,
        packages,
        links,
        placed,
        observed,
        warned: 0,
        outcomes: Seq::empty(),
        noted: 0,
        told: false,
        awaiting: false,
    }
}

/// The install with the outcome of its fetch, where one was handed in.
pub open spec fn with_outcome(v: InstallView, outcome: Option<Result<(), String>>) -> InstallView {
    match outcome {
        Some(outcome) => InstallView {
            outcomes: v.outcomes.push(outcome),
            told: false,
            awaiting: false,
            ..v
        },
        None => v,
    }
}

/// What the fetches so far did.
pub open spec fn so_far(v: InstallView) -> InstalledView {
    installed_after(v.dest, v.packages, v.outcomes, v.outcomes.len() as int)
}

/// What the install does next. The warnings about hosts come first. Then each package is told of
/// and fetched, in order, until one ends the install or there are no more; one that is passed over
/// is warned of at once.
pub open spec fn next_action(v: InstallView) -> InstallActionView {
    let warnings = host_warnings(v.packages);
    let k = v.outcomes.len() as int;
    let package = v.packages[k];
    match v.placed {
        Some(paths) => InstallActionView::Done(unchanged_install(v.packages, paths)),
        None => if v.warned < warnings.len() {
            InstallActionView::Warn(warnings[v.warned])
        } else if v.noted < so_far(v).warnings.len() {
            InstallActionView::Skipped(so_far(v).warnings[v.noted])
        } else if so_far(v).fault is Some || k >= v.packages.len() {
            InstallActionView::Done(fresh_install(v.dest, v.packages, v.links, so_far(v)))
        } else if v.observed && !v.told {
            InstallActionView::Tell {
                index: k + 1,
                total: v.packages.len() as int,
                name: package.name,
                version: package.version,
            }
        } else {
            match crate::path::contained_path(v.dest, package.key) {
                Err(fault) => InstallActionView::Done(
                    fresh_install(
                        v.dest,
                        v.packages,
                        v.links,
                        InstalledView { fault: Some(fault), ..so_far(v) },
                    ),
                ),
                Ok(dir) => InstallActionView::Fetch {
                    name: package.name,
                    url: or_empty(package.resolved),
                    integrity: package.integrity,
                    dir,
                },
            }
        },
    }
}

/// The install once its next action was handed out.
pub open spec fn acted(v: InstallView) -> InstallView {
    match next_action(v) {
        InstallActionView::Warn(_) => InstallView { warned: v.warned + 1, ..v },
        InstallActionView::Skipped(_) => InstallView { noted: v.noted + 1, ..v },
        InstallActionView::Tell { .. } => InstallView { told: true, ..v },
        InstallActionView::Fetch { .. } => InstallView { awaiting: true, ..v },
        InstallActionView::Done(_) => v,
    }
}

/// An install in progress. [`Install::next`] hands out what to do, one thing at a time.
pub struct Install {
    dest: String,
    packages: Vec<LockedPackage>,
    links: Vec<LockedPackage>,
    placed: Option<Vec<String>>,
    observed: bool,
    /// The warnings about hosts.
    hosts: Vec<String>,
    warned: usize,
    /// What the fetches so far did.
    done: Installed,
    /// How many of the warnings about packages that were passed over were given.
    noted: usize,
    /// How many packages were fetched.
    at: usize,
    told: bool,
    awaiting: bool,
    outcomes: Ghost<Seq<Result<(), String>>>,
}

impl View for Install {
    type V = InstallView;

    closed spec fn view(&self) -> InstallView {
        InstallView {
            dest: self.dest@,
            packages: locked_views(self.packages@),
            links: locked_views(self.links@),
            placed: match self.placed {
                Some(paths) => Some(crate::text::texts(paths@)),
                None => None,
            },
            observed: self.observed,
            warned: self.warned as int,
            outcomes: self.outcomes@,
            noted: self.noted as int,
            told: self.told,
            awaiting: self.awaiting,
        }
    }
}

impl Install {
    /// The parts of the install fit together.
    pub closed spec fn wf(&self) -> bool {
        let all = locked_views(self.packages@);
        &&& self.at == self.outcomes@.len()
        &&& self.at <= self.packages@.len()
        &&& self.done@ == so_far(self@)
        &&& self.warned <= self.hosts@.len()
        &&& self.noted <= self.done.warnings@.len()
        &&& crate::text::texts(self.hosts@) == host_warnings(all)
        &&& forall|k: int|
            0 <= k < self.done.landed@.len() ==> #[trigger] self.done.landed@[k]
                < self.packages@.len()
        &&& forall|k: int|
            0 <= k < self.links@.len() ==> (#[trigger] self.links@[k])@.key.len() > 0
        &&& self.awaiting ==> {
            &&& self.at < self.packages@.len()
            &&& self.done.fault is None
            &&& crate::path::contained_path(self.dest@, all[self.at as int].key) is Ok
        }
    }

    /// Whether a fetch was handed out and its outcome not handed in yet.
    pub fn is_awaiting(&self) -> (r: bool)
        ensures
            r == self@.awaiting,
    {
        self.awaiting
    }

    /// Take the outcome of the fetch that was handed out. An optional package that failed is
    /// warned of and passed over; a required one ends the install.
    fn take_outcome(&mut self, outcome: Result<(), String>)
        requires
            old(self).wf(),
            old(self)@.awaiting,
        ensures
            final(self).wf(),
            final(self)@ == with_outcome(old(self)@, Some(outcome)),
    {
        let ghost v = self@;
        let ghost before = self.outcomes@;
        let at: usize = self.at;
        let total: usize = self.packages.len();
        assert(at < total);
        let next: usize = at + 1;
        let ghost package = self.packages@[at as int]@;
        let ghost landed_before = self.done.landed@;
        let ghost warnings_before = self.done.warnings@;
        assert(v.packages[at as int] == package);
        self.outcomes = Ghost(before.push(outcome));
        proof {
            lemma_same_start(v.dest, v.packages, before, self.outcomes@, at as int);
        }
        match outcome {
            Ok(_) => {
                self.done.landed.push(at);
                assert(self.done@.landed == positions(landed_before).push(at as int));
            },
            Err(cause) => {
                let package = &self.packages[at];
                if package.optional || package.dev_optional {
                    let mut warning = "optional dependency `".to_owned();
                    warning.append(package.name.as_str());
                    warning.append("` failed to install (");
                    warning.append(cause.as_str());
                    warning.append("); skipping");
                    self.done.warnings.push(warning);
                    assert(self.done@.warnings == crate::text::texts(warnings_before).push(
                        warning@,
                    ));
                } else {
                    self.done.fault = Some(cause);
                }
            },
        }
        self.at = next;
        self.told = false;
        self.awaiting = false;
        assert(self.done@ == installed_after(v.dest, v.packages, self.outcomes@, at + 1));
    }

    /// What the install comes to; `fault` is what ended it.
    fn conclude(&self, fault: Option<String>) -> (r: LockInstall)
        requires
            self.wf(),
        ensures
            r@ == fresh_install(
                self@.dest,
                self@.packages,
                self@.links,
                InstalledView { fault: crate::text::optional_text(fault), ..so_far(self@) },
            ),
    {
        let picked = pick(&self.packages, &self.done.landed);
        let landed = list_paths(&picked);
        let warnings: Vec<String> = Vec::new();
        let bins: Vec<BinLink> = Vec::new();
        let locals: Vec<LocalLink> = Vec::new();
        assert(crate::text::texts(warnings@) == Seq::<Text>::empty());
        assert(bin_views(bins@) == Seq::<BinLinkView>::empty());
        assert(local_views(locals@) == Seq::<(Text, Text)>::empty());
        if let Some(fault) = fault {
            return LockInstall { warnings, bins, locals, landed, result: Err(fault) };
        }
        let node_modules = join_path(self.dest.as_str(), "node_modules");
        let Bins { links: bins, fault } = link_bins(node_modules.as_str(), &picked);
        if let Some(fault) = fault {
            return LockInstall { warnings, bins, locals, landed, result: Err(fault) };
        }
        let Locals { links: locals, warnings, fault } = link_locals(
            self.dest.as_str(),
            &self.links,
        );
        let result = match fault {
            Some(fault) => Err(fault),
            None => installed_packages(&picked),
        };
        LockInstall { warnings, bins, locals, landed, result }
    }

    /// Hand in the outcome of the fetch that was handed out, if one was, and get what to do next:
    /// first the warnings about hosts, then each package, told of where that was asked for,
    /// directly after it fetched, and warned of where it is passed over. [`InstallAction::Done`]
    /// comes out from then on.
    pub fn next(&mut self, outcome: Option<Result<(), String>>) -> (r: InstallAction)
        requires
            old(self).wf(),
            outcome is Some <==> old(self)@.awaiting,
        ensures
            final(self).wf(),
            r@ == next_action(with_outcome(old(self)@, outcome)),
            final(self)@ == acted(with_outcome(old(self)@, outcome)),
    {
        if let Some(outcome) = outcome {
            self.take_outcome(outcome);
        }
        let ghost v = self@;
        if let Some(paths) = &self.placed {
            let placed = pick_placed(&self.packages, paths);
            let warnings: Vec<String> = Vec::new();
            let bins: Vec<BinLink> = Vec::new();
            let locals: Vec<LocalLink> = Vec::new();
            assert(crate::text::texts(warnings@) == Seq::<Text>::empty());
            assert(bin_views(bins@) == Seq::<BinLinkView>::empty());
            assert(local_views(locals@) == Seq::<(Text, Text)>::empty());
            let landed = list_paths(&placed);
            let result = installed_packages(&placed);
            return InstallAction::Done(LockInstall { warnings, bins, locals, landed, result });
        }
        if self.warned < self.hosts.len() {
            let warning = self.hosts[self.warned].clone();
            assert(warning@ == host_warnings(v.packages)[v.warned]);
            self.warned = self.warned + 1;
            return InstallAction::Warn(warning);
        }
        if self.noted < self.done.warnings.len() {
            let warning = self.done.warnings[self.noted].clone();
            assert(warning@ == so_far(v).warnings[v.noted]);
            self.noted = self.noted + 1;
            return InstallAction::Skipped(warning);
        }
        if self.done.fault.is_some() || self.at >= self.packages.len() {
            return InstallAction::Done(self.conclude(self.done.fault.clone()));
        }
        let package = &self.packages[self.at];
        assert(v.packages[self.at as int] == package@);
        if self.observed && !self.told {
            let action = InstallAction::Tell {
                index: self.at + 1,
                total: self.packages.len(),
                name: package.name.clone(),
                version: package.version.clone(),
            };
            self.told = true;
            return action;
        }
        match safe_join(self.dest.as_str(), package.key.as_str()) {
            Err(fault) => InstallAction::Done(self.conclude(Some(fault))),
            Ok(dir) => {
                let url = match &package.resolved {
                    Some(url) => url.clone(),
                    None => {
                        let empty = String::new();
                        assert(empty@ == Seq::<char>::empty());
                        empty
                    },
                };
                let action = InstallAction::Fetch {
                    name: package.name.clone(),
                    url,
                    integrity: package.integrity.clone(),
                    dir,
                };
                self.awaiting = true;
                action
            },
        }
    }
}

/// The mathematical value of an optional list of strings.
pub open spec fn optional_texts(list: Option<Vec<String>>) -> Option<Seq<Text>> {
    match list {
        Some(list) => Some(crate::text::texts(list@)),
        None => None,
    }
}

/// Install the tree that a lockfile pins below `dest`, for a machine with the system `os` and the
/// processor `arch`. `placed` says that the tree is already in place, with packages at these
/// install paths; then nothing is fetched.
pub fn from_lockfile(
    lockfile: &Lockfile,
    dest: &str,
    os: &str,
    arch: &str,
    placed: Option<Vec<String>>,
) -> (r: Install)
    ensures
        r.wf(),
        ({
            let all = locked_views(lockfile.packages@);
            r@ == install_of(
                dest@,
                installed_on(all, npm_os(os@), npm_cpu(arch@)),
                links_in(all),
                optional_texts(placed),
                false,
            )
        }),
{
    begin_install(lockfile, dest, os, arch, placed, false)
}

/// [`from_lockfile`], where each package is told of directly before it is fetched.
pub fn from_lockfile_observed(
    lockfile: &Lockfile,
    dest: &str,
    os: &str,
    arch: &str,
    placed: Option<Vec<String>>,
) -> (r: Install)
    ensures
        r.wf(),
        ({
            let all = locked_views(lockfile.packages@);
            r@ == install_of(
                dest@,
                installed_on(all, npm_os(os@), npm_cpu(arch@)),
                links_in(all),
                optional_texts(placed),
                true,
            )
        }),
{
    begin_install(lockfile, dest, os, arch, placed, true)
}

fn begin_install(
    lockfile: &Lockfile,
    dest: &str,
    os: &str,
    arch: &str,
    placed: Option<Vec<String>>,
    observed: bool,
) -> (r: Install)
    ensures
        r.wf(),
        ({
            let all = locked_views(lockfile.packages@);
            r@ == install_of(
                dest@,
                installed_on(all, npm_os(os@), npm_cpu(arch@)),
                links_in(all),
                optional_texts(placed),
                observed,
            )
        }),
{
    let packages = lockfile.installable(os, arch);
    let hosts = warn_of_hosts(&packages);
    let done = Installed { landed: Vec::new(), warnings: Vec::new(), fault: None };
    assert(done@.landed == Seq::<int>::empty());
    assert(done@.warnings == Seq::<Text>::empty());
    Install {
        dest: dest.to_owned(),
        packages,
        links: lockfile.links(),
        placed,
        observed,
        hosts,
        warned: 0,
        done,
        noted: 0,
        at: 0,
        told: false,
        awaiting: false,
        outcomes: Ghost(Seq::empty()),
    }
}

// ---------------------------------------------------------------------------
// Laws
// ---------------------------------------------------------------------------

/// An install that does not fail accounts for every package: each landed or was warned of.
pub proof fn law_installs_account_for_every_package(
    dest: Text,
    packages: Seq<LockedView>,
    outcomes: Seq<Result<(), String>>,
    n: int,
)
    requires
        0 <= n <= packages.len(),
        installed_after(dest, packages, outcomes, n).fault is None,
    ensures
        ({
            let done = installed_after(dest, packages, outcomes, n);
            done.landed.len() + done.warnings.len() == n
        }),
    decreases n,
{
    if n > 0 {
        law_installs_account_for_every_package(dest, packages, outcomes, n - 1);
    }
}

/// An install that does not fail has every required package.
pub proof fn law_required_packages_land(
    dest: Text,
    packages: Seq<LockedView>,
    outcomes: Seq<Result<(), String>>,
    n: int,
    i: int,
)
    requires
        0 <= i < n <= packages.len(),
        installed_after(dest, packages, outcomes, n).fault is None,
        !packages[i].optional,
        !packages[i].dev_optional,
    ensures
        installed_after(dest, packages, outcomes, n).landed.contains(i),
    decreases n,
{
    let earlier = installed_after(dest, packages, outcomes, n - 1);
    let now = installed_after(dest, packages, outcomes, n);
    if i == n - 1 {
        assert(now.landed[earlier.landed.len() as int] == i);
    } else {
        law_required_packages_land(dest, packages, outcomes, n - 1, i);
        let k = choose|k: int| 0 <= k < earlier.landed.len() && earlier.landed[k] == i;
        assert(now.landed[k] == i);
    }
}

/// Each host other than the public registry is warned of once.
pub proof fn law_hosts_are_warned_of_once(packages: Seq<LockedView>)
    ensures
        other_hosts(packages).no_duplicates(),
        !other_hosts(packages).contains("registry.npmjs.org"@),
        forall|i: int|
            0 <= i < packages.len() ==> crate::common::host(
                or_empty((#[trigger] packages[i]).resolved),
            ) == "registry.npmjs.org"@ || other_hosts(packages).contains(
                crate::common::host(or_empty(packages[i].resolved)),
            ),
    decreases packages.len(),
{
    if packages.len() > 0 {
        let shorter = packages.drop_last();
        law_hosts_are_warned_of_once(shorter);
        let inner = other_hosts(shorter);
        let hosts = other_hosts(packages);
        let host = crate::common::host(or_empty(packages.last().resolved));
        if hosts != inner {
            assert(hosts == inner.push(host));
            assert(hosts[inner.len() as int] == host);
            assert forall|i: int, j: int|
                0 <= i < hosts.len() && 0 <= j < hosts.len() && i != j implies hosts[i]
                != hosts[j] by {
                if i < inner.len() {
                    assert(inner.contains(inner[i]));
                }
                if j < inner.len() {
                    assert(inner.contains(inner[j]));
                }
            }
            assert(!hosts.contains("registry.npmjs.org"@)) by {
                if hosts.contains("registry.npmjs.org"@) {
                    let k = choose|k: int|
                        0 <= k < hosts.len() && hosts[k] == "registry.npmjs.org"@;
                    if k < inner.len() {
                        assert(inner[k] == hosts[k]);
                        assert(inner.contains(inner[k]));
                    }
                }
            }
        }
        assert forall|i: int| 0 <= i < packages.len() implies crate::common::host(
            or_empty((#[trigger] packages[i]).resolved),
        ) == "registry.npmjs.org"@ || hosts.contains(
            crate::common::host(or_empty(packages[i].resolved)),
        ) by {
            if i < shorter.len() {
                assert(shorter[i] == packages[i]);
                let h = crate::common::host(or_empty(packages[i].resolved));
                if h != "registry.npmjs.org"@ {
                    let k = choose|k: int| 0 <= k < inner.len() && inner[k] == h;
                    assert(hosts[k] == inner[k]);
                }
            }
        }
    }
}

/// The install after it was given `inputs`, one for each action: the outcome of a fetch, or
/// nothing.
pub open spec fn ran(v: InstallView, inputs: Seq<Option<Result<(), String>>>) -> InstallView
    decreases inputs.len(),
{
    if inputs.len() == 0 {
        v
    } else {
        acted(given(v, inputs))
    }
}

/// The install once the last of `inputs` was handed in, before the action that it gives for it.
pub open spec fn given(v: InstallView, inputs: Seq<Option<Result<(), String>>>) -> InstallView
    decreases inputs.len(), 0int,
    when inputs.len() > 0
{
    with_outcome(ran(v, inputs.drop_last()), inputs.last())
}

/// `inputs` hold an outcome exactly where one is awaited.
pub open spec fn fits(v: InstallView, inputs: Seq<Option<Result<(), String>>>) -> bool
    decreases inputs.len(),
{
    inputs.len() > 0 ==> fits(v, inputs.drop_last()) && (inputs.last() is Some <==> ran(
        v,
        inputs.drop_last(),
    ).awaiting)
}

proof fn lemma_ran(
    dest: Text,
    packages: Seq<LockedView>,
    links: Seq<LockedView>,
    observed: bool,
    inputs: Seq<Option<Result<(), String>>>,
)
    requires
        fits(install_of(dest, packages, links, None, observed), inputs),
    ensures
        ({
            let v = ran(install_of(dest, packages, links, None, observed), inputs);
            let hosts = host_warnings(packages).len();
            &&& v.dest == dest && v.packages == packages && v.placed is None
            &&& v.observed == observed
            &&& v.warned == if inputs.len() < hosts {
                inputs.len()
            } else {
                hosts
            }
            &&& inputs.len() <= hosts ==> v.outcomes.len() == 0 && !v.told && !v.awaiting
            &&& 0 <= v.noted <= so_far(v).warnings.len()
            &&& v.told || v.awaiting ==> v.noted == so_far(v).warnings.len()
            &&& v.awaiting ==> v.warned == hosts && v.outcomes.len() < packages.len()
                && so_far(v).fault is None && crate::path::contained_path(
                dest,
                packages[v.outcomes.len() as int].key,
            ) is Ok
        }),
    decreases inputs.len(),
{
    if inputs.len() > 0 {
        lemma_ran(dest, packages, links, observed, inputs.drop_last());
        let before = ran(install_of(dest, packages, links, None, observed), inputs.drop_last());
        let now = given(install_of(dest, packages, links, None, observed), inputs);
        if before.awaiting {
            lemma_same_start(
                dest,
                packages,
                before.outcomes,
                now.outcomes,
                before.outcomes.len() as int,
            );
        }
    }
}

/// The warnings about hosts come first, one for each host and before anything is fetched: the
/// first actions of an install are those warnings, and no later action is one.
pub proof fn law_hosts_are_warned_of_first(
    dest: Text,
    packages: Seq<LockedView>,
    links: Seq<LockedView>,
    observed: bool,
    inputs: Seq<Option<Result<(), String>>>,
)
    requires
        inputs.len() > 0,
        fits(install_of(dest, packages, links, None, observed), inputs),
    ensures
        ({
            let start = install_of(dest, packages, links, None, observed);
            let warnings = host_warnings(packages);
            if inputs.len() <= warnings.len() {
                next_action(given(start, inputs)) == InstallActionView::Warn(
                    warnings[inputs.len() - 1],
                )
            } else {
                !(next_action(given(start, inputs)) is Warn)
            }
        }),
{
    lemma_ran(dest, packages, links, observed, inputs.drop_last());
}

/// Each fetch directly follows the event that tells of it.
pub proof fn law_fetches_follow_their_event(
    dest: Text,
    packages: Seq<LockedView>,
    links: Seq<LockedView>,
    inputs: Seq<Option<Result<(), String>>>,
)
    requires
        inputs.len() > 0,
        fits(install_of(dest, packages, links, None, true), inputs),
        next_action(given(install_of(dest, packages, links, None, true), inputs)) is Fetch,
    ensures
        ({
            let start = install_of(dest, packages, links, None, true);
            let k = given(start, inputs).outcomes.len() as int;
            &&& 0 <= k < packages.len()
            &&& next_action(given(start, inputs)) == InstallActionView::Fetch {
                name: packages[k].name,
                url: or_empty(packages[k].resolved),
                integrity: packages[k].integrity,
                dir: crate::path::joined_path(dest, packages[k].key),
            }
            &&& inputs.len() > 1
            &&& next_action(given(start, inputs.drop_last())) == InstallActionView::Tell {
                index: k + 1,
                total: packages.len() as int,
                name: packages[k].name,
                version: packages[k].version,
            }
        }),
{
    let start = install_of(dest, packages, links, None, true);
    let earlier = inputs.drop_last();
    lemma_ran(dest, packages, links, true, earlier);
    let u = given(start, inputs);
    assert(u.told);
    assert(inputs.last() is None);
    assert(u == ran(start, earlier));
    assert(earlier.len() > 0);
    assert(fits(start, earlier));
    assert(fits(start, earlier.drop_last()));
    lemma_ran(dest, packages, links, true, earlier.drop_last());
    let w = given(start, earlier);
    assert(u == acted(w));
}

/// An optional package whose fetch failed is warned of at once, before anything else is done.
pub proof fn law_skipped_packages_are_warned_of_at_once(
    dest: Text,
    packages: Seq<LockedView>,
    links: Seq<LockedView>,
    observed: bool,
    inputs: Seq<Option<Result<(), String>>>,
    cause: String,
)
    requires
        inputs.len() > 0,
        fits(install_of(dest, packages, links, None, observed), inputs),
        inputs.last() == Some(Err::<(), String>(cause)),
        ({
            let start = install_of(dest, packages, links, None, observed);
            let package = packages[ran(start, inputs.drop_last()).outcomes.len() as int];
            package.optional || package.dev_optional
        }),
    ensures
        ({
            let start = install_of(dest, packages, links, None, observed);
            let package = packages[ran(start, inputs.drop_last()).outcomes.len() as int];
            next_action(given(start, inputs)) == InstallActionView::Skipped(
                skipped_warning(package.name, cause@),
            )
        }),
{
    let start = install_of(dest, packages, links, None, observed);
    lemma_ran(dest, packages, links, observed, inputs.drop_last());
    let before = ran(start, inputs.drop_last());
    let now = given(start, inputs);
    let k = before.outcomes.len() as int;
    assert(now.outcomes == before.outcomes.push(Err(cause)));
    lemma_same_start(dest, packages, before.outcomes, now.outcomes, k);
    assert(so_far(now) == installed_after(dest, packages, now.outcomes, k + 1));
}

/// How far the events of an install are.
spec fn events_made(v: InstallView) -> int {
    2 * v.outcomes.len() + if v.told {
        1int
    } else {
        0
    }
}

/// How far the fetches of an install are.
spec fn fetches_made(v: InstallView) -> int {
    2 * v.outcomes.len() + if v.awaiting {
        1int
    } else {
        0
    }
}

proof fn lemma_installs_advance(
    v: InstallView,
    inputs: Seq<Option<Result<(), String>>>,
    m: int,
)
    requires
        fits(v, inputs),
        0 <= m <= inputs.len(),
    ensures
        events_made(ran(v, inputs.take(m))) <= events_made(ran(v, inputs)),
        fetches_made(ran(v, inputs.take(m))) <= fetches_made(ran(v, inputs)),
        fits(v, inputs.take(m)),
    decreases inputs.len(),
{
    if m < inputs.len() {
        let earlier = inputs.drop_last();
        assert(earlier.take(m) == inputs.take(m));
        lemma_installs_advance(v, earlier, m);
    } else {
        assert(inputs.take(m) == inputs);
    }
}

/// Each package is told of once and fetched once: a later event, or a later fetch, is about a
/// later package.
pub proof fn law_packages_come_once(
    v: InstallView,
    inputs: Seq<Option<Result<(), String>>>,
    m: int,
)
    requires
        fits(v, inputs),
        0 < m < inputs.len(),
    ensures
        ({
            let early = given(v, inputs.take(m));
            let late = given(v, inputs);
            &&& next_action(early) is Tell && next_action(late) is Tell ==> early.outcomes.len()
                < late.outcomes.len()
            &&& next_action(early) is Fetch && next_action(late) is Fetch ==> early.outcomes.len()
                < late.outcomes.len()
        }),
{
    let before = inputs.drop_last();
    assert(before.take(m) == inputs.take(m));
    lemma_installs_advance(v, before, m);
    let early = given(v, inputs.take(m));
    assert(ran(v, inputs.take(m)) == acted(early));
}

/// The positions of what landed ascend.
pub proof fn lemma_landed_ascend(
    dest: Text,
    packages: Seq<LockedView>,
    outcomes: Seq<Result<(), String>>,
    n: int,
)
    requires
        0 <= n,
    ensures
        ({
            let landed = installed_after(dest, packages, outcomes, n).landed;
            &&& forall|i: int, j: int|
                #![trigger landed[i], landed[j]]
                0 <= i < j < landed.len() ==> landed[i] < landed[j]
            &&& forall|i: int| 0 <= i < landed.len() ==> 0 <= #[trigger] landed[i] < n
        }),
    decreases n,
{
    if n > 0 {
        lemma_landed_ascend(dest, packages, outcomes, n - 1);
    }
}

/// What a machine installs keeps the order of the lockfile.
proof fn lemma_filtered_by_path(packages: Seq<LockedView>, keep: spec_fn(LockedView) -> bool)
    requires
        is_by_path(packages),
    ensures
        is_by_path(packages.filter(keep)),
        forall|i: int|
            0 <= i < packages.filter(keep).len() ==> packages.contains(
                #[trigger] packages.filter(keep)[i],
            ),
    decreases packages.len(),
{
    reveal(Seq::filter);
    if packages.len() > 0 {
        let shorter = packages.drop_last();
        let inner = shorter.filter(keep);
        let outer = packages.filter(keep);
        assert forall|i: int, j: int|
            #![trigger shorter[i], shorter[j]]
            0 <= i < j < shorter.len() implies crate::text::precedes(
            shorter[i].key,
            shorter[j].key,
        ) by {
            assert(shorter[i] == packages[i] && shorter[j] == packages[j]);
        }
        lemma_filtered_by_path(shorter, keep);
        assert forall|i: int| 0 <= i < outer.len() implies packages.contains(
            #[trigger] outer[i],
        ) by {
            if i < inner.len() {
                assert(shorter.contains(inner[i]));
                let k = choose|k: int| 0 <= k < shorter.len() && shorter[k] == inner[i];
                assert(packages[k] == outer[i]);
            } else {
                assert(packages[packages.len() - 1] == outer[i]);
            }
        }
        assert forall|i: int, j: int|
            #![trigger outer[i], outer[j]]
            0 <= i < j < outer.len() implies crate::text::precedes(
            outer[i].key,
            outer[j].key,
        ) by {
            if j < inner.len() {
                assert(outer[i] == inner[i] && outer[j] == inner[j]);
            } else {
                assert(shorter.contains(inner[i]));
                let k = choose|k: int| 0 <= k < shorter.len() && shorter[k] == inner[i];
                assert(packages[k] == outer[i]);
                assert(packages[packages.len() - 1] == outer[j]);
            }
        }
    }
}

/// What is installed is reported by install path: the packages that landed stand in that order
/// where the lockfile's entries do, as they do in one that was read.
pub proof fn law_reports_are_by_path(
    dest: Text,
    entries: Seq<LockedView>,
    os: Text,
    cpu: Text,
    outcomes: Seq<Result<(), String>>,
    n: int,
)
    requires
        is_by_path(entries),
        0 <= n <= installed_on(entries, os, cpu).len(),
    ensures
        is_by_path(installed_on(entries, os, cpu)),
        ({
            let packages = installed_on(entries, os, cpu);
            is_by_path(picked(packages, installed_after(dest, packages, outcomes, n).landed))
        }),
{
    lemma_filtered_by_path(entries, |p: LockedView| is_installed_on(p, os, cpu));
    let packages = installed_on(entries, os, cpu);
    lemma_landed_ascend(dest, packages, outcomes, n);
    let landed = installed_after(dest, packages, outcomes, n).landed;
    let list = picked(packages, landed);
    assert forall|i: int, j: int|
        #![trigger list[i], list[j]]
        0 <= i < j < list.len() implies crate::text::precedes(list[i].key, list[j].key) by {
        assert(landed[i] < landed[j]);
        assert(list[i] == packages[landed[i]] && list[j] == packages[landed[j]]);
    }
}

proof fn lemma_placed_again(
    dest: Text,
    packages: Seq<LockedView>,
    outcomes: Seq<Result<(), String>>,
    n: int,
    paths: Seq<Text>,
)
    requires
        0 <= n <= packages.len(),
        forall|i: int|
            0 <= i < n ==> (paths.contains((#[trigger] packages[i]).key) <==> installed_after(
                dest,
                packages,
                outcomes,
                n,
            ).landed.contains(i)),
    ensures
        placed_at(packages.take(n), paths) == picked(
            packages,
            installed_after(dest, packages, outcomes, n).landed,
        ),
    decreases n,
{
    let now = installed_after(dest, packages, outcomes, n).landed;
    if n > 0 {
        let earlier = installed_after(dest, packages, outcomes, n - 1).landed;
        lemma_landed_ascend(dest, packages, outcomes, n - 1);
        assert forall|i: int| 0 <= i < n - 1 implies (paths.contains(
            (#[trigger] packages[i]).key,
        ) <==> earlier.contains(i)) by {
            if now != earlier {
                assert(now == earlier.push(n - 1));
                if earlier.contains(i) {
                    let k = choose|k: int| 0 <= k < earlier.len() && earlier[k] == i;
                    assert(now[k] == i);
                }
                if now.contains(i) {
                    let k = choose|k: int| 0 <= k < now.len() && now[k] == i;
                    assert(earlier[k] == i);
                }
            }
        }
        lemma_placed_again(dest, packages, outcomes, n - 1, paths);
        assert(packages.take(n).drop_last() == packages.take(n - 1));
        assert(packages.take(n).last() == packages[n - 1]);
        if now != earlier {
            assert(now == earlier.push(n - 1));
            assert(now[earlier.len() as int] == n - 1);
            assert(picked(packages, now) == picked(packages, earlier).push(packages[n - 1]));
        } else {
            assert(!now.contains(n - 1));
        }
    } else {
        assert(packages.take(0).len() == 0);
        assert(picked(packages, now) == Seq::<LockedView>::empty());
    }
}

/// An unchanged tree is reported as it was: where an install came through, skipping it later with
/// the paths that landed reports the same packages. An optional package that was passed over is
/// still left out. This holds of every lockfile that was read: its entries are by install path.
pub proof fn law_unchanged_trees_are_reported_again(
    dest: Text,
    entries: Seq<LockedView>,
    os: Text,
    cpu: Text,
    outcomes: Seq<Result<(), String>>,
)
    requires
        is_by_path(entries),
        outcomes.len() == installed_on(entries, os, cpu).len(),
        ({
            let packages = installed_on(entries, os, cpu);
            fresh_install(
                dest,
                packages,
                links_in(entries),
                installed_after(dest, packages, outcomes, packages.len() as int),
            ).result is Ok
        }),
    ensures
        ({
            let packages = installed_on(entries, os, cpu);
            let links = links_in(entries);
            let fresh = fresh_install(
                dest,
                packages,
                links,
                installed_after(dest, packages, outcomes, packages.len() as int),
            );
            let again = unchanged_install(packages, fresh.landed);
            again.result == fresh.result && again.landed == fresh.landed
        }),
{
    let packages = installed_on(entries, os, cpu);
    lemma_filtered_by_path(entries, |p: LockedView| is_installed_on(p, os, cpu));
    lemma_own_paths(packages);
    let n = packages.len() as int;
    let landed = installed_after(dest, packages, outcomes, n).landed;
    let list = picked(packages, landed);
    let paths = paths_of(list);
    lemma_landed_ascend(dest, packages, outcomes, n);
    assert forall|i: int| 0 <= i < n implies (paths.contains((#[trigger] packages[i]).key)
        <==> landed.contains(i)) by {
        if paths.contains(packages[i].key) {
            let k = choose|k: int| 0 <= k < paths.len() && paths[k] == packages[i].key;
            assert(list[k] == packages[landed[k]]);
            let j = landed[k];
            assert(packages[j].key == packages[i].key);
            assert(i == j);
        }
        if landed.contains(i) {
            let k = choose|k: int| 0 <= k < landed.len() && landed[k] == i;
            assert(paths[k] == packages[i].key);
        }
    }
    lemma_placed_again(dest, packages, outcomes, n, paths);
    assert(packages.take(n) == packages);
}

/// Nothing is fetched, told of or warned of for a tree that is already in place.
pub proof fn law_unchanged_trees_fetch_nothing(v: InstallView)
    requires
        v.placed is Some,
    ensures
        next_action(v) == InstallActionView::Done(unchanged_install(v.packages, v.placed->0)),
{
}

}
