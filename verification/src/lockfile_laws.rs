//! What holds of every install from a lockfile, said in terms of the lockfile that comes in and of
//! what is fetched, linked and reported.

use crate::json::JsonView;
use crate::lockfile::{BinLinkView, BinsView, LockedView};
use crate::text::Text;
use vstd::prelude::*;
use vstd::string::*;

verus! {

// ---------------------------------------------------------------------------
// What a machine installs
// ---------------------------------------------------------------------------

/// Filtering by predicates that agree gives the same.
pub proof fn lemma_filters_agree<A>(list: Seq<A>, f: spec_fn(A) -> bool, g: spec_fn(A) -> bool)
    requires
        forall|i: int| 0 <= i < list.len() ==> f(#[trigger] list[i]) == g(list[i]),
    ensures
        list.filter(f) == list.filter(g),
    decreases list.len(),
{
    reveal(Seq::filter);
    if list.len() > 0 {
        let shorter = list.drop_last();
        assert forall|i: int| 0 <= i < shorter.len() implies f(#[trigger] shorter[i]) == g(
            shorter[i],
        ) by {
            assert(shorter[i] == list[i]);
        }
        lemma_filters_agree(shorter, f, g);
        assert(f(list[list.len() - 1]) == g(list[list.len() - 1]));
    }
}

/// A machine installs the entries that are no links, that come from the web and whose lists of
/// systems and processors admit it: all of them, in order, and no others.
pub proof fn law_machines_install_what_matches(packages: Seq<LockedView>, os: Text, cpu: Text)
    ensures
        crate::lockfile::installed_on(packages, os, cpu) == packages.filter(
            |p: LockedView|
                !p.link && (p.resolved matches Some(url) && (crate::text::begins(url, "https://"@)
                    || crate::text::begins(url, "http://"@))) && crate::lockfile::admits(p.os, os)
                    && crate::lockfile::admits(p.cpu, cpu),
        ),
{
    lemma_filters_agree(
        packages,
        |p: LockedView| crate::lockfile::is_installed_on(p, os, cpu),
        |p: LockedView|
            !p.link && (p.resolved matches Some(url) && (crate::text::begins(url, "https://"@)
                || crate::text::begins(url, "http://"@))) && crate::lockfile::admits(p.os, os)
                && crate::lockfile::admits(p.cpu, cpu),
    );
}

/// The links are the entries below `node_modules` that are links, in order.
pub proof fn law_links_lie_below_node_modules(packages: Seq<LockedView>)
    ensures
        crate::lockfile::links_in(packages) == packages.filter(
            |p: LockedView| p.link && crate::text::begins(p.key, "node_modules/"@),
        ),
{
    lemma_filters_agree(
        packages,
        |p: LockedView| crate::lockfile::is_link(p),
        |p: LockedView| p.link && crate::text::begins(p.key, "node_modules/"@),
    );
}

/// A list admits a name that it does not rule out, unless it names others and not this one. An
/// empty list admits all.
pub proof fn law_lists_admit(list: Seq<Text>, name: Text)
    ensures
        list.len() == 0 ==> crate::lockfile::admits(list, name),
        list.contains("!"@ + name) ==> !crate::lockfile::admits(list, name),
        list.contains(name) && !list.contains("!"@ + name) ==> crate::lockfile::admits(list, name),
        !list.contains(name) && (exists|i: int|
            0 <= i < list.len() && !crate::text::begins(#[trigger] list[i], "!"@))
            ==> !crate::lockfile::admits(list, name),
        !list.contains("!"@ + name) && (forall|i: int|
            0 <= i < list.len() ==> crate::text::begins(#[trigger] list[i], "!"@))
            ==> crate::lockfile::admits(list, name),
{
}

/// `entry` is a tarball from the web that is no link.
pub open spec fn is_web_tarball(entry: LockedView) -> bool {
    !entry.link && (entry.resolved matches Some(url) && (crate::text::begins(url, "https://"@)
        || crate::text::begins(url, "http://"@)))
}

/// An entry for one processor is installed by the machines that have it, where its systems admit
/// them, and by no others: `x64` by `x86_64`, `arm64` by `aarch64`, `ia32` by `x86`.
pub proof fn law_entries_for_one_processor(packages: Seq<LockedView>, i: int, os: Text)
    requires
        0 <= i < packages.len(),
        is_web_tarball(packages[i]),
        crate::lockfile::admits(packages[i].os, crate::lockfile::npm_os(os)),
    ensures
        ({
            let entry = packages[i];
            let on = |arch: Text|
                crate::lockfile::installed_on(
                    packages,
                    crate::lockfile::npm_os(os),
                    crate::lockfile::npm_cpu(arch),
                ).contains(entry);
            &&& entry.cpu == seq!["x64"@] ==> on("x86_64"@) && !on("aarch64"@) && !on("x86"@)
                && !on("arm"@)
            &&& entry.cpu == seq!["arm64"@] ==> on("aarch64"@) && !on("x86_64"@) && !on("x86"@)
                && !on("arm"@)
            &&& entry.cpu == seq!["ia32"@] ==> on("x86"@) && !on("x86_64"@) && !on("aarch64"@)
                && !on("arm"@)
            &&& entry.cpu == seq!["arm"@] ==> on("arm"@) && !on("x86_64"@) && !on("aarch64"@)
                && !on("x86"@)
            &&& entry.cpu.len() == 0 ==> on("x86_64"@) && on("aarch64"@) && on("x86"@) && on(
                "arm"@,
            )
            &&& entry.cpu == seq!["!x64"@] ==> !on("x86_64"@) && on("aarch64"@) && on("x86"@)
        }),
{
    lemma_names();
    let entry = packages[i];
    lemma_installs(packages, i, os, "x86_64"@);
    lemma_installs(packages, i, os, "aarch64"@);
    lemma_installs(packages, i, os, "x86"@);
    lemma_installs(packages, i, os, "arm"@);
    assert(crate::lockfile::npm_cpu("x86_64"@) == "x64"@);
    assert(crate::lockfile::npm_cpu("aarch64"@) == "arm64"@);
    assert(crate::lockfile::npm_cpu("x86"@) == "ia32"@);
    assert(crate::lockfile::npm_cpu("arm"@) == "arm"@);
    if entry.cpu == seq!["x64"@] {
        lemma_names_one(entry.cpu, "x64"@);
    }
    if entry.cpu == seq!["arm64"@] {
        lemma_names_one(entry.cpu, "arm64"@);
    }
    if entry.cpu == seq!["ia32"@] {
        lemma_names_one(entry.cpu, "ia32"@);
    }
    if entry.cpu == seq!["arm"@] {
        lemma_names_one(entry.cpu, "arm"@);
    }
    if entry.cpu == seq!["!x64"@] {
        assert("!x64"@ =~= "!"@ + "x64"@);
        assert(entry.cpu[0] == "!x64"@);
        assert(entry.cpu.contains("!"@ + "x64"@));
        assert("!x64"@.take(1) =~= "!"@);
        assert("!x64"@ != "!"@ + "arm64"@) by {
            assert(("!"@ + "arm64"@)[1] == 'a');
        }
        assert("!x64"@ != "!"@ + "ia32"@) by {
            assert(("!"@ + "ia32"@)[1] == 'i');
        }
    }
}

/// An entry for one system is installed by the machines that run it, where its processors admit
/// them, and by no others: `darwin` by macOS, `win32` by Windows, `linux` by Linux.
pub proof fn law_entries_for_one_system(packages: Seq<LockedView>, i: int, arch: Text)
    requires
        0 <= i < packages.len(),
        is_web_tarball(packages[i]),
        crate::lockfile::admits(packages[i].cpu, crate::lockfile::npm_cpu(arch)),
    ensures
        ({
            let entry = packages[i];
            let on = |os: Text|
                crate::lockfile::installed_on(
                    packages,
                    crate::lockfile::npm_os(os),
                    crate::lockfile::npm_cpu(arch),
                ).contains(entry);
            &&& entry.os == seq!["darwin"@] ==> on("macos"@) && !on("windows"@) && !on("linux"@)
            &&& entry.os == seq!["win32"@] ==> on("windows"@) && !on("macos"@) && !on("linux"@)
            &&& entry.os == seq!["linux"@] ==> on("linux"@) && !on("macos"@) && !on("windows"@)
            &&& entry.os.len() == 0 ==> on("macos"@) && on("windows"@) && on("linux"@)
        }),
{
    lemma_names();
    let entry = packages[i];
    lemma_installs(packages, i, "macos"@, arch);
    lemma_installs(packages, i, "windows"@, arch);
    lemma_installs(packages, i, "linux"@, arch);
    assert(crate::lockfile::npm_os("macos"@) == "darwin"@);
    assert(crate::lockfile::npm_os("windows"@) == "win32"@);
    assert(crate::lockfile::npm_os("linux"@) == "linux"@);
    if entry.os == seq!["darwin"@] {
        lemma_names_one(entry.os, "darwin"@);
    }
    if entry.os == seq!["win32"@] {
        lemma_names_one(entry.os, "win32"@);
    }
    if entry.os == seq!["linux"@] {
        lemma_names_one(entry.os, "linux"@);
    }
}

/// Any other system or processor goes by its own name.
pub proof fn law_other_machines_go_by_their_names(name: Text)
    ensures
        name != "macos"@ && name != "windows"@ ==> crate::lockfile::npm_os(name) == name,
        name != "x86_64"@ && name != "aarch64"@ && name != "x86"@ ==> crate::lockfile::npm_cpu(name)
            == name,
{
}

proof fn lemma_names()
    ensures
        "x86_64"@ != "aarch64"@,
        "x86_64"@ != "x86"@,
        "aarch64"@ != "x86"@,
        "arm"@ != "x86_64"@,
        "arm"@ != "aarch64"@,
        "arm"@ != "x86"@,
        "x64"@ != "arm64"@,
        "x64"@ != "ia32"@,
        "x64"@ != "arm"@,
        "arm64"@ != "ia32"@,
        "arm64"@ != "arm"@,
        "ia32"@ != "arm"@,
        "macos"@ != "windows"@,
        "linux"@ != "macos"@,
        "linux"@ != "windows"@,
        "darwin"@ != "win32"@,
        "darwin"@ != "linux"@,
        "win32"@ != "linux"@,
        "!"@ == seq!['!'],
        "!x64"@ == seq!['!', 'x', '6', '4'],
        "x64"@ == seq!['x', '6', '4'],
        "arm64"@ == seq!['a', 'r', 'm', '6', '4'],
        "ia32"@ == seq!['i', 'a', '3', '2'],
        "arm"@ == seq!['a', 'r', 'm'],
        "darwin"@[0] == 'd' && "darwin"@.len() == 6,
        "win32"@[0] == 'w' && "win32"@.len() == 5,
        "linux"@[0] == 'l' && "linux"@.len() == 5,
{
    reveal_strlit("x86_64");
    reveal_strlit("aarch64");
    reveal_strlit("x86");
    reveal_strlit("x64");
    reveal_strlit("arm64");
    reveal_strlit("arm");
    reveal_strlit("ia32");
    reveal_strlit("macos");
    reveal_strlit("windows");
    reveal_strlit("linux");
    reveal_strlit("darwin");
    reveal_strlit("win32");
    reveal_strlit("!");
    reveal_strlit("!x64");
    assert("x86_64"@.len() == 6 && "aarch64"@.len() == 7 && "x86"@.len() == 3);
    assert("x64"@.len() == 3 && "arm64"@.len() == 5 && "ia32"@.len() == 4);
    assert("macos"@.len() == 5 && "windows"@.len() == 7 && "linux"@[0] == 'l' && "macos"@[0]
        == 'm');
    assert("arm"@[0] == 'a' && "x86"@[0] == 'x' && "x64"@[0] == 'x');
    assert("!"@ =~= seq!['!']);
    assert("!x64"@ =~= seq!['!', 'x', '6', '4']);
    assert("x64"@ =~= seq!['x', '6', '4']);
    assert("arm64"@ =~= seq!['a', 'r', 'm', '6', '4']);
    assert("ia32"@ =~= seq!['i', 'a', '3', '2']);
    assert("arm"@ =~= seq!['a', 'r', 'm']);
    assert("darwin"@[0] == 'd' && "win32"@[0] == 'w');
}

/// A list that names just one admits that one and no other.
proof fn lemma_names_one(list: Seq<Text>, name: Text)
    requires
        list == seq![name],
        name.len() > 0,
        name[0] != '!',
    ensures
        crate::lockfile::admits(list, name),
        forall|other: Text| other != name ==> !#[trigger] crate::lockfile::admits(list, other),
{
    reveal_strlit("!");
    assert(list[0] == name);
    assert(list.contains(name));
    assert(name.take(1)[0] == name[0]);
    assert(!crate::text::begins(name, "!"@));
    assert(!list.contains("!"@ + name)) by {
        if list.contains("!"@ + name) {
            assert(("!"@ + name).len() == name.len() + 1);
        }
    }
    assert(!crate::text::begins(list[0], "!"@));
}

proof fn lemma_installs(packages: Seq<LockedView>, i: int, os: Text, arch: Text)
    requires
        0 <= i < packages.len(),
        is_web_tarball(packages[i]),
    ensures
        crate::lockfile::installed_on(
            packages,
            crate::lockfile::npm_os(os),
            crate::lockfile::npm_cpu(arch),
        ).contains(packages[i]) <==> crate::lockfile::admits(
            packages[i].os,
            crate::lockfile::npm_os(os),
        ) && crate::lockfile::admits(packages[i].cpu, crate::lockfile::npm_cpu(arch)),
{
    let keep = |p: LockedView|
        crate::lockfile::is_installed_on(
            p,
            crate::lockfile::npm_os(os),
            crate::lockfile::npm_cpu(arch),
        );
    let list = packages.filter(keep);
    if keep(packages[i]) {
        packages.lemma_filter_contains(keep, i);
    } else if list.contains(packages[i]) {
        let k = choose|k: int| 0 <= k < list.len() && list[k] == packages[i];
        packages.lemma_filter_pred(keep, k);
    }
}

// ---------------------------------------------------------------------------
// Programs
// ---------------------------------------------------------------------------

/// Leading `./` say nothing, however many there are, and nothing else is dropped.
pub proof fn law_leading_dots_say_nothing(text: Text)
    ensures
        crate::lockfile::without_dot_slashes("./"@ + text) == crate::lockfile::without_dot_slashes(
            text,
        ),
        !crate::text::begins(text, "./"@) ==> crate::lockfile::without_dot_slashes(text) == text,
{
    reveal_strlit("./");
    assert(("./"@ + text).take(2) =~= "./"@);
    assert(("./"@ + text).skip(2) =~= text);
}

/// Program `j` of package `i` can be linked: the package is below `node_modules`, and the name is
/// one filename.
pub open spec fn is_program(packages: Seq<LockedView>, i: int, j: int) -> bool {
    &&& 0 <= i < packages.len()
    &&& 0 <= j < packages[i].bin.len()
    &&& crate::text::begins(packages[i].key, "node_modules/"@)
    &&& packages[i].bin[j].0.len() > 0
    &&& !packages[i].bin[j].0.contains('/')
    &&& packages[i].bin[j].0 != "."@
    &&& packages[i].bin[j].0 != ".."@
}

/// Where program `j` of package `i` stands below `node_modules`.
pub open spec fn program_path(packages: Seq<LockedView>, i: int, j: int) -> Text {
    packages[i].key.skip("node_modules/"@.len() as int) + "/"@
        + crate::lockfile::without_dot_slashes(packages[i].bin[j].1)
}

/// Program `j` of package `i` is the first of its name.
pub open spec fn is_first(packages: Seq<LockedView>, i: int, j: int) -> bool {
    forall|a: int, b: int|
        #![trigger packages[a].bin[b]]
        is_program(packages, a, b) && (a < i || a == i && b < j) ==> packages[a].bin[b].0
            != packages[i].bin[j].0
}

/// `link` is the one for program `j` of package `i`.
pub open spec fn links_to(
    node_modules: Text,
    packages: Seq<LockedView>,
    link: BinLinkView,
    i: int,
    j: int,
) -> bool {
    &&& link.name == packages[i].bin[j].0
    &&& link.rel == program_path(packages, i, j)
    &&& link.target == crate::path::joined_path(node_modules, link.rel)
}

/// `link` is to the first program of its name.
pub open spec fn is_program_link(
    node_modules: Text,
    packages: Seq<LockedView>,
    link: BinLinkView,
) -> bool {
    exists|i: int, j: int|
        #![trigger packages[i].bin[j]]
        is_program(packages, i, j) && is_first(packages, i, j) && links_to(
            node_modules,
            packages,
            link,
            i,
            j,
        )
}

/// Every program is linked: where the planning ends without a fault, the first program of each
/// name has its link, and every link is to such a program.
pub proof fn law_every_program_is_linked(node_modules: Text, packages: Seq<LockedView>)
    requires
        crate::lockfile::bins_of(node_modules, packages).fault is None,
    ensures
        ({
            let links = crate::lockfile::bins_of(node_modules, packages).links;
            &&& forall|i: int, j: int|
                #![trigger packages[i].bin[j]]
                is_program(packages, i, j) ==> exists|k: int|
                    0 <= k < links.len() && (#[trigger] links[k]).name == packages[i].bin[j].0
            &&& forall|k: int|
                0 <= k < links.len() ==> is_program_link(
                    node_modules,
                    packages,
                    #[trigger] links[k],
                )
        }),
{
    lemma_bins(node_modules, packages);
}

/// What is known of planned links: every program so far has a link of its name, and every link
/// is to the first program of its name.
spec fn are_linked(node_modules: Text, packages: Seq<LockedView>, links: Seq<BinLinkView>) -> bool {
    &&& forall|i: int, j: int|
        #![trigger packages[i].bin[j]]
        is_program(packages, i, j) ==> crate::lockfile::has_link(links, packages[i].bin[j].0)
    &&& forall|k: int|
        0 <= k < links.len() ==> is_program_link(node_modules, packages, #[trigger] links[k])
}

/// The packages before the last, and the first `n` programs of the last.
spec fn partly(packages: Seq<LockedView>, n: int) -> Seq<LockedView> {
    packages.drop_last().push(
        LockedView { bin: packages.last().bin.take(n), ..packages.last() },
    )
}

proof fn lemma_bins(node_modules: Text, packages: Seq<LockedView>)
    requires
        crate::lockfile::bins_of(node_modules, packages).fault is None,
    ensures
        are_linked(node_modules, packages, crate::lockfile::bins_of(node_modules, packages).links),
    decreases packages.len(),
{
    if packages.len() > 0 {
        let shorter = packages.drop_last();
        let earlier = crate::lockfile::bins_of(node_modules, shorter);
        let package = packages.last();
        if crate::text::begins(package.key, "node_modules/"@) {
            let base = package.key.skip("node_modules/"@.len() as int);
            lemma_fault_stays(node_modules, base, earlier, package.bin);
            lemma_bins(node_modules, shorter);
            lemma_nothing_more(node_modules, packages, earlier.links, 0);
            assert(package.bin.take(package.bin.len() as int) =~= package.bin);
            lemma_with_bins(node_modules, packages, earlier, package.bin.len() as int);
            assert(partly(packages, package.bin.len() as int) =~= packages);
        } else {
            lemma_bins(node_modules, shorter);
            lemma_nothing_more(node_modules, packages, earlier.links, package.bin.len() as int);
            assert(package.bin.take(package.bin.len() as int) =~= package.bin);
            assert(partly(packages, package.bin.len() as int) =~= packages);
        }
    }
}

/// A fault stays.
proof fn lemma_fault_stays(
    node_modules: Text,
    base: Text,
    bins: BinsView,
    list: Seq<(Text, Text)>,
)
    ensures
        bins.fault is Some ==> crate::lockfile::with_bins(node_modules, base, bins, list).fault
            is Some,
    decreases list.len(),
{
    if list.len() > 0 {
        lemma_fault_stays(node_modules, base, bins, list.drop_last());
    }
}

/// A package that offers nothing yet, or is not below `node_modules`, changes nothing.
proof fn lemma_nothing_more(
    node_modules: Text,
    packages: Seq<LockedView>,
    links: Seq<BinLinkView>,
    n: int,
)
    requires
        packages.len() > 0,
        are_linked(node_modules, packages.drop_last(), links),
        0 <= n <= packages.last().bin.len(),
        n == 0 || !crate::text::begins(packages.last().key, "node_modules/"@),
    ensures
        are_linked(node_modules, partly(packages, n), links),
{
    let before = packages.drop_last();
    let now = partly(packages, n);
    assert forall|i: int, j: int|
        #![trigger now[i].bin[j]]
        is_program(now, i, j) implies crate::lockfile::has_link(links, now[i].bin[j].0) by {
        assert(i < before.len());
        assert(now[i] == before[i]);
        assert(is_program(before, i, j));
        assert(before[i].bin[j] == now[i].bin[j]);
    }
    assert forall|k: int| 0 <= k < links.len() implies is_program_link(
        node_modules,
        now,
        #[trigger] links[k],
    ) by {
        assert(is_program_link(node_modules, before, links[k]));
        let (i, j) = choose|i: int, j: int|
            #![trigger before[i].bin[j]]
            is_program(before, i, j) && is_first(before, i, j) && links_to(
                node_modules,
                before,
                links[k],
                i,
                j,
            );
        lemma_first_stays(packages, n, i, j);
        assert(now[i].bin[j] == before[i].bin[j]);
    }
}

/// The first program of a name among the earlier packages is so among all.
proof fn lemma_first_stays(packages: Seq<LockedView>, n: int, i: int, j: int)
    requires
        packages.len() > 0,
        is_program(packages.drop_last(), i, j),
        is_first(packages.drop_last(), i, j),
    ensures
        is_program(partly(packages, n), i, j),
        is_first(partly(packages, n), i, j),
        program_path(partly(packages, n), i, j) == program_path(packages.drop_last(), i, j),
{
    let before = packages.drop_last();
    let now = partly(packages, n);
    assert(now[i] == before[i]);
    assert forall|a: int, b: int|
        #![trigger now[a].bin[b]]
        is_program(now, a, b) && (a < i || a == i && b < j) implies now[a].bin[b].0
        != now[i].bin[j].0 by {
        assert(now[a] == before[a]);
        assert(is_program(before, a, b));
        assert(before[a].bin[b] == now[a].bin[b]);
    }
}

proof fn lemma_with_bins(
    node_modules: Text,
    packages: Seq<LockedView>,
    bins: BinsView,
    n: int,
)
    requires
        packages.len() > 0,
        crate::text::begins(packages.last().key, "node_modules/"@),
        0 <= n <= packages.last().bin.len(),
        bins.fault is None,
        are_linked(node_modules, partly(packages, 0), bins.links),
        crate::lockfile::with_bins(
            node_modules,
            packages.last().key.skip("node_modules/"@.len() as int),
            bins,
            packages.last().bin.take(n),
        ).fault is None,
    ensures
        are_linked(
            node_modules,
            partly(packages, n),
            crate::lockfile::with_bins(
                node_modules,
                packages.last().key.skip("node_modules/"@.len() as int),
                bins,
                packages.last().bin.take(n),
            ).links,
        ),
    decreases n,
{
    let base = packages.last().key.skip("node_modules/"@.len() as int);
    let list = packages.last().bin.take(n);
    let now = crate::lockfile::with_bins(node_modules, base, bins, list);
    if n == 0 {
        assert(list.len() == 0);
    } else {
        let shorter = packages.last().bin.take(n - 1);
        assert(list.drop_last() =~= shorter);
        let earlier = crate::lockfile::with_bins(node_modules, base, bins, shorter);
        assert(earlier.fault is None);
        lemma_with_bins(node_modules, packages, bins, n - 1);
        let before = partly(packages, n - 1);
        let after = partly(packages, n);
        let last = packages.len() - 1;
        let bin = packages.last().bin[n - 1];
        assert(list.last() == bin);
        assert(after[last].bin[n - 1] == bin);
        assert forall|i: int, j: int|
            #![trigger after[i].bin[j]]
            is_program(after, i, j) implies crate::lockfile::has_link(
            now.links,
            after[i].bin[j].0,
        ) by {
            if i == last && j == n - 1 {
                if !crate::lockfile::has_link(earlier.links, bin.0) {
                    assert(now.links[earlier.links.len() as int].name == bin.0);
                }
            } else {
                assert(after[i].bin[j] == before[i].bin[j]);
                assert(is_program(before, i, j));
                assert(crate::lockfile::has_link(earlier.links, before[i].bin[j].0));
                let k = choose|k: int|
                    0 <= k < earlier.links.len() && (#[trigger] earlier.links[k]).name
                        == before[i].bin[j].0;
                assert(now.links[k] == earlier.links[k]);
            }
        }
        assert forall|k: int| 0 <= k < now.links.len() implies is_program_link(
            node_modules,
            after,
            #[trigger] now.links[k],
        ) by {
            if k < earlier.links.len() {
                assert(now.links[k] == earlier.links[k]);
                assert(is_program_link(node_modules, before, earlier.links[k]));
                let (i, j) = choose|i: int, j: int|
                    #![trigger before[i].bin[j]]
                    is_program(before, i, j) && is_first(before, i, j) && links_to(
                        node_modules,
                        before,
                        earlier.links[k],
                        i,
                        j,
                    );
                lemma_first_stays_in_package(packages, n, i, j);
                assert(after[i].bin[j] == before[i].bin[j]);
                assert(links_to(node_modules, after, now.links[k], i, j));
            } else {
                assert(is_program(after, last, n - 1));
                assert forall|a: int, b: int|
                    #![trigger after[a].bin[b]]
                    is_program(after, a, b) && (a < last || a == last && b < n - 1) implies
                    after[a].bin[b].0 != after[last].bin[n - 1].0 by {
                    assert(after[a].bin[b] == before[a].bin[b]);
                    assert(is_program(before, a, b));
                    assert(crate::lockfile::has_link(earlier.links, before[a].bin[b].0));
                }
                assert(is_first(after, last, n - 1));
                assert(links_to(node_modules, after, now.links[k], last, n - 1));
            }
        }
    }
}

proof fn lemma_first_stays_in_package(packages: Seq<LockedView>, n: int, i: int, j: int)
    requires
        packages.len() > 0,
        0 < n <= packages.last().bin.len(),
        is_program(partly(packages, n - 1), i, j),
        is_first(partly(packages, n - 1), i, j),
    ensures
        is_program(partly(packages, n), i, j),
        is_first(partly(packages, n), i, j),
        program_path(partly(packages, n), i, j) == program_path(partly(packages, n - 1), i, j),
{
    let before = partly(packages, n - 1);
    let after = partly(packages, n);
    assert(after[i].bin[j] == before[i].bin[j]);
    assert(after[i].key == before[i].key);
    assert forall|a: int, b: int|
        #![trigger after[a].bin[b]]
        is_program(after, a, b) && (a < i || a == i && b < j) implies after[a].bin[b].0
        != after[i].bin[j].0 by {
        assert(after[a].bin[b] == before[a].bin[b]);
        assert(is_program(before, a, b));
    }
}

/// Only a program that would stand outside `node_modules` ends the planning.
pub proof fn law_only_programs_outside_end_the_planning(
    node_modules: Text,
    packages: Seq<LockedView>,
)
    requires
        forall|i: int, j: int|
            #![trigger packages[i].bin[j]]
            is_program(packages, i, j) ==> crate::path::is_contained(program_path(packages, i, j)),
    ensures
        crate::lockfile::bins_of(node_modules, packages).fault is None,
    decreases packages.len(),
{
    if packages.len() > 0 {
        let shorter = packages.drop_last();
        assert forall|i: int, j: int|
            #![trigger shorter[i].bin[j]]
            is_program(shorter, i, j) implies crate::path::is_contained(
            program_path(shorter, i, j),
        ) by {
            assert(shorter[i] == packages[i]);
            assert(packages[i].bin[j] == shorter[i].bin[j]);
            assert(is_program(packages, i, j));
        }
        law_only_programs_outside_end_the_planning(node_modules, shorter);
        if crate::text::begins(packages.last().key, "node_modules/"@) {
            lemma_no_fault(
                node_modules,
                packages,
                crate::lockfile::bins_of(node_modules, shorter),
                packages.last().bin.len() as int,
            );
            assert(packages.last().bin.take(packages.last().bin.len() as int)
                =~= packages.last().bin);
        }
    }
}

proof fn lemma_no_fault(node_modules: Text, packages: Seq<LockedView>, bins: BinsView, n: int)
    requires
        packages.len() > 0,
        crate::text::begins(packages.last().key, "node_modules/"@),
        0 <= n <= packages.last().bin.len(),
        bins.fault is None,
        forall|i: int, j: int|
            #![trigger packages[i].bin[j]]
            is_program(packages, i, j) ==> crate::path::is_contained(program_path(packages, i, j)),
    ensures
        crate::lockfile::with_bins(
            node_modules,
            packages.last().key.skip("node_modules/"@.len() as int),
            bins,
            packages.last().bin.take(n),
        ).fault is None,
    decreases n,
{
    if n > 0 {
        lemma_no_fault(node_modules, packages, bins, n - 1);
        let list = packages.last().bin.take(n);
        assert(list.drop_last() =~= packages.last().bin.take(n - 1));
        assert(list.last() == packages[packages.len() - 1].bin[n - 1]);
    }
}

// ---------------------------------------------------------------------------
// Links to directories of the project
// ---------------------------------------------------------------------------

/// The way up is `../` as often as there are steps.
pub proof fn law_ways_up(n: int, k: int)
    requires
        0 <= k < n,
    ensures
        crate::lockfile::climb(n).len() == 3 * n,
        crate::lockfile::climb(n).subrange(3 * k, 3 * k + 3) == "../"@,
        crate::lockfile::climb(0).len() == 0,
    decreases n,
{
    reveal_strlit("../");
    let way = crate::lockfile::climb(n);
    let shorter = crate::lockfile::climb(n - 1);
    lemma_way_len(n - 1);
    if k < n - 1 {
        law_ways_up(n - 1, k);
        assert(way.subrange(3 * k, 3 * k + 3) =~= shorter.subrange(3 * k, 3 * k + 3));
    } else {
        assert(way.subrange(3 * k, 3 * k + 3) =~= "../"@);
    }
}

proof fn lemma_way_len(n: int)
    requires
        0 <= n,
    ensures
        crate::lockfile::climb(n).len() == 3 * n,
    decreases n,
{
    reveal_strlit("../");
    if n > 0 {
        lemma_way_len(n - 1);
    }
}

/// A link is as many directories below the project as its path has names before the last.
pub proof fn law_depths_count_names(key: Text)
    ensures
        crate::lockfile::depth(key) == crate::text::pieces(key, "/"@).filter(
            |piece: Text| piece.len() > 0,
        ).len() - 1,
{
    lemma_nonempty_counts(crate::text::pieces(key, "/"@));
}

proof fn lemma_nonempty_counts(pieces: Seq<Text>)
    ensures
        crate::lockfile::nonempty(pieces) == pieces.filter(|piece: Text| piece.len() > 0).len(),
    decreases pieces.len(),
{
    reveal(Seq::filter);
    if pieces.len() > 0 {
        lemma_nonempty_counts(pieces.drop_last());
    }
}

/// The directory that a link leads to: what it names, without a `file:` in front.
pub proof fn law_link_targets(target: Text)
    ensures
        crate::lockfile::link_target("file:"@ + target) == crate::lockfile::without_dot_slashes(
            target,
        ),
        !crate::text::begins(target, "file:"@) ==> crate::lockfile::link_target(target)
            == crate::lockfile::without_dot_slashes(target),
{
    reveal_strlit("file:");
    assert(("file:"@ + target).take(5) =~= "file:"@);
    assert(("file:"@ + target).skip(5) =~= target);
}

/// Every link is made or warned of: where the planning ends without a fault, each entry with a
/// target inside the project has its link, from its place up to the project and down to the
/// target, in order; and each other one has its warning.
pub proof fn law_every_local_link_is_made_or_warned_of(dest: Text, packages: Seq<LockedView>)
    requires
        crate::lockfile::locals_of(dest, packages).fault is None,
    ensures
        ({
            let locals = crate::lockfile::locals_of(dest, packages);
            &&& locals.links == packages.filter_map(
                |p: LockedView|
                    match p.resolved {
                        Some(resolved) => if crate::path::is_contained(
                            crate::lockfile::link_target(resolved),
                        ) {
                            Some(
                                (
                                    crate::path::joined_path(dest, p.key),
                                    crate::lockfile::climb(crate::lockfile::depth(p.key))
                                        + crate::lockfile::link_target(resolved),
                                ),
                            )
                        } else {
                            None
                        },
                        None => None,
                    },
            )
            &&& locals.links.len() + locals.warnings.len() == packages.len()
        }),
    decreases packages.len(),
{
    if packages.len() > 0 {
        law_every_local_link_is_made_or_warned_of(dest, packages.drop_last());
    }
}

/// Only a link that would itself stand outside the project ends the planning.
pub proof fn law_only_links_outside_end_the_planning(dest: Text, packages: Seq<LockedView>)
    requires
        forall|i: int|
            0 <= i < packages.len() ==> crate::path::is_contained((#[trigger] packages[i]).key),
    ensures
        crate::lockfile::locals_of(dest, packages).fault is None,
    decreases packages.len(),
{
    if packages.len() > 0 {
        let shorter = packages.drop_last();
        assert forall|i: int| 0 <= i < shorter.len() implies crate::path::is_contained(
            (#[trigger] shorter[i]).key,
        ) by {
            assert(shorter[i] == packages[i]);
        }
        law_only_links_outside_end_the_planning(dest, shorter);
        assert(crate::path::is_contained(packages[packages.len() - 1].key));
    }
}

// ---------------------------------------------------------------------------
// Entries
// ---------------------------------------------------------------------------

/// The text of a member that has one; empty otherwise.
pub open spec fn text_or_empty(meta: JsonView, key: Text) -> Text {
    match crate::json::member(meta, key) {
        Some(JsonView::Text(text)) => text,
        _ => Seq::empty(),
    }
}

/// The strings of the array at `key`, in order.
pub open spec fn strings_at(meta: JsonView, key: Text) -> Seq<Text> {
    match crate::json::member(meta, key) {
        Some(JsonView::Array(items)) => items.filter_map(
            |d: JsonView|
                match d {
                    JsonView::Text(t) => Some(t),
                    _ => None,
                },
        ),
        _ => Seq::empty(),
    }
}

/// An entry says what its members say: texts, flags, and the systems and processors in order.
pub proof fn law_entries_say_what_their_members_say(key: Text, meta: JsonView)
    ensures
        ({
            let e = crate::lockfile::entry(key, meta);
            let yes = Some(JsonView::Bool(true));
            &&& e.key == key
            &&& crate::json::member(meta, "name"@) matches Some(JsonView::Text(name)) ==> e.name
                == name
            &&& e.version == text_or_empty(meta, "version"@)
            &&& crate::registry::says(crate::json::member(meta, "resolved"@), e.resolved)
            &&& crate::registry::says(crate::json::member(meta, "integrity"@), e.integrity)
            &&& e.license == crate::registry::declared_license(meta)
            &&& e.dev <==> crate::json::member(meta, "dev"@) == yes
            &&& e.optional <==> crate::json::member(meta, "optional"@) == yes
            &&& e.dev_optional <==> crate::json::member(meta, "devOptional"@) == yes
            &&& e.link <==> crate::json::member(meta, "link"@) == yes
            &&& e.os == strings_at(meta, "os"@)
            &&& e.cpu == strings_at(meta, "cpu"@)
        }),
{
    if let Some(JsonView::Array(items)) = crate::json::member(meta, "os"@) {
        crate::json::law_strings_are_the_texts(items);
    }
    if let Some(JsonView::Array(items)) = crate::json::member(meta, "cpu"@) {
        crate::json::law_strings_are_the_texts(items);
    }
}

/// An entry without a name of its own goes by what stands behind the last `node_modules/` of its
/// path.
pub proof fn law_entries_go_by_their_path(key: Text, meta: JsonView)
    requires
        !(crate::json::member(meta, "name"@) matches Some(JsonView::Text(_))),
    ensures
        ({
            let name = crate::lockfile::entry(key, meta).name;
            &&& crate::text::first_occurrence(name, "node_modules/"@) is None
            &&& name == key || crate::dependency::ends(key, "node_modules/"@ + name)
        }),
{
    reveal_strlit("node_modules/");
    let separator = "node_modules/"@;
    let all = crate::text::pieces(key, separator);
    crate::text::law_pieces_join_back(key, separator);
    let name = all.last();
    assert(crate::text::first_occurrence(all[all.len() - 1], separator) is None);
    if all.len() == 1 {
        assert(crate::text::joined(all, separator) == all[0]);
    } else {
        let head = all.drop_last();
        assert(key == crate::text::joined(head, separator) + separator + name);
        let tail = separator + name;
        assert(key.skip(key.len() - tail.len()) =~= tail);
    }
}

/// The programs of an entry are the texts of its table, in order; one text alone is the program
/// that goes by the package's name without its scope.
pub proof fn law_entries_list_their_programs(key: Text, meta: JsonView)
    ensures
        ({
            let e = crate::lockfile::entry(key, meta);
            match crate::json::member(meta, "bin"@) {
                Some(JsonView::Object(table)) => e.bin == table.filter_map(
                    |m: (Text, JsonView)|
                        match m.1 {
                            JsonView::Text(path) => Some((m.0, path)),
                            _ => None,
                        },
                ),
                Some(JsonView::Text(path)) => e.bin == seq![
                    (crate::text::after_last(e.name, '/'), path),
                ],
                _ => e.bin.len() == 0,
            }
        }),
{
    if let Some(JsonView::Object(table)) = crate::json::member(meta, "bin"@) {
        lemma_text_pairs(table);
    }
}

proof fn lemma_text_pairs(table: Seq<(Text, JsonView)>)
    ensures
        crate::lockfile::text_pairs(table) == table.filter_map(
            |m: (Text, JsonView)|
                match m.1 {
                    JsonView::Text(path) => Some((m.0, path)),
                    _ => None,
                },
        ),
    decreases table.len(),
{
    if table.len() > 0 {
        lemma_text_pairs(table.drop_last());
    }
}

/// Every member of `packages` is an entry of the lockfile, but for the project itself at the
/// empty key and for a key that stood there before; there are no other entries.
pub proof fn law_every_member_is_an_entry(doc: JsonView, table: Seq<(Text, JsonView)>)
    requires
        crate::json::member(doc, "packages"@) == Some(JsonView::Object(table)),
    ensures
        crate::lockfile::lockfile_entries(doc) matches Ok(list) && (forall|i: int|
            0 <= i < table.len() && table[i].0.len() > 0 && (forall|j: int|
                0 <= j < i ==> (#[trigger] table[j]).0 != table[i].0) ==> list.contains(
                crate::lockfile::entry((#[trigger] table[i]).0, table[i].1),
            )) && (forall|k: int|
            0 <= k < list.len() ==> exists|i: int|
                0 <= i < table.len() && table[i].0.len() > 0 && #[trigger] list[k]
                    == crate::lockfile::entry((#[trigger] table[i]).0, table[i].1)),
{
    let read = crate::lockfile::entries(table);
    let list = crate::lockfile::by_path(read);
    lemma_entries(table);
    crate::lockfile::law_sorting_entries_permutes(read);
    assert forall|i: int|
        0 <= i < table.len() && table[i].0.len() > 0 && (forall|j: int|
            0 <= j < i ==> (#[trigger] table[j]).0 != table[i].0) implies list.contains(
        crate::lockfile::entry((#[trigger] table[i]).0, table[i].1),
    ) by {
        let e = crate::lockfile::entry(table[i].0, table[i].1);
        assert(read.contains(e));
        read.to_multiset_ensures();
        list.to_multiset_ensures();
        assert(read.to_multiset().count(e) > 0);
        assert(list.to_multiset().count(e) > 0);
    }
    assert forall|k: int| 0 <= k < list.len() implies exists|i: int|
        0 <= i < table.len() && table[i].0.len() > 0 && #[trigger] list[k]
            == crate::lockfile::entry((#[trigger] table[i]).0, table[i].1) by {
        read.to_multiset_ensures();
        list.to_multiset_ensures();
        assert(list.contains(list[k]));
        assert(list.to_multiset().count(list[k]) > 0);
        assert(read.to_multiset().count(list[k]) > 0);
        assert(read.contains(list[k]));
        let m = choose|m: int| 0 <= m < read.len() && read[m] == list[k];
        assert(is_member_entry(table, read[m]));
    }
}

/// `e` is the entry of one of the members.
spec fn is_member_entry(table: Seq<(Text, JsonView)>, e: LockedView) -> bool {
    exists|i: int|
        0 <= i < table.len() && table[i].0.len() > 0 && e == crate::lockfile::entry(
            (#[trigger] table[i]).0,
            table[i].1,
        )
}

proof fn lemma_entries(table: Seq<(Text, JsonView)>)
    ensures
        ({
            let read = crate::lockfile::entries(table);
            &&& forall|i: int|
                0 <= i < table.len() && table[i].0.len() > 0 && (forall|j: int|
                    0 <= j < i ==> (#[trigger] table[j]).0 != table[i].0) ==> read.contains(
                    crate::lockfile::entry((#[trigger] table[i]).0, table[i].1),
                )
            &&& forall|k: int| 0 <= k < read.len() ==> is_member_entry(table, #[trigger] read[k])
        }),
    decreases table.len(),
{
    if table.len() > 0 {
        let shorter = table.drop_last();
        lemma_entries(shorter);
        let earlier = crate::lockfile::entries(shorter);
        let read = crate::lockfile::entries(table);
        assert forall|k: int| 0 <= k < read.len() implies is_member_entry(
            table,
            #[trigger] read[k],
        ) by {
            if k < earlier.len() {
                assert(read[k] == earlier[k]);
                assert(is_member_entry(shorter, earlier[k]));
                let i = choose|i: int|
                    0 <= i < shorter.len() && shorter[i].0.len() > 0 && earlier[k]
                        == crate::lockfile::entry((#[trigger] shorter[i]).0, shorter[i].1);
                assert(table[i] == shorter[i]);
            } else {
                assert(table[table.len() - 1] == table.last());
            }
        }
        assert forall|i: int|
            0 <= i < table.len() && table[i].0.len() > 0 && (forall|j: int|
                0 <= j < i ==> (#[trigger] table[j]).0 != table[i].0) implies read.contains(
            crate::lockfile::entry((#[trigger] table[i]).0, table[i].1),
        ) by {
            let e = crate::lockfile::entry(table[i].0, table[i].1);
            if i < shorter.len() {
                assert(shorter[i] == table[i]);
                assert forall|j: int| 0 <= j < i implies (#[trigger] shorter[j]).0
                    != shorter[i].0 by {
                    assert(shorter[j] == table[j]);
                }
                assert(earlier.contains(e));
                let k = choose|k: int| 0 <= k < earlier.len() && earlier[k] == e;
                assert(read[k] == e);
            } else {
                assert(!crate::lockfile::has_entry(earlier, table[i].0)) by {
                    if crate::lockfile::has_entry(earlier, table[i].0) {
                        let k = choose|k: int|
                            0 <= k < earlier.len() && (#[trigger] earlier[k]).key == table[i].0;
                        assert(is_member_entry(shorter, earlier[k]));
                        let m = choose|m: int|
                            0 <= m < shorter.len() && shorter[m].0.len() > 0 && earlier[k]
                                == crate::lockfile::entry((#[trigger] shorter[m]).0, shorter[m].1);
                        assert(table[m] == shorter[m]);
                    }
                }
                assert(read[read.len() - 1] == e);
            }
        }
    }
}

/// A document without a table of packages is no lockfile that can be read.
pub proof fn law_lockfiles_need_packages(doc: JsonView)
    ensures
        crate::lockfile::lockfile_entries(doc) is Ok <==> crate::json::member(doc, "packages"@)
            matches Some(JsonView::Object(_)),
{
}

// ---------------------------------------------------------------------------
// Installing
// ---------------------------------------------------------------------------

/// What landed is what was fetched: without a fault, the packages whose fetch came out well, and
/// no others; and every other one is optional.
pub proof fn law_what_was_fetched_landed(
    dest: Text,
    packages: Seq<LockedView>,
    outcomes: Seq<Result<(), String>>,
    n: int,
    i: int,
)
    requires
        0 <= i < n <= packages.len(),
        crate::lockfile::installed_after(dest, packages, outcomes, n).fault is None,
    ensures
        crate::lockfile::installed_after(dest, packages, outcomes, n).landed.contains(i)
            <==> outcomes[i] is Ok,
        outcomes[i] is Err ==> packages[i].optional || packages[i].dev_optional,
        crate::path::is_contained(packages[i].key),
    decreases n,
{
    let earlier = crate::lockfile::installed_after(dest, packages, outcomes, n - 1);
    let now = crate::lockfile::installed_after(dest, packages, outcomes, n);
    if i < n - 1 {
        law_what_was_fetched_landed(dest, packages, outcomes, n - 1, i);
        if earlier.landed.contains(i) {
            let k = choose|k: int| 0 <= k < earlier.landed.len() && earlier.landed[k] == i;
            assert(now.landed[k] == i);
        }
        if now.landed.contains(i) {
            let k = choose|k: int| 0 <= k < now.landed.len() && now.landed[k] == i;
            assert(earlier.landed[k] == i);
        }
    } else {
        crate::lockfile::lemma_landed_ascend(dest, packages, outcomes, n - 1);
        if outcomes[i] is Ok {
            assert(now.landed[earlier.landed.len() as int] == i);
        } else {
            assert(now.landed == earlier.landed);
        }
    }
}

/// An install fails only for a reason: a required package whose fetch failed, with what it failed
/// with, or a package that would land outside.
pub proof fn law_installs_fail_for_a_reason(
    dest: Text,
    packages: Seq<LockedView>,
    outcomes: Seq<Result<(), String>>,
    n: int,
)
    requires
        0 <= n <= packages.len(),
        crate::lockfile::installed_after(dest, packages, outcomes, n).fault is Some,
    ensures
        exists|i: int|
            #![trigger packages[i]]
            0 <= i < n && (!crate::path::is_contained(packages[i].key) || (outcomes[i] matches Err(
                cause,
            ) && !packages[i].optional && !packages[i].dev_optional
                && crate::lockfile::installed_after(dest, packages, outcomes, n).fault == Some(
                cause@,
            ))),
    decreases n,
{
    if n > 0 {
        let earlier = crate::lockfile::installed_after(dest, packages, outcomes, n - 1);
        if earlier.fault is Some {
            law_installs_fail_for_a_reason(dest, packages, outcomes, n - 1);
        } else {
            assert(packages[n - 1] == packages[n - 1]);
        }
    }
}

/// Whatever an install asks for, it is about the next package: its name, its own address and
/// integrity, and its place below the project.
pub proof fn law_fetches_are_of_the_next_package(v: crate::lockfile::InstallView)
    ensures
        ({
            let k = v.outcomes.len() as int;
            crate::lockfile::next_action(v) matches crate::lockfile::InstallActionView::Fetch {
                name,
                url,
                integrity,
                dir,
            } ==> k < v.packages.len() && name == v.packages[k].name && integrity
                == v.packages[k].integrity && dir == crate::path::joined_path(
                v.dest,
                v.packages[k].key,
            ) && crate::path::is_contained(v.packages[k].key) && (match v.packages[k].resolved {
                Some(address) => url == address,
                None => url.len() == 0,
            })
        }),
{
}

/// An install that nothing ended goes on until every package was fetched.
pub proof fn law_installs_go_on_to_the_end(v: crate::lockfile::InstallView)
    requires
        v.placed is None,
        crate::lockfile::so_far(v).fault is None,
        crate::lockfile::next_action(v) is Done,
    ensures
        v.outcomes.len() >= v.packages.len() || !crate::path::is_contained(
            v.packages[v.outcomes.len() as int].key,
        ),
{
}

/// An install that came through reports each package that landed, in order, with its name,
/// version, address and integrity; its programs and the links are planned from these.
pub proof fn law_installs_report_what_landed(
    dest: Text,
    packages: Seq<LockedView>,
    links: Seq<LockedView>,
    installed: crate::lockfile::InstalledView,
)
    requires
        crate::lockfile::fresh_install(dest, packages, links, installed).result is Ok,
    ensures
        ({
            let done = crate::lockfile::fresh_install(dest, packages, links, installed);
            let landed = installed.landed.map_values(|k: int| packages[k]);
            &&& installed.fault is None
            &&& reports(done.result->Ok_0, landed)
            &&& done.landed == landed.map_values(|p: LockedView| p.key)
            &&& done.bins == crate::lockfile::bins_of(
                crate::path::joined_path(dest, "node_modules"@),
                landed,
            ).links
            &&& done.locals == crate::lockfile::locals_of(dest, links).links
            &&& done.warnings == crate::lockfile::locals_of(dest, links).warnings
        }),
{
    let landed = installed.landed.map_values(|k: int| packages[k]);
    assert(crate::lockfile::picked(packages, installed.landed) =~= landed);
    assert(crate::lockfile::paths_of(landed) =~= landed.map_values(|p: LockedView| p.key));
    lemma_reports(landed);
}

/// A failed install says why: what ended the fetching, else what ended the planning of programs or
/// of links, and what was planned until then stays planned.
pub proof fn law_failed_installs_say_why(
    dest: Text,
    packages: Seq<LockedView>,
    links: Seq<LockedView>,
    installed: crate::lockfile::InstalledView,
)
    ensures
        ({
            let done = crate::lockfile::fresh_install(dest, packages, links, installed);
            let landed = installed.landed.map_values(|k: int| packages[k]);
            let bins = crate::lockfile::bins_of(
                crate::path::joined_path(dest, "node_modules"@),
                landed,
            );
            let locals = crate::lockfile::locals_of(dest, links);
            &&& done.landed == landed.map_values(|p: LockedView| p.key)
            &&& match (installed.fault, bins.fault, locals.fault) {
                (Some(fault), _, _) => done.result == Err::<
                    Seq<crate::registry::ResolvedView>,
                    Text,
                >(fault) && done.bins.len() == 0 && done.locals.len() == 0,
                (None, Some(fault), _) => done.result == Err::<
                    Seq<crate::registry::ResolvedView>,
                    Text,
                >(fault) && done.bins == bins.links && done.locals.len() == 0,
                (None, None, Some(fault)) => done.result == Err::<
                    Seq<crate::registry::ResolvedView>,
                    Text,
                >(fault) && done.bins == bins.links && done.locals == locals.links,
                (None, None, None) => done.result == crate::lockfile::all_installed(landed),
            }
        }),
{
    let landed = installed.landed.map_values(|k: int| packages[k]);
    assert(crate::lockfile::picked(packages, installed.landed) =~= landed);
    assert(crate::lockfile::paths_of(landed) =~= landed.map_values(|p: LockedView| p.key));
}

/// `list` are `packages`, in order: each with its name, version, address and integrity.
pub open spec fn reports(
    list: Seq<crate::registry::ResolvedView>,
    packages: Seq<LockedView>,
) -> bool {
    &&& list.len() == packages.len()
    &&& forall|i: int|
        0 <= i < list.len() ==> {
            let r = #[trigger] list[i];
            &&& r.name == packages[i].name
            &&& r.version == packages[i].version
            &&& r.integrity == packages[i].integrity
            &&& match packages[i].resolved {
                Some(address) => r.tarball_url == address,
                None => r.tarball_url.len() == 0,
            }
        }
}

proof fn lemma_reports(packages: Seq<LockedView>)
    ensures
        crate::lockfile::all_installed(packages) matches Ok(list) ==> reports(list, packages),
    decreases packages.len(),
{
    if packages.len() > 0 {
        lemma_reports(packages.drop_last());
    }
}

/// `message` says that the version of `package` is none, and why.
pub open spec fn is_told_of(package: LockedView, message: Text) -> bool {
    crate::version::version_fault(package.version) matches Some(cause) && message == "package `"@
        + package.name + "`: invalid version "@ + crate::text::quotation(package.version) + ": "@
        + cause
}

/// Packages are reported exactly where each of their versions is one; otherwise the first that is
/// none is what is said.
pub proof fn law_reports_need_versions(packages: Seq<LockedView>)
    ensures
        crate::lockfile::all_installed(packages) is Ok <==> forall|i: int|
            0 <= i < packages.len() ==> crate::version::is_version(
                (#[trigger] packages[i]).version,
            ),
        crate::lockfile::all_installed(packages) matches Err(message) ==> exists|i: int|
            0 <= i < packages.len() && is_told_of(#[trigger] packages[i], message) && (forall|
                j: int,
            |
                0 <= j < i ==> crate::version::is_version((#[trigger] packages[j]).version)),
    decreases packages.len(),
{
    if packages.len() > 0 {
        let shorter = packages.drop_last();
        law_reports_need_versions(shorter);
        if let Err(message) = crate::lockfile::all_installed(shorter) {
            let i = choose|i: int|
                0 <= i < shorter.len() && is_told_of(#[trigger] shorter[i], message) && (forall|
                    j: int,
                |
                    0 <= j < i ==> crate::version::is_version((#[trigger] shorter[j]).version));
            assert(is_told_of(packages[i], message));
            assert forall|j: int| 0 <= j < i implies crate::version::is_version(
                (#[trigger] packages[j]).version,
            ) by {
                assert(shorter[j] == packages[j]);
            }
        } else if let Err(message) = crate::lockfile::all_installed(packages) {
            assert(is_told_of(packages[packages.len() - 1], message));
            assert forall|j: int| 0 <= j < shorter.len() implies crate::version::is_version(
                (#[trigger] packages[j]).version,
            ) by {
                assert(shorter[j] == packages[j]);
            }
        }
        if crate::lockfile::all_installed(packages) is Ok {
            assert forall|i: int| 0 <= i < packages.len() implies crate::version::is_version(
                (#[trigger] packages[i]).version,
            ) by {
                if i < shorter.len() {
                    assert(shorter[i] == packages[i]);
                }
            }
        } else if forall|i: int|
            0 <= i < packages.len() ==> crate::version::is_version(
                (#[trigger] packages[i]).version,
            ) {
            assert forall|i: int| 0 <= i < shorter.len() implies crate::version::is_version(
                (#[trigger] shorter[i]).version,
            ) by {
                assert(shorter[i] == packages[i]);
            }
            assert(crate::version::is_version(packages[packages.len() - 1].version));
        }
    }
}

/// What is in place is what stands at one of the paths, in order.
pub proof fn law_placed_packages_go_by_their_paths(packages: Seq<LockedView>, paths: Seq<Text>)
    ensures
        crate::lockfile::placed_at(packages, paths) == packages.filter(
            |p: LockedView| paths.contains(p.key),
        ),
        ({
            let done = crate::lockfile::unchanged_install(packages, paths);
            let placed = packages.filter(|p: LockedView| paths.contains(p.key));
            &&& done.landed == placed.map_values(|p: LockedView| p.key)
            &&& done.result matches Ok(list) ==> reports(list, placed)
            &&& done.bins.len() == 0 && done.locals.len() == 0 && done.warnings.len() == 0
        }),
{
    lemma_placed(packages, paths);
    let placed = crate::lockfile::placed_at(packages, paths);
    lemma_reports(placed);
    assert(crate::lockfile::paths_of(placed) =~= placed.map_values(|p: LockedView| p.key));
}

proof fn lemma_placed(packages: Seq<LockedView>, paths: Seq<Text>)
    ensures
        crate::lockfile::placed_at(packages, paths) == packages.filter(
            |p: LockedView| paths.contains(p.key),
        ),
    decreases packages.len(),
{
    reveal(Seq::filter);
    if packages.len() > 0 {
        lemma_placed(packages.drop_last(), paths);
    }
}

/// Only hosts that a tarball comes from are warned of, each by its own name.
pub proof fn law_warnings_name_a_host(packages: Seq<LockedView>, k: int)
    requires
        0 <= k < crate::lockfile::host_warnings(packages).len(),
    ensures
        exists|i: int|
            0 <= i < packages.len() && crate::lockfile::host_warnings(packages)[k]
                == "lockfile fetches tarballs from `"@ + crate::common::host(
                crate::lockfile::or_empty((#[trigger] packages[i]).resolved),
            ) + "`, not registry.npmjs.org"@,
{
    lemma_hosts(packages, k);
}

proof fn lemma_hosts(packages: Seq<LockedView>, k: int)
    requires
        0 <= k < crate::lockfile::other_hosts(packages).len(),
    ensures
        exists|i: int|
            0 <= i < packages.len() && crate::lockfile::other_hosts(packages)[k]
                == crate::common::host(
                crate::lockfile::or_empty((#[trigger] packages[i]).resolved),
            ),
    decreases packages.len(),
{
    let shorter = packages.drop_last();
    let earlier = crate::lockfile::other_hosts(shorter);
    if k < earlier.len() {
        lemma_hosts(shorter, k);
        let i = choose|i: int|
            0 <= i < shorter.len() && earlier[k] == crate::common::host(
                crate::lockfile::or_empty((#[trigger] shorter[i]).resolved),
            );
        assert(packages[i] == shorter[i]);
    } else {
        assert(packages[packages.len() - 1] == packages.last());
    }
}

/// The values of lists hold the value of every item, in order.
pub proof fn law_lists_hold_every_item(
    pairs: Seq<(String, String)>,
    entries: Seq<crate::lockfile::LockedPackage>,
    bins: Seq<crate::lockfile::BinLink>,
    locals: Seq<crate::lockfile::LocalLink>,
    i: int,
)
    ensures
        crate::lockfile::pair_views(pairs).len() == pairs.len(),
        0 <= i < pairs.len() ==> crate::lockfile::pair_views(pairs)[i] == (
            pairs[i].0@,
            pairs[i].1@,
        ),
        crate::lockfile::locked_views(entries).len() == entries.len(),
        0 <= i < entries.len() ==> crate::lockfile::locked_views(entries)[i] == entries[i]@,
        crate::lockfile::bin_views(bins).len() == bins.len(),
        0 <= i < bins.len() ==> crate::lockfile::bin_views(bins)[i] == bins[i]@,
        crate::lockfile::local_views(locals).len() == locals.len(),
        0 <= i < locals.len() ==> crate::lockfile::local_views(locals)[i] == (
            locals[i].path@,
            locals[i].value@,
        ),
{
}

/// A result is what is wanted of it where both succeed with the same packages or both fail with
/// the same message.
pub proof fn law_results_are_told_in_full(
    report: Result<Vec<crate::registry::Resolved>, String>,
    packages: Result<Seq<crate::registry::ResolvedView>, Text>,
    lockfile: Result<crate::lockfile::Lockfile, String>,
    entries: Result<Seq<LockedView>, Text>,
)
    ensures
        crate::lockfile::is_report(report, packages) <==> match report {
            Ok(held) => packages matches Ok(value) && crate::walk::package_views(held@) == value,
            Err(held) => packages matches Err(message) && held@ == message,
        },
        crate::lockfile::is_lockfile(lockfile, entries) <==> match lockfile {
            Ok(held) => entries matches Ok(value) && crate::lockfile::locked_views(held.packages@)
                == value,
            Err(held) => entries matches Err(message) && held@ == message,
        },
{
}

/// The entries of a lockfile are those of the document that its text holds.
pub proof fn law_lockfiles_are_read_from_their_document(bytes: Seq<u8>)
    ensures
        match crate::json::json_document(bytes) {
            Ok(doc) => crate::lockfile::lockfile_in(bytes) == crate::lockfile::lockfile_entries(
                doc,
            ),
            Err(message) => crate::lockfile::lockfile_in(bytes) == Err::<Seq<LockedView>, Text>(
                message,
            ),
        },
{
}

/// Programs are linked in the order of the packages: what earlier packages have linked stays, in
/// front.
pub proof fn law_links_are_in_package_order(
    node_modules: Text,
    packages: Seq<LockedView>,
    more: Seq<LockedView>,
)
    ensures
        crate::lockfile::bins_of(node_modules, packages).links.is_prefix_of(
            crate::lockfile::bins_of(node_modules, packages + more).links,
        ),
    decreases more.len(),
{
    let links = crate::lockfile::bins_of(node_modules, packages).links;
    if more.len() == 0 {
        assert(packages + more =~= packages);
        assert(links.subrange(0, links.len() as int) =~= links);
    } else {
        let shorter = more.drop_last();
        law_links_are_in_package_order(node_modules, packages, shorter);
        assert((packages + more).drop_last() =~= packages + shorter);
        let before = crate::lockfile::bins_of(node_modules, packages + shorter);
        let after = crate::lockfile::bins_of(node_modules, packages + more);
        let last = more.last();
        if crate::text::begins(last.key, "node_modules/"@) {
            lemma_links_stay(
                node_modules,
                last.key.skip("node_modules/"@.len() as int),
                before,
                last.bin,
            );
        } else {
            assert(before.links.subrange(0, before.links.len() as int) =~= before.links);
        }
        assert(after.links.subrange(0, links.len() as int) =~= after.links.subrange(
            0,
            before.links.len() as int,
        ).subrange(0, links.len() as int));
    }
}

proof fn lemma_links_stay(
    node_modules: Text,
    base: Text,
    bins: crate::lockfile::BinsView,
    list: Seq<(Text, Text)>,
)
    ensures
        bins.links.is_prefix_of(
            crate::lockfile::with_bins(node_modules, base, bins, list).links,
        ),
    decreases list.len(),
{
    let links = bins.links;
    if list.len() == 0 {
        assert(links.subrange(0, links.len() as int) =~= links);
    } else {
        lemma_links_stay(node_modules, base, bins, list.drop_last());
        let before = crate::lockfile::with_bins(node_modules, base, bins, list.drop_last()).links;
        let after = crate::lockfile::with_bins(node_modules, base, bins, list).links;
        assert(after.subrange(0, links.len() as int) =~= before.subrange(0, links.len() as int));
    }
}

/// What is said of the links that are not made: those without a target, and those whose target
/// lies outside the project, in order.
pub proof fn law_links_that_are_not_made_are_told(dest: Text, packages: Seq<LockedView>)
    requires
        crate::lockfile::locals_of(dest, packages).fault is None,
    ensures
        crate::lockfile::locals_of(dest, packages).warnings == packages.filter_map(
            |p: LockedView|
                match p.resolved {
                    Some(resolved) => if crate::path::is_contained(
                        crate::lockfile::link_target(resolved),
                    ) {
                        None
                    } else {
                        Some(
                            "workspace link `"@ + p.key + "` targets `"@
                                + crate::lockfile::link_target(resolved)
                                + "` outside the project; skipping"@,
                        )
                    },
                    None => Some("link `"@ + p.key + "` has no target; skipping"@),
                },
        ),
    decreases packages.len(),
{
    if packages.len() > 0 {
        law_links_that_are_not_made_are_told(dest, packages.drop_last());
    }
}

/// A fault in planning links is that of a link which has a target and would itself stand outside
/// the project, the first such one.
pub proof fn law_link_faults_name_the_first(dest: Text, packages: Seq<LockedView>)
    ensures
        crate::lockfile::locals_of(dest, packages).fault matches Some(fault) ==> exists|i: int|
            0 <= i < packages.len() && (#[trigger] packages[i]).resolved is Some
                && !crate::path::is_contained(packages[i].key) && fault == "unsafe path "@
                + crate::text::quotation(packages[i].key) && (forall|j: int|
                0 <= j < i ==> (#[trigger] packages[j]).resolved is None
                    || crate::path::is_contained(packages[j].key)),
        crate::lockfile::locals_of(dest, packages).fault is None ==> forall|j: int|
            0 <= j < packages.len() ==> (#[trigger] packages[j]).resolved is None
                || crate::path::is_contained(packages[j].key),
    decreases packages.len(),
{
    if packages.len() > 0 {
        let shorter = packages.drop_last();
        law_link_faults_name_the_first(dest, shorter);
        assert forall|j: int| 0 <= j < shorter.len() implies #[trigger] packages[j]
            == shorter[j] by {}
        match crate::lockfile::locals_of(dest, shorter).fault {
            Some(fault) => {
                let i = choose|i: int|
                    0 <= i < shorter.len() && (#[trigger] shorter[i]).resolved is Some
                        && !crate::path::is_contained(shorter[i].key) && fault == "unsafe path "@
                        + crate::text::quotation(shorter[i].key) && (forall|j: int|
                        0 <= j < i ==> (#[trigger] shorter[j]).resolved is None
                            || crate::path::is_contained(shorter[j].key));
                assert(packages[i] == shorter[i]);
                assert forall|j: int| 0 <= j < i implies (#[trigger] packages[j]).resolved is None
                    || crate::path::is_contained(packages[j].key) by {
                    assert(packages[j] == shorter[j]);
                }
            },
            None => {
                assert forall|j: int| 0 <= j < shorter.len() implies (
                #[trigger] packages[j]).resolved is None || crate::path::is_contained(
                    packages[j].key,
                ) by {
                    assert(packages[j] == shorter[j]);
                }
                assert(packages[packages.len() - 1] == packages.last());
            },
        }
    }
}

/// A fault in planning programs is that of a program which would stand outside `node_modules`.
pub proof fn law_program_faults_name_a_program(node_modules: Text, packages: Seq<LockedView>)
    ensures
        crate::lockfile::bins_of(node_modules, packages).fault matches Some(fault) ==> exists|
            i: int,
            j: int,
        |
            #![trigger packages[i].bin[j]]
            is_program(packages, i, j) && !crate::path::is_contained(program_path(packages, i, j))
                && fault == "unsafe path "@ + crate::text::quotation(program_path(packages, i, j)),
    decreases packages.len(),
{
    if packages.len() > 0 {
        let shorter = packages.drop_last();
        let last = packages.len() - 1;
        law_program_faults_name_a_program(node_modules, shorter);
        let earlier = crate::lockfile::bins_of(node_modules, shorter);
        if let Some(fault) = crate::lockfile::bins_of(node_modules, packages).fault {
            let package = packages.last();
            let base = package.key.skip("node_modules/"@.len() as int);
            if crate::text::begins(package.key, "node_modules/"@) {
                lemma_fault_of_package(node_modules, base, earlier, package.bin);
            }
            if earlier.fault is Some {
                let (i, j) = choose|i: int, j: int|
                    #![trigger shorter[i].bin[j]]
                    is_program(shorter, i, j) && !crate::path::is_contained(
                        program_path(shorter, i, j),
                    ) && earlier.fault->0 == "unsafe path "@ + crate::text::quotation(
                        program_path(shorter, i, j),
                    );
                assert(packages[i] == shorter[i]);
                assert(is_program(packages, i, j));
                assert(packages[i].bin[j] == shorter[i].bin[j]);
            } else {
                let j = choose|j: int|
                    0 <= j < package.bin.len() && is_faulty(base, #[trigger] package.bin[j], fault);
                assert(packages[last] == package);
                assert(is_program(packages, last, j));
                assert(packages[last].bin[j] == package.bin[j]);
            }
        }
    }
}

/// The program `bin` of the package at `base` would stand outside, which is the fault.
spec fn is_faulty(base: Text, bin: (Text, Text), fault: Text) -> bool {
    let path = base + "/"@ + crate::lockfile::without_dot_slashes(bin.1);
    &&& bin.0.len() > 0 && !bin.0.contains('/') && bin.0 != "."@ && bin.0 != ".."@
    &&& !crate::path::is_contained(path)
    &&& fault == "unsafe path "@ + crate::text::quotation(path)
}

proof fn lemma_fault_of_package(
    node_modules: Text,
    base: Text,
    bins: crate::lockfile::BinsView,
    list: Seq<(Text, Text)>,
)
    ensures
        bins.fault is Some ==> crate::lockfile::with_bins(node_modules, base, bins, list).fault
            == bins.fault,
        bins.fault is None && crate::lockfile::with_bins(node_modules, base, bins, list).fault
            is Some ==> exists|j: int|
            0 <= j < list.len() && is_faulty(
                base,
                #[trigger] list[j],
                crate::lockfile::with_bins(node_modules, base, bins, list).fault->0,
            ),
    decreases list.len(),
{
    if list.len() > 0 {
        let shorter = list.drop_last();
        lemma_fault_of_package(node_modules, base, bins, shorter);
        let before = crate::lockfile::with_bins(node_modules, base, bins, shorter);
        let after = crate::lockfile::with_bins(node_modules, base, bins, list);
        if bins.fault is None && after.fault is Some {
            if before.fault is Some {
                let j = choose|j: int|
                    0 <= j < shorter.len() && is_faulty(
                        base,
                        #[trigger] shorter[j],
                        before.fault->0,
                    );
                assert(list[j] == shorter[j]);
                assert(is_faulty(base, list[j], after.fault->0));
            } else {
                assert(is_faulty(base, list[list.len() - 1], after.fault->0));
            }
        }
    }
}

/// What is said of a document that is no lockfile, and of an optional package that is passed over.
pub proof fn law_faults_are_told(doc: JsonView, name: Text, cause: Text)
    ensures
        crate::lockfile::lockfile_entries(doc) matches Err(message) ==> message
            == "lockfile has no `packages` (lockfileVersion 2 or 3 is needed)"@,
        crate::lockfile::skipped_warning(name, cause) == "optional dependency `"@ + name
            + "` failed to install ("@ + cause + "); skipping"@,
{
}

/// Every package is told of before it is fetched, where the install is observed: by its number,
/// counted from one, how many there are, and its name and version.
pub proof fn law_packages_are_told_of(v: crate::lockfile::InstallView)
    ensures
        crate::lockfile::next_action(v) matches crate::lockfile::InstallActionView::Tell {
            index,
            total,
            name,
            version,
        } ==> {
            &&& v.observed && v.placed is None
            &&& 0 < index <= total
            &&& index == v.outcomes.len() + 1
            &&& total == v.packages.len()
            &&& name == v.packages[index - 1].name
            &&& version == v.packages[index - 1].version
        },
{
}

/// What an install is told to do is done once the outcome of each fetch is handed in, in order.
pub proof fn law_outcomes_are_kept(
    v: crate::lockfile::InstallView,
    outcome: Result<(), String>,
)
    ensures
        crate::lockfile::with_outcome(v, Some(outcome)).outcomes == v.outcomes.push(outcome),
        crate::lockfile::with_outcome(v, Some(outcome)).packages == v.packages,
        crate::lockfile::with_outcome(v, Some(outcome)).links == v.links,
        crate::lockfile::with_outcome(v, Some(outcome)).dest == v.dest,
        crate::lockfile::with_outcome(v, None) == v,
        crate::lockfile::acted(v).outcomes == v.outcomes,
        crate::lockfile::acted(v).packages == v.packages,
        crate::lockfile::acted(v).links == v.links,
        crate::lockfile::acted(v).dest == v.dest,
{
}

/// A new install has all its packages before it, and has done nothing.
pub proof fn law_installs_start_at_the_beginning(
    dest: Text,
    packages: Seq<LockedView>,
    links: Seq<LockedView>,
    placed: Option<Seq<Text>>,
    observed: bool,
)
    ensures
        ({
            let v = crate::lockfile::install_of(dest, packages, links, placed, observed);
            &&& v.dest == dest && v.packages == packages && v.links == links
            &&& v.placed == placed && v.observed == observed
            &&& v.outcomes.len() == 0 && v.warned == 0 && v.noted == 0 && !v.told && !v.awaiting
        }),
{
}

}
