//! Finding files of an installed package below `node_modules`.
//!
//! A package is looked for from a directory upwards, as Node does; a reference into it is mapped
//! by the package's `exports` where it declares some. Asking the filesystem is the caller's:
//! `kind` says what a path is, `canonical` gives its real path, and `read` its bytes. Whatever is
//! found lies inside the package's real directory.

use crate::dependency::{ends_with, validate_package_name};
use crate::json::Json;
use crate::path::{ancestors, is_within, join_path, safe_join};
use crate::source::PathKind;
use crate::text::{
    after_prefix, begins_with, chars_of, has_char, join, quoted, same, skip_leading, split,
    split_once, text_between, Text,
};
use vstd::prelude::*;
use vstd::string::*;

verus! {

// ---------------------------------------------------------------------------
// Packages
// ---------------------------------------------------------------------------

/// Where the package `name` is installed at `level`, if it is.
pub open spec fn install_path(level: Text, name: Text) -> Text {
    crate::path::joined_path(crate::path::joined_path(level, "node_modules"@), name)
}

/// `answer` is what asking `kind` about `path` may give.
pub open spec fn is_kind<K: Fn(&str) -> PathKind>(kind: K, path: Text, answer: PathKind) -> bool {
    exists|p: &str| p@ == path && #[trigger] call_ensures(kind, (p,), answer)
}

/// What was seen at one level.
pub struct Look {
    /// What stands where the package would be.
    pub found: PathKind,
    /// The level's real path, where it was asked for and there is one.
    pub level: Option<Text>,
}

/// The search ends at this level: the package is here, or this is the boundary.
pub open spec fn is_end(look: Look, boundary: Option<Text>) -> bool {
    look.found == PathKind::Dir || boundary is Some && look.level == boundary
}

/// This level lies within the boundary.
pub open spec fn is_inside(look: Look, boundary: Text) -> bool {
    look.level matches Some(level) && crate::path::lies_within(level, boundary)
}

/// The search was within the boundary.
pub open spec fn was_inside(seen: Seq<Look>, boundary: Text) -> bool {
    exists|i: int| 0 <= i < seen.len() && is_inside(#[trigger] seen[i], boundary)
}

/// A package at the last level of `seen` counts. A search that was within its boundary does not
/// leave it again, so that no link leads past the boundary.
pub open spec fn is_accepted(seen: Seq<Look>, boundary: Option<Text>) -> bool {
    boundary matches Some(b) ==> was_inside(seen, b) ==> is_inside(seen.last(), b)
}

/// The path by which the filesystem is asked for `level`: the working directory, where a relative
/// path has nothing left, is `.`.
pub open spec fn asked_path(level: Text) -> Text {
    if level.len() == 0 {
        "."@
    } else {
        level
    }
}

/// `look` is what the filesystem may say of `level`. The level's real path is asked for only
/// where there is a boundary.
pub open spec fn looks<K: Fn(&str) -> PathKind, C: Fn(&str) -> Result<String, String>>(
    kind: K,
    canonical: C,
    level: Text,
    name: Text,
    boundary: Option<Text>,
    look: Look,
) -> bool {
    &&& is_kind(kind, install_path(level, name), look.found)
    &&& boundary is Some ==> exists|answer: Result<String, String>|
        #[trigger] crate::source::resolves(canonical, asked_path(level), answer) && look.level
            == (
        match answer {
            Ok(path) => Some(path@),
            Err(_) => None,
        })
}

/// `seen` is a search of `levels`, nearest first: it goes on until a level ends it or there are no
/// more.
pub open spec fn is_search<K: Fn(&str) -> PathKind, C: Fn(&str) -> Result<String, String>>(
    kind: K,
    canonical: C,
    levels: Seq<Text>,
    name: Text,
    boundary: Option<Text>,
    seen: Seq<Look>,
) -> bool {
    &&& seen.len() <= levels.len()
    &&& forall|i: int|
        0 <= i < seen.len() ==> looks(
            kind,
            canonical,
            levels[i],
            name,
            boundary,
            #[trigger] seen[i],
        )
    &&& forall|i: int| 0 <= i < seen.len() - 1 ==> !is_end(#[trigger] seen[i], boundary)
    &&& seen.len() < levels.len() ==> seen.len() > 0 && is_end(seen.last(), boundary)
}

/// What is said of a package that is not installed.
pub open spec fn not_installed(from_dir: Text, name: Text, boundary: Option<Text>) -> Text {
    "package "@ + crate::text::quotation(name) + " is not installed in any node_modules "@ + (
    match boundary {
        Some(b) => "between "@ + from_dir + " and "@ + b,
        None => "above "@ + from_dir,
    })
}

/// What a search gives: the package's directory, where the last level has it and counts.
pub open spec fn search_result(
    from_dir: Text,
    name: Text,
    boundary: Option<Text>,
    seen: Seq<Look>,
) -> Result<Text, Text> {
    if seen.len() > 0 && seen.last().found == PathKind::Dir && is_accepted(seen, boundary) {
        Ok(install_path(crate::path::ascent(from_dir)[seen.len() - 1], name))
    } else {
        Err(not_installed(from_dir, name, boundary))
    }
}

/// `r` is `wanted`.
pub open spec fn is_text(r: Result<String, String>, wanted: Result<Text, Text>) -> bool {
    match r {
        Ok(text) => wanted == Ok::<Text, Text>(text@),
        Err(message) => wanted == Err::<Text, Text>(message@),
    }
}

/// `dir` is what looking for the package `name` from `from_dir` upwards may give. A name that is
/// none is refused before anything is asked.
pub open spec fn finds<K: Fn(&str) -> PathKind, C: Fn(&str) -> Result<String, String>>(
    kind: K,
    canonical: C,
    from_dir: Text,
    name: Text,
    boundary: Option<Text>,
    dir: Result<Text, Text>,
) -> bool {
    if crate::dependency::is_package_name(name) {
        exists|seen: Seq<Look>|
            #[trigger] is_search(
                kind,
                canonical,
                crate::path::ascent(from_dir),
                name,
                boundary,
                seen,
            ) && dir == search_result(from_dir, name, boundary, seen)
    } else {
        dir == Err::<Text, Text>(crate::dependency::name_fault(name))
    }
}

/// The value of a result.
pub open spec fn text_result(r: Result<String, String>) -> Result<Text, Text> {
    match r {
        Ok(text) => Ok(text@),
        Err(message) => Err(message@),
    }
}

fn missing_message(from_dir: &str, name: &str, boundary: Option<&str>) -> (r: String)
    ensures
        r@ == not_installed(from_dir@, name@, crate::registry::optional_str(boundary)),
{
    let mut message = "package ".to_owned();
    message.append(quoted(name).as_str());
    message.append(" is not installed in any node_modules ");
    match boundary {
        Some(b) => {
            message.append("between ");
            message.append(from_dir);
            message.append(" and ");
            message.append(b);
            assert(message@ == not_installed(from_dir@, name@, Some(b@)));
        },
        None => {
            message.append("above ");
            message.append(from_dir);
            assert(message@ == not_installed(from_dir@, name@, None));
        },
    }
    message
}

fn package_dir_up<K: Fn(&str) -> PathKind, C: Fn(&str) -> Result<String, String>>(
    from_dir: &str,
    name: &str,
    boundary: Option<&str>,
    kind: &K,
    canonical: &C,
) -> (r: Result<String, String>)
    requires
        forall|p: &str| #[trigger] call_requires(*kind, (p,)),
        forall|p: &str| #[trigger] call_requires(*canonical, (p,)),
    ensures
        finds(
            *kind,
            *canonical,
            from_dir@,
            name@,
            crate::registry::optional_str(boundary),
            text_result(r),
        ),
{
    if let Err(message) = validate_package_name(name) {
        return Err(message);
    }
    let ghost stop = crate::registry::optional_str(boundary);
    let levels = ancestors(from_dir);
    let ghost all = crate::text::texts(levels@);
    let ghost mut seen: Seq<Look> = Seq::empty();
    let mut entered = false;
    let mut i: usize = 0;
    while i < levels.len()
        invariant
            i <= levels@.len(),
            all == crate::text::texts(levels@),
            all == crate::path::ascent(from_dir@),
            seen.len() == i,
            stop == crate::registry::optional_str(boundary),
            crate::dependency::is_package_name(name@),
            forall|k: int|
                0 <= k < seen.len() ==> looks(
                    *kind,
                    *canonical,
                    all[k],
                    name@,
                    stop,
                    #[trigger] seen[k],
                ),
            forall|k: int| 0 <= k < seen.len() ==> !is_end(#[trigger] seen[k], stop),
            stop matches Some(b) ==> entered == was_inside(seen, b),
            stop is None ==> !entered,
            forall|p: &str| #[trigger] call_requires(*kind, (p,)),
            forall|p: &str| #[trigger] call_requires(*canonical, (p,)),
        decreases levels@.len() - i,
    {
        let level = levels[i].as_str();
        assert(all[i as int] == level@);
        let modules = join_path(level, "node_modules");
        let candidate = join_path(modules.as_str(), name);
        let found = kind(candidate.as_str());
        assert(is_kind(*kind, install_path(level@, name@), found));
        let mut at_boundary = false;
        let mut inside = false;
        let ghost mut real_level: Option<Text> = None;
        let is_dir = matches!(found, PathKind::Dir);
        if let Some(b) = boundary {
            let asked = if level.is_empty() {
                "."
            } else {
                level
            };
            let answer = canonical(asked);
            let ghost given = answer;
            assert(crate::source::resolves(*canonical, asked_path(level@), given));
            if let Ok(path) = answer {
                at_boundary = same(path.as_str(), b);
                inside = is_within(path.as_str(), b);
                proof {
                    real_level = Some(path@);
                }
            }
        }
        let ghost before = seen;
        proof {
            let look = Look { found, level: real_level };
            assert(looks(*kind, *canonical, level@, name@, stop, look));
            seen = seen.push(look);
            assert(seen.last() == look);
            if let Some(b) = stop {
                assert(inside == is_inside(look, b));
                assert(was_inside(seen, b) == (was_inside(before, b) || inside)) by {
                    assert(forall|k: int| 0 <= k < before.len() ==> seen[k] == before[k]);
                    if was_inside(before, b) {
                        let k = choose|k: int|
                            0 <= k < before.len() && is_inside(#[trigger] before[k], b);
                        assert(is_inside(seen[k], b));
                    }
                    if inside {
                        assert(is_inside(seen[i as int], b));
                    }
                }
            }
        }
        entered = entered || inside;
        if is_dir || at_boundary {
            assert(is_search(*kind, *canonical, all, name@, stop, seen));
            if is_dir && (inside || !entered) {
                return Ok(candidate);
            }
            return Err(missing_message(from_dir, name, boundary));
        }
        i = i + 1;
    }
    assert(is_search(*kind, *canonical, all, name@, stop, seen));
    Err(missing_message(from_dir, name, boundary))
}

/// What is said of a boundary that cannot be resolved.
pub open spec fn boundary_fault(boundary: Text, cause: Text) -> Text {
    "resolve boundary "@ + boundary + ": "@ + cause
}

fn boundary_message(boundary: &str, cause: &str) -> (r: String)
    ensures
        r@ == boundary_fault(boundary@, cause@),
{
    let mut message = "resolve boundary ".to_owned();
    message.append(boundary);
    message.append(": ");
    message.append(cause);
    message
}

/// Find the installed package `name` from `from_dir` upwards: the nearest `node_modules/<name>`.
pub fn package_dir<K: Fn(&str) -> PathKind, C: Fn(&str) -> Result<String, String>>(
    from_dir: &str,
    name: &str,
    kind: K,
    canonical: C,
) -> (r: Result<String, String>)
    requires
        forall|p: &str| #[trigger] call_requires(kind, (p,)),
        forall|p: &str| #[trigger] call_requires(canonical, (p,)),
    ensures
        finds(kind, canonical, from_dir@, name@, None, text_result(r)),
{
    package_dir_up(from_dir, name, None, &kind, &canonical)
}

/// [`package_dir`], but the search stops at `boundary`, which is itself still looked at. A search
/// that was within the boundary, by the real paths of its levels, finds nothing outside: a link
/// cannot lead it past. One that begins outside is not bounded until it comes to the boundary.
pub fn package_dir_within<K: Fn(&str) -> PathKind, C: Fn(&str) -> Result<String, String>>(
    from_dir: &str,
    name: &str,
    boundary: &str,
    kind: K,
    canonical: C,
) -> (r: Result<String, String>)
    requires
        forall|p: &str| #[trigger] call_requires(kind, (p,)),
        forall|p: &str| #[trigger] call_requires(canonical, (p,)),
    ensures
        exists|answer: Result<String, String>|
            #[trigger] crate::source::resolves(canonical, boundary@, answer) && (match answer {
                Err(cause) => text_result(r) == Err::<Text, Text>(
                    boundary_fault(boundary@, cause@),
                ),
                Ok(path) => finds(
                    kind,
                    canonical,
                    from_dir@,
                    name@,
                    Some(path@),
                    text_result(r),
                ),
            }),
{
    let answer = canonical(boundary);
    let ghost given = answer;
    assert(crate::source::resolves(canonical, boundary@, given));
    match answer {
        Err(cause) => Err(boundary_message(boundary, cause.as_str())),
        Ok(path) => package_dir_up(from_dir, name, Some(path.as_str()), &kind, &canonical),
    }
}

// ---------------------------------------------------------------------------
// References into a package
// ---------------------------------------------------------------------------

/// A reference without a leading `./` and without leading separators.
pub open spec fn direct(subpath: Text) -> Text {
    crate::text::without_leading(
        if crate::text::begins(subpath, "./"@) {
            subpath.skip("./"@.len() as int)
        } else {
            subpath
        },
        '/',
    )
}

/// The parts of a pattern around its only `*`; `None` when it has none or several.
pub open spec fn star_parts(pattern: Text) -> Option<(Text, Text)> {
    match crate::text::first_occurrence(pattern, "*"@) {
        Some(i) => {
            let suffix = pattern.skip(i + "*"@.len());
            if suffix.contains('*') {
                None
            } else {
                Some((pattern.take(i), suffix))
            }
        },
        None => None,
    }
}

/// How long the part of a pattern before its `*` is.
pub open spec fn star_at(pattern: Text) -> int {
    match star_parts(pattern) {
        Some((prefix, _)) => prefix.len() as int,
        None => 0,
    }
}

/// What the `*` of `pattern` stands for in `wanted`; it stands for something.
pub open spec fn star_match(pattern: Text, wanted: Text) -> Option<Text> {
    match star_parts(pattern) {
        Some((prefix, suffix)) => if prefix.len() + suffix.len() < wanted.len()
            && crate::text::begins(wanted, prefix) && crate::dependency::ends(wanted, suffix) {
            Some(wanted.subrange(prefix.len() as int, wanted.len() - suffix.len()))
        } else {
            None
        },
        None => None,
    }
}

/// The pattern among `list` that matches `wanted` with the longest part before its `*`.
pub open spec fn best_pattern(
    list: Seq<(Text, crate::json::JsonView)>,
    wanted: Text,
) -> Option<int>
    decreases list.len(),
{
    if list.len() == 0 {
        None
    } else {
        let best = best_pattern(list.drop_last(), wanted);
        let pattern = list.last().0;
        if star_match(pattern, wanted) is Some && (best is None || star_at(
            list[best->0].0,
        ) < star_at(pattern)) {
            Some(list.len() - 1)
        } else {
            best
        }
    }
}

/// The target that an export names: a text, or the one under the first of the conditions
/// `browser`, `import` and `default` that has a text.
pub open spec fn export_target(export: crate::json::JsonView) -> Option<Text> {
    match export {
        crate::json::JsonView::Text(target) => Some(target),
        _ => if crate::json::text_member(export, "browser"@) is Some {
            crate::json::text_member(export, "browser"@)
        } else if crate::json::text_member(export, "import"@) is Some {
            crate::json::text_member(export, "import"@)
        } else {
            crate::json::text_member(export, "default"@)
        },
    }
}

/// A target as a path inside the package; it begins with `./` and stays inside.
pub open spec fn target_path(target: Text) -> Option<Text> {
    if crate::text::begins(target, "./"@) && crate::path::is_contained(
        target.skip("./"@.len() as int),
    ) {
        Some(target.skip("./"@.len() as int))
    } else {
        None
    }
}

/// Where the exports of a list map `wanted`, an exact name before any pattern.
pub open spec fn exported(list: Seq<(Text, crate::json::JsonView)>, wanted: Text) -> Option<Text> {
    match crate::json::find_member(list, wanted) {
        Some(export) => match export_target(export) {
            Some(target) => target_path(target),
            None => None,
        },
        None => match best_pattern(list, wanted) {
            Some(i) => match export_target(list[i].1) {
                Some(target) => target_path(
                    crate::text::joined(
                        crate::text::pieces(target, "*"@),
                        star_match(list[i].0, wanted)->0,
                    ),
                ),
                None => None,
            },
            None => None,
        },
    }
}

/// The manifest declares exports.
pub open spec fn declares_exports(manifest: crate::json::JsonView) -> bool {
    crate::json::member(manifest, "exports"@) is Some
}

/// The file that `subpath` names in a package with this manifest. Where exports are declared,
/// only what they map; otherwise the file itself, if it is inside the package.
pub open spec fn asset(manifest: crate::json::JsonView, subpath: Text) -> Option<Text> {
    if declares_exports(manifest) {
        match crate::json::as_members(crate::json::member(manifest, "exports"@)) {
            Some(list) => exported(list, "./"@ + direct(subpath)),
            None => None,
        }
    } else if direct(subpath).len() > 0 && crate::path::is_contained(direct(subpath)) {
        Some(direct(subpath))
    } else {
        None
    }
}

fn direct_path(subpath: &str) -> (r: String)
    ensures
        r@ == direct(subpath@),
{
    match after_prefix(subpath, "./") {
        Some(rest) => skip_leading(rest.as_str(), '/'),
        None => skip_leading(subpath, '/'),
    }
}

fn split_star(pattern: &str) -> (r: Option<(String, String)>)
    ensures
        star_parts(pattern@) == (match r {
            Some((prefix, suffix)) => Some((prefix@, suffix@)),
            None => None,
        }),
{
    proof {
        reveal_strlit("*");
    }
    match split_once(pattern, "*") {
        Some((prefix, suffix)) => if has_char(suffix.as_str(), '*') {
            None
        } else {
            Some((prefix, suffix))
        },
        None => None,
    }
}

/// What the `*` stands for, and how long the part before it is.
fn match_star(pattern: &str, wanted: &str) -> (r: Option<(String, usize)>)
    ensures
        star_match(pattern@, wanted@) == (match r {
            Some((part, _)) => Some(part@),
            None => None,
        }),
        r matches Some((_, n)) ==> n == star_at(pattern@),
{
    match split_star(pattern) {
        None => None,
        Some((prefix, suffix)) => {
            let chars = chars_of(wanted);
            let a: usize = prefix.as_str().unicode_len();
            let b: usize = suffix.as_str().unicode_len();
            let n: usize = chars.len();
            if a < n && b < n - a && begins_with(wanted, prefix.as_str()) && ends_with(
                wanted,
                suffix.as_str(),
            ) {
                Some((text_between(&chars, a, n - b), a))
            } else {
                None
            }
        },
    }
}

fn target_text(export: &Json) -> (r: Option<String>)
    ensures
        crate::text::optional_text(r) == export_target(export@),
{
    if let Some(target) = export.as_str() {
        return Some(target.to_owned());
    }
    if let Some(target) = export.text_at("browser") {
        return Some(target);
    }
    if let Some(target) = export.text_at("import") {
        return Some(target);
    }
    export.text_at("default")
}

fn path_of_target(target: &str) -> (r: Option<String>)
    ensures
        crate::text::optional_text(r) == target_path(target@),
{
    match after_prefix(target, "./") {
        Some(rest) => match safe_join("", rest.as_str()) {
            Ok(_) => Some(rest),
            Err(_) => None,
        },
        None => None,
    }
}

fn find_export(exports: &Json, list: &Vec<(String, Json)>, wanted: &str) -> (r: Option<String>)
    requires
        exports@ == crate::json::JsonView::Object(crate::json::members(list@)),
    ensures
        crate::text::optional_text(r) == exported(crate::json::members(list@), wanted@),
{
    let ghost all = crate::json::members(list@);
    if let Some(export) = exports.get(wanted) {
        return match target_text(export) {
            Some(target) => path_of_target(target.as_str()),
            None => None,
        };
    }
    let mut best: Option<(usize, String, usize)> = None;
    let mut i: usize = 0;
    while i < list.len()
        invariant
            i <= list@.len(),
            all == crate::json::members(list@),
            best_pattern(all.take(i as int), wanted@) == (match best {
                Some((at, _, _)) => Some(at as int),
                None => None,
            }),
            best matches Some((at, part, n)) ==> {
                &&& at < i
                &&& star_match(all[at as int].0, wanted@) == Some(part@)
                &&& n == star_at(all[at as int].0)
            },
        decreases list@.len() - i,
    {
        assert(all.take(i + 1).drop_last() == all.take(i as int));
        assert(all.take(i + 1).last() == all[i as int]);
        assert(all[i as int] == (list@[i as int].0@, list@[i as int].1@));
        if let Some((part, n)) = match_star(list[i].0.as_str(), wanted) {
            let better = match &best {
                None => true,
                Some((at, _, m)) => {
                    assert(all.take(i as int)[*at as int] == all[*at as int]);
                    *m < n
                },
            };
            if better {
                best = Some((i, part, n));
            }
        }
        i = i + 1;
    }
    assert(all.take(i as int) == all);
    match best {
        None => None,
        Some((at, part, _)) => {
            assert(all[at as int].1 == list@[at as int].1@);
            match target_text(&list[at].1) {
                None => None,
                Some(target) => {
                    proof {
                        reveal_strlit("*");
                    }
                    let parts = split(target.as_str(), "*");
                    let mapped = join(&parts, part.as_str());
                    path_of_target(mapped.as_str())
                },
            }
        },
    }
}

/// Whether a manifest declares exports.
pub fn has_exports(manifest: &Json) -> (r: bool)
    ensures
        r == declares_exports(manifest@),
{
    manifest.get("exports").is_some()
}

/// The file that `subpath` names in a package with this manifest, relative to the package.
pub fn resolve_asset(manifest: &Json, subpath: &str) -> (r: Option<String>)
    ensures
        crate::text::optional_text(r) == asset(manifest@, subpath@),
{
    let rest = direct_path(subpath);
    match manifest.get("exports") {
        Some(exports) => match exports.as_object() {
            Some(list) => {
                let mut wanted = "./".to_owned();
                wanted.append(rest.as_str());
                find_export(exports, list, wanted.as_str())
            },
            None => None,
        },
        None => {
            if rest.as_str().is_empty() {
                return None;
            }
            match safe_join("", rest.as_str()) {
                Ok(_) => Some(rest),
                Err(_) => None,
            }
        },
    }
}

// ---------------------------------------------------------------------------
// Files
// ---------------------------------------------------------------------------

/// `name/subpath`, followed by what is wrong with it.
pub open spec fn file_fault(name: Text, subpath: Text, cause: Text) -> Text {
    name + "/"@ + subpath + ": "@ + cause
}

/// What is wrong with a reference that the package does not export.
pub open spec fn not_exported(name: Text) -> Text {
    "not exported by "@ + name + " (its package.json `exports` does not map this subpath)"@
}

/// Where a reference points inside a package with this manifest, or why nowhere.
pub open spec fn relative_in(
    name: Text,
    subpath: Text,
    manifest: crate::json::JsonView,
) -> Result<Text, Text> {
    match asset(manifest, subpath) {
        Some(relative) => Ok(relative),
        None => Err(
            file_fault(
                name,
                subpath,
                if declares_exports(manifest) {
                    not_exported(name)
                } else {
                    "refuses an unsafe or empty subpath"@
                },
            ),
        ),
    }
}

/// What the filesystem says on the way to a file of a package.
pub struct FileLook {
    /// What stands at the manifest's place.
    pub manifest: PathKind,
    /// What is in it.
    pub bytes: Result<Vec<u8>, String>,
    /// The package's real path.
    pub root: Result<String, String>,
    /// The file's real path.
    pub target: Result<String, String>,
    /// What stands there.
    pub kind: PathKind,
}

/// Where the reference points below the package's directory, or why nowhere. A package without a
/// manifest is addressed directly.
pub open spec fn relative_of(name: Text, subpath: Text, look: FileLook) -> Result<Text, Text> {
    if look.manifest == PathKind::File {
        match crate::registry::reply_document(look.bytes) {
            Err(message) => Err(message),
            Ok(manifest) => relative_in(name, subpath, manifest),
        }
    } else {
        Ok(direct(subpath))
    }
}

/// The path of the file before links are followed, or why there is none.
pub open spec fn candidate_of(dir: Text, name: Text, subpath: Text, look: FileLook) -> Result<
    Text,
    Text,
> {
    match relative_of(name, subpath, look) {
        Err(message) => Err(message),
        Ok(relative) => crate::path::contained_path(dir, relative),
    }
}

/// The file that a reference names, given what the filesystem says: its real path, which is inside
/// the package's.
pub open spec fn file_result(dir: Text, name: Text, subpath: Text, look: FileLook) -> Result<
    Text,
    Text,
> {
    match candidate_of(dir, name, subpath, look) {
        Err(message) => Err(message),
        Ok(_) => match look.root {
            Err(message) => Err(message@),
            Ok(root) => match look.target {
                Err(cause) => Err(file_fault(name, subpath, cause@)),
                Ok(target) => if !crate::path::lies_within(target@, root@) {
                    Err(file_fault(name, subpath, "resolves outside "@ + name))
                } else if look.kind != PathKind::File {
                    Err(file_fault(name, subpath, "not a file in the package"@))
                } else {
                    Ok(target@)
                },
            },
        },
    }
}

/// `bytes` are what reading `path` may give.
pub open spec fn is_read<R: Fn(&str) -> Result<Vec<u8>, String>>(
    read: R,
    path: Text,
    bytes: Result<Vec<u8>, String>,
) -> bool {
    exists|p: &str| p@ == path && #[trigger] call_ensures(read, (p,), bytes)
}

/// `look` is what the filesystem may say on the way to a file of the package at `dir`; each thing
/// is asked for only where what came before it leads there.
pub open spec fn is_look<
    K: Fn(&str) -> PathKind,
    C: Fn(&str) -> Result<String, String>,
    R: Fn(&str) -> Result<Vec<u8>, String>,
>(
    kind: K,
    canonical: C,
    read: R,
    dir: Text,
    name: Text,
    subpath: Text,
    look: FileLook,
) -> bool {
    let manifest = crate::path::joined_path(dir, "package.json"@);
    let candidate = candidate_of(dir, name, subpath, look);
    &&& is_kind(kind, manifest, look.manifest)
    &&& look.manifest == PathKind::File ==> is_read(read, manifest, look.bytes)
    &&& candidate is Ok ==> crate::source::resolves(canonical, dir, look.root)
    &&& candidate is Ok && look.root is Ok ==> crate::source::resolves(
        canonical,
        candidate->Ok_0,
        look.target,
    )
    &&& candidate is Ok && look.root is Ok && look.target is Ok && crate::path::lies_within(
        look.target->Ok_0@,
        look.root->Ok_0@,
    ) ==> is_kind(kind, look.target->Ok_0@, look.kind)
}

/// `file` is what looking for `subpath` in the package `name` may give, once the package was
/// looked for with the result `dir`.
pub open spec fn finds_file<
    K: Fn(&str) -> PathKind,
    C: Fn(&str) -> Result<String, String>,
    R: Fn(&str) -> Result<Vec<u8>, String>,
>(
    kind: K,
    canonical: C,
    read: R,
    dir: Result<Text, Text>,
    name: Text,
    subpath: Text,
    file: Result<Text, Text>,
) -> bool {
    match dir {
        Err(message) => file == Err::<Text, Text>(message),
        Ok(dir) => exists|look: FileLook|
            #[trigger] is_look(kind, canonical, read, dir, name, subpath, look) && file
                == file_result(dir, name, subpath, look),
    }
}

fn fault_message(name: &str, subpath: &str, cause: &str) -> (r: String)
    ensures
        r@ == file_fault(name@, subpath@, cause@),
{
    let mut message = name.to_owned();
    message.append("/");
    message.append(subpath);
    message.append(": ");
    message.append(cause);
    message
}

/// Where a reference points inside a package with this manifest.
pub fn relative_path(name: &str, subpath: &str, manifest: &Json) -> (r: Result<String, String>)
    ensures
        is_text(r, relative_in(name@, subpath@, manifest@)),
{
    match resolve_asset(manifest, subpath) {
        Some(relative) => Ok(relative),
        None => if has_exports(manifest) {
            let mut cause = "not exported by ".to_owned();
            cause.append(name);
            cause.append(" (its package.json `exports` does not map this subpath)");
            Err(fault_message(name, subpath, cause.as_str()))
        } else {
            Err(fault_message(name, subpath, "refuses an unsafe or empty subpath"))
        },
    }
}

fn file_in<
    K: Fn(&str) -> PathKind,
    C: Fn(&str) -> Result<String, String>,
    R: Fn(&str) -> Result<Vec<u8>, String>,
>(dir: &str, name: &str, subpath: &str, kind: &K, canonical: &C, read: &R) -> (r: Result<
    String,
    String,
>)
    requires
        forall|p: &str| #[trigger] call_requires(*kind, (p,)),
        forall|p: &str| #[trigger] call_requires(*canonical, (p,)),
        forall|p: &str| #[trigger] call_requires(*read, (p,)),
    ensures
        finds_file(*kind, *canonical, *read, Ok(dir@), name@, subpath@, text_result(r)),
{
    let manifest = join_path(dir, "package.json");
    let at = kind(manifest.as_str());
    let ghost mut look = FileLook {
        manifest: at,
        bytes: Err(manifest),
        root: Err(manifest),
        target: Err(manifest),
        kind: at,
    };
    assert(is_kind(*kind, crate::path::joined_path(dir@, "package.json"@), at));
    let relative = if matches!(at, PathKind::File) {
        let bytes = read(manifest.as_str());
        proof {
            look = FileLook { bytes, ..look };
            assert(is_read(*read, crate::path::joined_path(dir@, "package.json"@), bytes));
        }
        match bytes {
            Err(message) => Err(message),
            Ok(bytes) => match Json::parse(bytes.as_slice()) {
                Err(message) => Err(message),
                Ok(doc) => relative_path(name, subpath, &doc),
            },
        }
    } else {
        Ok(direct_path(subpath))
    };
    assert(text_result(relative) == relative_of(name@, subpath@, look));
    let candidate = match relative {
        Err(message) => Err(message),
        Ok(relative) => safe_join(dir, relative.as_str()),
    };
    assert(text_result(candidate) == candidate_of(dir@, name@, subpath@, look));
    let candidate = match candidate {
        Err(message) => {
            assert(is_look(*kind, *canonical, *read, dir@, name@, subpath@, look));
            return Err(message);
        },
        Ok(candidate) => candidate,
    };
    let root = canonical(dir);
    proof {
        look = FileLook { root, ..look };
        assert(crate::source::resolves(*canonical, dir@, root));
        assert(candidate_of(dir@, name@, subpath@, look) == Ok::<Text, Text>(candidate@));
    }
    let root = match root {
        Err(message) => {
            assert(is_look(*kind, *canonical, *read, dir@, name@, subpath@, look));
            return Err(message);
        },
        Ok(root) => root,
    };
    let target = canonical(candidate.as_str());
    proof {
        look = FileLook { target, ..look };
        assert(crate::source::resolves(*canonical, candidate@, target));
        assert(candidate_of(dir@, name@, subpath@, look) == Ok::<Text, Text>(candidate@));
    }
    let target = match target {
        Err(cause) => {
            assert(is_look(*kind, *canonical, *read, dir@, name@, subpath@, look));
            return Err(fault_message(name, subpath, cause.as_str()));
        },
        Ok(target) => target,
    };
    if !is_within(target.as_str(), root.as_str()) {
        assert(is_look(*kind, *canonical, *read, dir@, name@, subpath@, look));
        let mut cause = "resolves outside ".to_owned();
        cause.append(name);
        return Err(fault_message(name, subpath, cause.as_str()));
    }
    let there = kind(target.as_str());
    proof {
        look = FileLook { kind: there, ..look };
        assert(is_kind(*kind, target@, there));
        assert(candidate_of(dir@, name@, subpath@, look) == Ok::<Text, Text>(candidate@));
        assert(is_look(*kind, *canonical, *read, dir@, name@, subpath@, look));
    }
    if matches!(there, PathKind::File) {
        Ok(target)
    } else {
        Err(fault_message(name, subpath, "not a file in the package"))
    }
}

/// The file `subpath` of the installed package `name`, looked for from `from_dir` upwards.
pub fn package_file<
    K: Fn(&str) -> PathKind,
    C: Fn(&str) -> Result<String, String>,
    R: Fn(&str) -> Result<Vec<u8>, String>,
>(from_dir: &str, name: &str, subpath: &str, kind: K, canonical: C, read: R) -> (r: Result<
    String,
    String,
>)
    requires
        forall|p: &str| #[trigger] call_requires(kind, (p,)),
        forall|p: &str| #[trigger] call_requires(canonical, (p,)),
        forall|p: &str| #[trigger] call_requires(read, (p,)),
    ensures
        exists|dir: Result<Text, Text>|
            #[trigger] finds(kind, canonical, from_dir@, name@, None, dir) && finds_file(
                kind,
                canonical,
                read,
                dir,
                name@,
                subpath@,
                text_result(r),
            ),
{
    let dir = package_dir_up(from_dir, name, None, &kind, &canonical);
    let ghost found = text_result(dir);
    assert(finds(kind, canonical, from_dir@, name@, None, found));
    match dir {
        Err(message) => Err(message),
        Ok(dir) => file_in(dir.as_str(), name, subpath, &kind, &canonical, &read),
    }
}

/// [`package_file`], but the package is looked for only up to `boundary`.
pub fn package_file_within<
    K: Fn(&str) -> PathKind,
    C: Fn(&str) -> Result<String, String>,
    R: Fn(&str) -> Result<Vec<u8>, String>,
>(
    from_dir: &str,
    name: &str,
    subpath: &str,
    boundary: &str,
    kind: K,
    canonical: C,
    read: R,
) -> (r: Result<String, String>)
    requires
        forall|p: &str| #[trigger] call_requires(kind, (p,)),
        forall|p: &str| #[trigger] call_requires(canonical, (p,)),
        forall|p: &str| #[trigger] call_requires(read, (p,)),
    ensures
        exists|answer: Result<String, String>|
            #[trigger] crate::source::resolves(canonical, boundary@, answer) && (match answer {
                Err(cause) => text_result(r) == Err::<Text, Text>(
                    boundary_fault(boundary@, cause@),
                ),
                Ok(path) => exists|dir: Result<Text, Text>|
                    #[trigger] finds(kind, canonical, from_dir@, name@, Some(path@), dir)
                        && finds_file(
                        kind,
                        canonical,
                        read,
                        dir,
                        name@,
                        subpath@,
                        text_result(r),
                    ),
            }),
{
    let answer = canonical(boundary);
    let ghost given = answer;
    assert(crate::source::resolves(canonical, boundary@, given));
    match answer {
        Err(cause) => Err(boundary_message(boundary, cause.as_str())),
        Ok(path) => {
            let dir = package_dir_up(from_dir, name, Some(path.as_str()), &kind, &canonical);
            let ghost found = text_result(dir);
            assert(finds(kind, canonical, from_dir@, name@, Some(path@), found));
            match dir {
                Err(message) => Err(message),
                Ok(dir) => file_in(dir.as_str(), name, subpath, &kind, &canonical, &read),
            }
        },
    }
}

// ---------------------------------------------------------------------------
// Laws
// ---------------------------------------------------------------------------

/// A file that is found lies inside the package's real directory, whatever links and references
/// lead to it.
pub proof fn law_files_stay_in_their_package(
    dir: Text,
    name: Text,
    subpath: Text,
    look: FileLook,
)
    requires
        file_result(dir, name, subpath, look) is Ok,
    ensures
        look.root matches Ok(root) && crate::path::lies_within(
            file_result(dir, name, subpath, look)->Ok_0,
            root@,
        ),
        look.kind == PathKind::File,
{
}

/// A package that declares exports gives out nothing else.
pub proof fn law_exports_encapsulate(name: Text, subpath: Text, manifest: crate::json::JsonView)
    requires
        declares_exports(manifest),
        asset(manifest, subpath) is None,
    ensures
        relative_in(name, subpath, manifest) == Err::<Text, Text>(
            file_fault(name, subpath, not_exported(name)),
        ),
{
}

/// Whatever a manifest says, a reference that it resolves stays inside the package.
pub proof fn law_assets_are_contained(manifest: crate::json::JsonView, subpath: Text)
    ensures
        asset(manifest, subpath) matches Some(relative) ==> crate::path::is_contained(relative),
{
}

/// The boundary bounds: a search that saw the boundary's real path at a level without the package
/// ends there and finds nothing.
pub proof fn law_searches_stop_at_the_boundary<
    K: Fn(&str) -> PathKind,
    C: Fn(&str) -> Result<String, String>,
>(
    kind: K,
    canonical: C,
    from_dir: Text,
    name: Text,
    boundary: Text,
    seen: Seq<Look>,
    i: int,
)
    requires
        is_search(
            kind,
            canonical,
            crate::path::ascent(from_dir),
            name,
            Some(boundary),
            seen,
        ),
        0 <= i < seen.len(),
        seen[i].level == Some(boundary),
        seen[i].found != PathKind::Dir,
    ensures
        i == seen.len() - 1,
        search_result(from_dir, name, Some(boundary), seen) is Err,
{
    assert(is_end(seen[i], Some(boundary)));
}

/// A bounded search never leaves the boundary: where it was within, be it by its start alone, and
/// finds the package, the real path of the level that holds it lies within the boundary, whatever
/// links lead there.
pub proof fn law_bounded_packages_lie_within_the_boundary(
    from_dir: Text,
    name: Text,
    boundary: Text,
    seen: Seq<Look>,
)
    requires
        was_inside(seen, boundary),
        search_result(from_dir, name, Some(boundary), seen) is Ok,
    ensures
        seen.len() > 0,
        search_result(from_dir, name, Some(boundary), seen) == Ok::<Text, Text>(
            install_path(crate::path::ascent(from_dir)[seen.len() - 1], name),
        ),
        is_inside(seen.last(), boundary),
{
}

/// The filesystem answers by `disk` what a path is.
pub open spec fn answers_by<K: Fn(&str) -> PathKind>(
    kind: K,
    disk: spec_fn(Text) -> PathKind,
) -> bool {
    forall|path: Text, answer: PathKind| #[trigger] is_kind(kind, path, answer) ==> answer == disk(
        path,
    )
}

/// On the way up from `from_dir` there are no links: each level is its own real path.
pub open spec fn is_without_links<C: Fn(&str) -> Result<String, String>>(
    canonical: C,
    from_dir: Text,
) -> bool {
    forall|i: int, answer: Result<String, String>|
        0 <= i < crate::path::ascent(from_dir).len() && #[trigger] crate::source::resolves(
            canonical,
            asked_path(crate::path::ascent(from_dir)[i]),
            answer,
        ) ==> text_result(answer) == Ok::<Text, Text>(crate::path::ascent(from_dir)[i])
}

/// A boundary takes away and never adds: on a filesystem that does not change, a bounded search
/// gives what the unbounded one gives, or an error.
pub proof fn law_a_boundary_only_restricts<
    K: Fn(&str) -> PathKind,
    C: Fn(&str) -> Result<String, String>,
>(
    kind: K,
    canonical: C,
    disk: spec_fn(Text) -> PathKind,
    from_dir: Text,
    name: Text,
    boundary: Text,
    free: Result<Text, Text>,
    bounded: Result<Text, Text>,
)
    requires
        answers_by(kind, disk),
        finds(kind, canonical, from_dir, name, None, free),
        finds(kind, canonical, from_dir, name, Some(boundary), bounded),
    ensures
        bounded is Err || bounded == free,
{
    if crate::dependency::is_package_name(name) && bounded is Ok {
        let levels = crate::path::ascent(from_dir);
        let a = choose|seen: Seq<Look>|
            #[trigger] is_search(kind, canonical, levels, name, None, seen) && free
                == search_result(from_dir, name, None, seen);
        let b = choose|seen: Seq<Look>|
            #[trigger] is_search(kind, canonical, levels, name, Some(boundary), seen) && bounded
                == search_result(from_dir, name, Some(boundary), seen);
        lemma_searches_agree(kind, canonical, disk, levels, name, None, Some(boundary), a, b);
    }
}

/// Where no links lead away, the boundary decides by the path alone: with the package installed
/// at level `d` of the way up, and nearer nowhere, the unbounded search finds it there. The
/// bounded one fails where the start lies within the boundary and the level does not, and
/// otherwise finds it too.
pub proof fn law_a_boundary_decides_by_the_level<
    K: Fn(&str) -> PathKind,
    C: Fn(&str) -> Result<String, String>,
>(
    kind: K,
    canonical: C,
    disk: spec_fn(Text) -> PathKind,
    from_dir: Text,
    name: Text,
    boundary: Text,
    d: int,
    free: Result<Text, Text>,
    bounded: Result<Text, Text>,
)
    requires
        answers_by(kind, disk),
        is_without_links(canonical, from_dir),
        crate::path::is_absolute(from_dir),
        crate::dependency::is_package_name(name),
        0 <= d < crate::path::ascent(from_dir).len(),
        disk(install_path(crate::path::ascent(from_dir)[d], name)) == PathKind::Dir,
        forall|i: int|
            0 <= i < d ==> disk(install_path(#[trigger] crate::path::ascent(from_dir)[i], name))
                != PathKind::Dir,
        finds(kind, canonical, from_dir, name, None, free),
        finds(kind, canonical, from_dir, name, Some(boundary), bounded),
    ensures
        free == Ok::<Text, Text>(install_path(crate::path::ascent(from_dir)[d], name)),
        bounded == (if crate::path::lies_within(from_dir, boundary) && !crate::path::lies_within(
            crate::path::ascent(from_dir)[d],
            boundary,
        ) {
            Err(not_installed(from_dir, name, Some(boundary)))
        } else {
            free
        }),
{
    reveal_strlit("/");
    assert(from_dir.take(1)[0] == '/');
    let levels = crate::path::ascent(from_dir);
    let a = choose|seen: Seq<Look>|
        #[trigger] is_search(kind, canonical, levels, name, None, seen) && free == search_result(
            from_dir,
            name,
            None,
            seen,
        );
    let b = choose|seen: Seq<Look>|
        #[trigger] is_search(kind, canonical, levels, name, Some(boundary), seen) && bounded
            == search_result(from_dir, name, Some(boundary), seen);
    assert(a.len() == d + 1) by {
        if a.len() > d {
            assert(looks(kind, canonical, levels[d], name, None, a[d]));
            assert(is_end(a[d], None));
        } else {
            let m = a.len() - 1;
            assert(looks(kind, canonical, levels[m], name, None, a[m]));
            assert(disk(install_path(levels[m], name)) != PathKind::Dir);
        }
    }
    assert(looks(kind, canonical, levels[d], name, None, a[d]));
    let n = b.len() - 1;
    assert(b.len() <= d + 1) by {
        if b.len() > d {
            assert(looks(kind, canonical, levels[d], name, Some(boundary), b[d]));
            assert(is_end(b[d], Some(boundary)));
        }
    }
    assert(looks(kind, canonical, levels[n], name, Some(boundary), b[n]));
    assert(b[n].level == Some(levels[n]));
    if n < d {
        assert(disk(install_path(levels[n], name)) != PathKind::Dir);
        assert(levels[n] == boundary);
        crate::path::lemma_ascent_loses_segments(from_dir, n, d);
        crate::path::lemma_ascent_is_above(from_dir, n);
        assert(is_inside(b[n], boundary));
        assert(crate::path::lies_within(from_dir, boundary));
    } else if crate::path::lies_within(from_dir, boundary) {
        assert(looks(kind, canonical, levels[0], name, Some(boundary), b[0]));
        assert(is_inside(b[0], boundary));
    } else {
        assert forall|k: int| 0 <= k < b.len() implies !is_inside(#[trigger] b[k], boundary) by {
            assert(looks(kind, canonical, levels[k], name, Some(boundary), b[k]));
            crate::path::lemma_ascent_is_above(from_dir, k);
        }
    }
}

/// Two searches of the same levels, where the second finds the package and the first has no
/// boundary: they end at the same level.
proof fn lemma_searches_agree<
    K: Fn(&str) -> PathKind,
    C: Fn(&str) -> Result<String, String>,
>(
    kind: K,
    canonical: C,
    disk: spec_fn(Text) -> PathKind,
    levels: Seq<Text>,
    name: Text,
    none: Option<Text>,
    boundary: Option<Text>,
    a: Seq<Look>,
    b: Seq<Look>,
)
    requires
        none is None,
        answers_by(kind, disk),
        is_search(kind, canonical, levels, name, none, a),
        is_search(kind, canonical, levels, name, boundary, b),
        b.len() > 0,
        b.last().found == PathKind::Dir,
    ensures
        a.len() == b.len(),
        a.last().found == PathKind::Dir,
{
    let n = b.len() - 1;
    assert(looks(kind, canonical, levels[n], name, boundary, b[n]));
    assert(disk(install_path(levels[n], name)) == PathKind::Dir);
    if a.len() <= n {
        assert(a.len() > 0 && is_end(a.last(), none));
        let m = a.len() - 1;
        assert(looks(kind, canonical, levels[m], name, none, a[m]));
        assert(looks(kind, canonical, levels[m], name, boundary, b[m]));
        assert(is_end(b[m], boundary));
    } else {
        assert(looks(kind, canonical, levels[n], name, none, a[n]));
        assert(is_end(a[n], none));
    }
}

/// A package is installed in the `node_modules` of its level, under its name.
pub proof fn law_packages_lie_in_node_modules(level: Text, name: Text)
    requires
        name.len() > 0,
        name[0] != '/',
    ensures
        level.len() > 0 && level.last() != '/' ==> install_path(level, name) == level
            + "/node_modules/"@ + name,
        level.len() == 0 || level.last() == '/' ==> install_path(level, name) == level
            + "node_modules/"@ + name,
{
    reveal_strlit("/node_modules/");
    reveal_strlit("node_modules/");
    reveal_strlit("node_modules");
    crate::path::law_paths_are_followed_below(level, "node_modules"@);
    let holder = crate::path::joined_path(level, "node_modules"@);
    crate::path::law_paths_are_followed_below(holder, name);
    assert("node_modules"@.len() == 12);
    assert(holder.last() == "node_modules"@[11]);
    assert("node_modules"@[11] == 's');
    if level.len() > 0 && level.last() != '/' {
        assert(install_path(level, name) =~= level + "/node_modules/"@ + name);
    } else {
        assert(install_path(level, name) =~= level + "node_modules/"@ + name);
    }
}

/// A package that is installed at no level of the way up is not found, with a boundary or without.
pub proof fn law_missing_packages_are_not_found<
    K: Fn(&str) -> PathKind,
    C: Fn(&str) -> Result<String, String>,
>(
    kind: K,
    canonical: C,
    disk: spec_fn(Text) -> PathKind,
    from_dir: Text,
    name: Text,
    boundary: Option<Text>,
    found: Result<Text, Text>,
)
    requires
        answers_by(kind, disk),
        crate::dependency::is_package_name(name),
        forall|i: int|
            0 <= i < crate::path::ascent(from_dir).len() ==> disk(
                install_path(#[trigger] crate::path::ascent(from_dir)[i], name),
            ) != PathKind::Dir,
        finds(kind, canonical, from_dir, name, boundary, found),
    ensures
        found == Err::<Text, Text>(
            "package "@ + crate::text::quotation(name) + " is not installed in any node_modules "@
                + (match boundary {
                Some(b) => "between "@ + from_dir + " and "@ + b,
                None => "above "@ + from_dir,
            }),
        ),
{
    let levels = crate::path::ascent(from_dir);
    let seen = choose|seen: Seq<Look>|
        #[trigger] is_search(kind, canonical, levels, name, boundary, seen) && found
            == search_result(from_dir, name, boundary, seen);
    if seen.len() > 0 {
        let last = seen.len() - 1;
        assert(looks(kind, canonical, levels[last], name, boundary, seen[last]));
        assert(is_kind(kind, install_path(levels[last], name), seen[last].found));
    }
}

/// A reference means the same with `./` before it, and with separators before it.
pub proof fn law_references_are_direct(subpath: Text)
    requires
        subpath.len() == 0 || subpath[0] != '/',
        !crate::text::begins(subpath, "./"@),
    ensures
        direct(subpath) == subpath,
        direct("./"@ + subpath) == subpath,
        direct("/"@ + subpath) == subpath,
{
    reveal_strlit("./");
    reveal_strlit("/");
    let dotted = "./"@ + subpath;
    let rooted = "/"@ + subpath;
    assert(dotted.take(2) =~= "./"@);
    assert(dotted.skip(2) =~= subpath);
    assert(rooted.skip(1) =~= subpath);
    if crate::text::begins(rooted, "./"@) {
        assert(rooted.take(2)[0] == '/');
    }
    assert(rooted[0] == '/');
    assert(crate::text::without_leading(subpath, '/') =~= subpath);
    assert(crate::text::without_leading(rooted, '/') =~= subpath);
}

/// The one star of a pattern stands for what lies between the texts round it, and for something. A
/// pattern with no star, or with two, matches nothing.
pub proof fn law_stars_stand_for_what_lies_between(
    prefix: Text,
    suffix: Text,
    middle: Text,
    wanted: Text,
)
    requires
        !prefix.contains('*'),
        !suffix.contains('*'),
    ensures
        middle.len() > 0 ==> star_match(prefix + seq!['*'] + suffix, prefix + middle + suffix)
            == Some(middle),
        star_match(prefix + seq!['*'] + suffix, wanted) matches Some(held) ==> held.len() > 0
            && wanted == prefix + held + suffix,
        star_at(prefix + seq!['*'] + suffix) == prefix.len(),
        star_match(prefix, wanted) is None,
        star_match(prefix + seq!['*'] + middle + seq!['*'] + suffix, wanted) is None,
{
    reveal_strlit("*");
    assert("*"@ =~= seq!['*']);
    let pattern = prefix + seq!['*'] + suffix;
    crate::text::lemma_first_separator(prefix, "*"@, suffix);
    assert(pattern.take(prefix.len() as int) =~= prefix);
    assert(pattern.skip(prefix.len() as int + 1) =~= suffix);
    assert(star_parts(pattern) == Some((prefix, suffix)));
    let whole = prefix + middle + suffix;
    assert(whole.take(prefix.len() as int) =~= prefix);
    assert(whole.skip(whole.len() - suffix.len()) =~= suffix);
    assert(whole.subrange(prefix.len() as int, whole.len() - suffix.len()) =~= middle);
    if let Some(held) = star_match(pattern, wanted) {
        assert(wanted =~= wanted.take(prefix.len() as int) + held + wanted.skip(
            wanted.len() - suffix.len(),
        ));
    }
    crate::text::lemma_no_separator(prefix, "*"@);
    let rest = middle + seq!['*'] + suffix;
    let double = prefix + seq!['*'] + middle + seq!['*'] + suffix;
    assert(double =~= prefix + "*"@ + rest);
    crate::text::lemma_first_separator(prefix, "*"@, rest);
    assert(double.skip(prefix.len() as int + 1) =~= rest);
    assert(rest[middle.len() as int] == '*');
    assert(rest.contains('*'));
}

/// Of the patterns that match, the one with the most before its star is taken, and of several such
/// the first.
pub proof fn law_the_most_exact_pattern_is_taken(
    list: Seq<(Text, crate::json::JsonView)>,
    wanted: Text,
)
    ensures
        match best_pattern(list, wanted) {
            Some(best) => {
                &&& 0 <= best < list.len()
                &&& star_match(list[best].0, wanted) is Some
                &&& forall|i: int|
                    0 <= i < list.len() && star_match((#[trigger] list[i]).0, wanted) is Some
                        ==> star_at(list[i].0) <= star_at(list[best].0) && (i < best ==> star_at(
                        list[i].0,
                    ) < star_at(list[best].0))
            },
            None => forall|i: int|
                0 <= i < list.len() ==> star_match((#[trigger] list[i]).0, wanted) is None,
        },
    decreases list.len(),
{
    if list.len() > 0 {
        let shorter = list.drop_last();
        law_the_most_exact_pattern_is_taken(shorter, wanted);
        assert forall|i: int| 0 <= i < shorter.len() implies #[trigger] list[i] == shorter[i] by {}
        assert(list[list.len() - 1] == list.last());
    }
}

/// What an export leads to: the text that it is, or that it has for a browser, else for an import,
/// else by default.
pub proof fn law_exports_have_targets(export: crate::json::JsonView, target: Text)
    ensures
        export_target(crate::json::JsonView::Text(target)) == Some(target),
        !(export is Text) ==> export_target(export) == match crate::json::text_member(
            export,
            "browser"@,
        ) {
            Some(browser) => Some(browser),
            None => match crate::json::text_member(export, "import"@) {
                Some(import) => Some(import),
                None => crate::json::text_member(export, "default"@),
            },
        },
{
}

/// A target is a path in the package exactly where it begins with `./` and what follows is
/// contained; it is what follows.
pub proof fn law_targets_are_contained_paths(target: Text, path: Text)
    ensures
        crate::path::is_contained(path) ==> target_path("./"@ + path) == Some(path),
        !crate::path::is_contained(path) ==> target_path("./"@ + path) is None,
        !crate::text::begins(target, "./"@) ==> target_path(target) is None,
{
    reveal_strlit("./");
    let whole = "./"@ + path;
    assert(whole.take(2) =~= "./"@);
    assert(whole.skip(2) =~= path);
}

/// An export under the very name is what counts, whatever patterns there are.
pub proof fn law_exact_exports_come_first(
    list: Seq<(Text, crate::json::JsonView)>,
    wanted: Text,
)
    requires
        crate::json::find_member(list, wanted) is Some,
    ensures
        exported(list, wanted) == match export_target(crate::json::find_member(list, wanted)->0) {
            Some(target) => target_path(target),
            None => None,
        },
{
}

/// Without one, the most exact pattern that matches counts: in its target, what the star stood for
/// takes the place of the star.
pub proof fn law_patterns_fill_in_their_target(
    list: Seq<(Text, crate::json::JsonView)>,
    wanted: Text,
    best: int,
    middle: Text,
    head: Text,
    tail: Text,
)
    requires
        crate::json::find_member(list, wanted) is None,
        best_pattern(list, wanted) == Some(best),
        star_match(list[best].0, wanted) == Some(middle),
        !head.contains('*'),
        !tail.contains('*'),
    ensures
        export_target(list[best].1) == Some(head + seq!['*'] + tail) ==> exported(list, wanted)
            == target_path(head + middle + tail),
        export_target(list[best].1) == Some(head) ==> exported(list, wanted) == target_path(head),
{
    reveal_strlit("*");
    assert("*"@ =~= seq!['*']);
    crate::text::lemma_first_separator(head, "*"@, tail);
    crate::text::lemma_no_separator(head, "*"@);
    crate::text::lemma_no_separator(tail, "*"@);
    let target = head + seq!['*'] + tail;
    assert(target.take(head.len() as int) =~= head);
    assert(target.skip(head.len() as int + 1) =~= tail);
    assert(crate::text::pieces(tail, "*"@) =~= seq![tail]);
    assert(crate::text::pieces(head, "*"@) =~= seq![head]);
    assert(crate::text::pieces(target, "*"@) =~= seq![head] + seq![tail]);
    crate::text::law_joined_texts(seq![head], seq![tail], middle, head);
    crate::text::law_joined_texts(seq![head], seq![tail], middle, tail);
}

/// What no export names and no pattern matches leads nowhere.
pub proof fn law_what_is_not_exported_leads_nowhere(
    list: Seq<(Text, crate::json::JsonView)>,
    wanted: Text,
)
    requires
        crate::json::find_member(list, wanted) is None,
        forall|i: int| 0 <= i < list.len() ==> star_match((#[trigger] list[i]).0, wanted) is None,
    ensures
        exported(list, wanted) is None,
{
    law_the_most_exact_pattern_is_taken(list, wanted);
}

/// With exports, a reference is what they map it to; without, it is the path itself where that is
/// contained and not empty.
pub proof fn law_references_go_by_the_manifest(manifest: crate::json::JsonView, subpath: Text)
    ensures
        match crate::json::member(manifest, "exports"@) {
            Some(crate::json::JsonView::Object(list)) => asset(manifest, subpath) == exported(
                list,
                "./"@ + direct(subpath),
            ),
            Some(_) => asset(manifest, subpath) is None,
            None => asset(manifest, subpath) == if direct(subpath).len() > 0
                && crate::path::is_contained(direct(subpath)) {
                Some(direct(subpath))
            } else {
                None
            },
        },
{
}

/// What is said of a reference that leads nowhere: that it is not exported, or that it is not safe.
pub proof fn law_dead_references_say_why(
    name: Text,
    subpath: Text,
    manifest: crate::json::JsonView,
)
    ensures
        match asset(manifest, subpath) {
            Some(relative) => relative_in(name, subpath, manifest) == Ok::<Text, Text>(relative),
            None => relative_in(name, subpath, manifest) == Err::<Text, Text>(
                name + "/"@ + subpath + ": "@ + if crate::json::member(manifest, "exports"@)
                    is Some {
                    "not exported by "@ + name
                        + " (its package.json `exports` does not map this subpath)"@
                } else {
                    "refuses an unsafe or empty subpath"@
                },
            ),
        },
{
}

/// A file is found exactly where its reference leads somewhere below the package, both real paths
/// are known, the one lies within the other, and it is a file; it is the real path. Otherwise the
/// first of these that fails is what is said.
pub proof fn law_files_are_found(dir: Text, name: Text, subpath: Text, look: FileLook)
    ensures
        ({
            let relative = if look.manifest == PathKind::File {
                match crate::registry::reply_document(look.bytes) {
                    Ok(manifest) => relative_in(name, subpath, manifest),
                    Err(message) => Err(message),
                }
            } else {
                Ok(direct(subpath))
            };
            match file_result(dir, name, subpath, look) {
                Ok(file) => {
                    &&& relative is Ok && crate::path::is_contained(relative->Ok_0)
                    &&& look.root is Ok && look.target is Ok
                    &&& crate::path::lies_within(look.target->Ok_0@, look.root->Ok_0@)
                    &&& look.kind == PathKind::File
                    &&& file == look.target->Ok_0@
                },
                Err(message) => {
                    ||| relative is Err && message == relative->Err_0
                    ||| relative is Ok && !crate::path::is_contained(relative->Ok_0) && message
                        == "unsafe path "@ + crate::text::quotation(relative->Ok_0)
                    ||| look.root is Err && message == look.root->Err_0@
                    ||| look.target is Err && message == name + "/"@ + subpath + ": "@
                        + look.target->Err_0@
                    ||| look.root is Ok && look.target is Ok && !crate::path::lies_within(
                        look.target->Ok_0@,
                        look.root->Ok_0@,
                    ) && message == name + "/"@ + subpath + ": "@ + ("resolves outside "@ + name)
                    ||| look.kind != PathKind::File && message == name + "/"@ + subpath + ": "@
                        + "not a file in the package"@
                },
            }
        }),
{
}

/// What a file of an installed package is, on a filesystem that does not change: where its
/// manifest, or without one its path, leads below the package, and is really there.
pub proof fn law_package_files_are_what_is_there<
    K: Fn(&str) -> PathKind,
    C: Fn(&str) -> Result<String, String>,
    R: Fn(&str) -> Result<Vec<u8>, String>,
>(
    kind: K,
    canonical: C,
    read: R,
    disk: spec_fn(Text) -> PathKind,
    real_path: spec_fn(Text) -> Text,
    held: spec_fn(Text) -> Seq<u8>,
    dir: Text,
    name: Text,
    subpath: Text,
    file: Result<Text, Text>,
)
    requires
        finds_file(kind, canonical, read, Ok(dir), name, subpath, file),
        answers_by(kind, disk),
        crate::source::leads_by(canonical, real_path),
        reads_by(read, held),
    ensures
        ({
            let manifest = crate::path::joined_path(dir, "package.json"@);
            let relative = if disk(manifest) == PathKind::File {
                match crate::json::json_document(held(manifest)) {
                    Ok(doc) => relative_in(name, subpath, doc),
                    Err(message) => Err(message),
                }
            } else {
                Ok(direct(subpath))
            };
            let target = real_path(crate::path::joined_path(dir, relative->Ok_0));
            file == if relative is Err {
                relative
            } else if !crate::path::is_contained(relative->Ok_0) {
                Err("unsafe path "@ + crate::text::quotation(relative->Ok_0))
            } else if !crate::path::lies_within(target, real_path(dir)) {
                Err(file_fault(name, subpath, "resolves outside "@ + name))
            } else if disk(target) != PathKind::File {
                Err(file_fault(name, subpath, "not a file in the package"@))
            } else {
                Ok(target)
            }
        }),
{
    let look = choose|look: FileLook|
        #[trigger] is_look(kind, canonical, read, dir, name, subpath, look) && file == file_result(
            dir,
            name,
            subpath,
            look,
        );
    let manifest = crate::path::joined_path(dir, "package.json"@);
    assert(is_kind(kind, manifest, look.manifest));
    if look.manifest == PathKind::File {
        assert(is_read(read, manifest, look.bytes));
    }
    let candidate = candidate_of(dir, name, subpath, look);
    if candidate is Ok {
        assert(crate::source::resolves(canonical, dir, look.root));
        assert(crate::source::resolves(canonical, candidate->Ok_0, look.target));
    }
}

/// The filesystem, which does not change, holds these bytes in its files.
pub open spec fn reads_by<R: Fn(&str) -> Result<Vec<u8>, String>>(
    read: R,
    held: spec_fn(Text) -> Seq<u8>,
) -> bool {
    forall|path: Text, answer: Result<Vec<u8>, String>| #[trigger]
        is_read(read, path, answer) ==> answer is Ok && answer->Ok_0@ == held(path)
}

/// A package that is not found has no files.
pub proof fn law_missing_packages_have_no_files<
    K: Fn(&str) -> PathKind,
    C: Fn(&str) -> Result<String, String>,
    R: Fn(&str) -> Result<Vec<u8>, String>,
>(
    kind: K,
    canonical: C,
    read: R,
    fault: Text,
    name: Text,
    subpath: Text,
    file: Result<Text, Text>,
)
    requires
        finds_file(kind, canonical, read, Err(fault), name, subpath, file),
    ensures
        file == Err::<Text, Text>(fault),
{
}

/// A name that is none is refused, whatever is installed.
pub proof fn law_bad_names_are_not_looked_for<
    K: Fn(&str) -> PathKind,
    C: Fn(&str) -> Result<String, String>,
>(
    kind: K,
    canonical: C,
    from_dir: Text,
    name: Text,
    boundary: Option<Text>,
    found: Result<Text, Text>,
)
    requires
        !crate::dependency::is_package_name(name),
        finds(kind, canonical, from_dir, name, boundary, found),
    ensures
        found == Err::<Text, Text>("invalid package name "@ + crate::text::quotation(name)),
{
}

/// A result is what is wanted of it where both succeed with the same text or both fail with the
/// same message.
pub proof fn law_paths_are_told_in_full(r: Result<String, String>, wanted: Result<Text, Text>)
    ensures
        is_text(r, wanted) <==> match r {
            Ok(held) => wanted matches Ok(value) && held@ == value,
            Err(held) => wanted matches Err(message) && held@ == message,
        },
        is_text(r, wanted) <==> text_result(r) == wanted,
{
}

/// What is said of a path, and what is read at it, is what the filesystem has at just this path.
pub proof fn law_answers_are_about_the_path<
    K: Fn(&str) -> PathKind,
    R: Fn(&str) -> Result<Vec<u8>, String>,
>(kind: K, read: R, path: Text, answer: PathKind, bytes: Result<Vec<u8>, String>)
    ensures
        is_kind(kind, path, answer) ==> exists|p: &str|
            #[trigger] call_ensures(kind, (p,), answer) && p@ == path,
        is_read(read, path, bytes) ==> exists|p: &str|
            #[trigger] call_ensures(read, (p,), bytes) && p@ == path,
{
    if is_kind(kind, path, answer) {
        let p = choose|p: &str| p@ == path && #[trigger] call_ensures(kind, (p,), answer);
        assert(call_ensures(kind, (p,), answer));
    }
    if is_read(read, path, bytes) {
        let p = choose|p: &str| p@ == path && #[trigger] call_ensures(read, (p,), bytes);
        assert(call_ensures(read, (p,), bytes));
    }
}

}
