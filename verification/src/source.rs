//! The grammar of the command line's positional sources.
//!
//! One token names a local directory, a local `package.json` or `package-lock.json`, or a
//! registry package as `name=range`. Path markers always win, so `./lit=^3` names a file; and
//! `=`, which no package name holds, marks a package.

use crate::dependency::{split_name_range, validate_package_name, Range};
use crate::json::Json;
use crate::path::{file_name, is_within, join_path};
use crate::text::{
    after_prefix, begins_with, chars_of, has_char, quoted, same, skip_leading, split_once, trim,
    Text,
};
use vstd::prelude::*;
use vstd::string::*;

verus! {

/// A drive path (`X:\` or `X:/`) or a UNC path (`\\server`).
pub open spec fn is_windows_form(token: Text) -> bool {
    ||| {
        &&& token.len() >= 3
        &&& crate::dependency::is_letter(token[0])
        &&& token[1] == ':'
        &&& token[2] == '/' || token[2] == '\\'
    }
    ||| crate::text::begins(token, "\\\\"@)
}

/// `token` is written as a path: `.`, `..`, `~`, a leading `./`, `../`, `/` or `~/`, or a
/// Windows drive or UNC prefix.
pub open spec fn is_path_marked(token: Text) -> bool {
    ||| token == "."@
    ||| token == ".."@
    ||| token == "~"@
    ||| crate::text::begins(token, "./"@)
    ||| crate::text::begins(token, "../"@)
    ||| crate::text::begins(token, "/"@)
    ||| crate::text::begins(token, "~/"@)
    ||| is_windows_form(token)
}

/// Whether `token` is a Windows drive or UNC path. Recognized on every platform, so that a
/// token reads the same everywhere.
pub fn is_windows_path(token: &str) -> (r: bool)
    ensures
        r == is_windows_form(token@),
{
    let chars = chars_of(token);
    if chars.len() >= 3 {
        let first = chars[0];
        if (('a' <= first && first <= 'z') || ('A' <= first && first <= 'Z')) && chars[1] == ':'
            && (chars[2] == '/' || chars[2] == '\\') {
            return true;
        }
    }
    begins_with(token, "\\\\")
}

/// Whether `token` is written as a path.
pub fn has_path_marker(token: &str) -> (r: bool)
    ensures
        r == is_path_marked(token@),
{
    same(token, ".") || same(token, "..") || same(token, "~") || begins_with(token, "./")
        || begins_with(token, "../") || begins_with(token, "/") || begins_with(token, "~/")
        || is_windows_path(token)
}

/// How a bare token (no `=`, no path marker) reads.
#[derive(Debug, Clone, Copy, PartialEq, Eq)]
pub enum BareToken {
    /// A path; a package then needs its `=`.
    Path,
    /// A package: `name` for its latest release, or `name@range`.
    Spec,
}

/// What the filesystem says of a path.
#[derive(Debug, Clone, Copy, PartialEq, Eq)]
pub enum PathKind {
    Dir,
    File,
    Missing,
}

/// What a source file turned out to be.
#[derive(Debug, Clone, Copy, PartialEq, Eq)]
pub enum FileKind {
    Manifest,
    Lockfile,
}

/// A classified positional source.
#[derive(Debug, Clone, PartialEq, Eq)]
pub enum Source {
    /// An existing local directory.
    Dir(String),
    /// An existing local file.
    File(String),
    /// A registry package; without a range, its latest release.
    Spec { name: String, range: Option<String> },
}

/// The mathematical value of a [`Source`].
pub enum SourceView {
    Dir(Text),
    File(Text),
    Spec(Text, Option<Text>),
}

impl View for Source {
    type V = SourceView;

    open spec fn view(&self) -> SourceView {
        match *self {
            Source::Dir(path) => SourceView::Dir(path@),
            Source::File(path) => SourceView::File(path@),
            Source::Spec { name, range } => SourceView::Spec(
                name@,
                crate::text::optional_text(range),
            ),
        }
    }
}

/// `r` is `wanted`.
pub open spec fn is_outcome(r: Result<Source, String>, wanted: Result<SourceView, Text>) -> bool {
    match r {
        Ok(source) => wanted == Ok::<SourceView, Text>(source@),
        Err(message) => wanted == Err::<SourceView, Text>(message@),
    }
}

/// Why `name` is no registry package's name; `None` when it is one. An unscoped name has no `/`.
pub open spec fn spec_name_fault(name: Text) -> Option<Text> {
    if !crate::dependency::is_package_name(name) {
        Some(crate::dependency::name_fault(name))
    } else if !crate::text::begins(name, "@"@) && name.contains('/') {
        Some(
            "package name "@ + crate::text::quotation(name)
                + " contains '/' — scoped names start with '@'"@,
        )
    } else {
        None
    }
}

/// The range that `text` spells: its trimmed text, nothing for the latest release, or why it is
/// refused.
pub open spec fn range_or_latest(text: Text) -> Result<Option<Text>, Text> {
    let range = crate::text::trimmed(text);
    if range.len() == 0 {
        Ok(None)
    } else {
        match crate::dependency::range_of(range) {
            Ok(_) => Ok(Some(range)),
            Err(message) => Err(message),
        }
    }
}

/// The package that `name` and `range` spell; the name is judged first.
pub open spec fn package_source(name: Text, range: Text) -> Result<SourceView, Text> {
    match spec_name_fault(name) {
        Some(message) => Err(message),
        None => match range_or_latest(range) {
            Ok(range) => Ok(SourceView::Spec(name, range)),
            Err(message) => Err(message),
        },
    }
}

/// How a token reads before anything is looked up.
pub enum Reading {
    /// The outcome is settled.
    Settled(Result<SourceView, Text>),
    /// The token is a path to look up; a miss may point at the `name=range` form.
    Lookup { token: Text, hint: bool },
}

/// How `token` reads. Path markers come first, then `name=range` split at the first `=`, then
/// what `bare` says.
pub open spec fn reading(token: Text, bare: BareToken) -> Reading {
    let token = crate::text::trimmed(token);
    if token.len() == 0 {
        Reading::Settled(Err("empty source"@))
    } else if is_path_marked(token) {
        Reading::Lookup { token, hint: false }
    } else {
        match crate::text::first_occurrence(token, "="@) {
            Some(i) => Reading::Settled(
                package_source(token.take(i), token.skip(i + "="@.len())),
            ),
            None => match bare {
                BareToken::Path => Reading::Lookup { token, hint: true },
                BareToken::Spec => {
                    let (name, range) = crate::dependency::name_and_range(token);
                    if !crate::text::begins(name, "@"@) && name.contains('/') {
                        Reading::Settled(Err(directory_hint(token)))
                    } else {
                        Reading::Settled(
                            package_source(
                                name,
                                match range {
                                    Some(range) => range,
                                    None => ""@,
                                },
                            ),
                        )
                    }
                },
            },
        }
    }
}

/// What is said of a bare token that looks like a directory.
pub open spec fn directory_hint(token: Text) -> Text {
    crate::text::quotation(token) + " is not a package name — for a local directory use ./"@
        + token + " (directory sources aren't supported yet)"@
}

/// The path that `token` names once a leading `~` is expanded against `home`. What follows the
/// tilde lies below `home`, however many separators stand between. `~user` is left alone; a tilde
/// without a known home directory is refused.
pub open spec fn home_path(token: Text, home: Option<Text>) -> Result<Text, Text> {
    if !crate::text::begins(token, "~"@) {
        Ok(token)
    } else {
        let rest = token.skip("~"@.len() as int);
        if rest.len() > 0 && !crate::text::begins(rest, "/"@) {
            Ok(token)
        } else {
            match home {
                None => Err(
                    "cannot expand "@ + crate::text::quotation(token) + ": no home directory"@,
                ),
                Some(home) => if rest.len() == 0 {
                    Ok(home)
                } else {
                    Ok(crate::path::joined_path(home, crate::text::without_leading(rest, '/')))
                },
            }
        }
    }
}

/// The source at `path`, given what the filesystem answered for it.
pub open spec fn looked_up(
    token: Text,
    path: Text,
    answer: Result<PathKind, String>,
    hint: bool,
) -> Result<SourceView, Text> {
    match answer {
        Err(message) => Err(message@),
        Ok(PathKind::Dir) => Ok(SourceView::Dir(path)),
        Ok(PathKind::File) => Ok(SourceView::File(path)),
        Ok(PathKind::Missing) => Err(
            "source path "@ + crate::text::quotation(token) + (if hint {
                " does not exist (a package spec is written name=range, e.g. lit=^3)"@
            } else {
                " does not exist"@
            }),
        ),
    }
}

/// `answer` is what asking `probe` about `path` may give.
pub open spec fn answers<F: Fn(&str) -> Result<PathKind, String>>(
    probe: F,
    path: Text,
    answer: Result<PathKind, String>,
) -> bool {
    exists|p: &str| p@ == path && #[trigger] call_ensures(probe, (p,), answer)
}

/// `probe` can be asked where `token` has to be looked up. Of a token that is settled without a
/// lookup nothing is asked, so `probe` may then be one that cannot be called at all.
pub open spec fn can_look_up<F: Fn(&str) -> Result<PathKind, String>>(
    probe: F,
    token: Text,
    bare: BareToken,
) -> bool {
    !(reading(token, bare) is Settled) ==> forall|p: &str| #[trigger] call_requires(probe, (p,))
}

/// `r` is the source at `path`, for some answer that `probe` may give.
pub open spec fn is_lookup<F: Fn(&str) -> Result<PathKind, String>>(
    probe: F,
    token: Text,
    path: Text,
    hint: bool,
    r: Result<Source, String>,
) -> bool {
    exists|answer: Result<PathKind, String>|
        #[trigger] answers(probe, path, answer) && is_outcome(
            r,
            looked_up(token, path, answer, hint),
        )
}

/// `r` is what reading `token` gives: settled where nothing has to be looked up, else for some
/// answer that `probe` may give.
pub open spec fn is_parsed<F: Fn(&str) -> Result<PathKind, String>>(
    token: Text,
    bare: BareToken,
    home: Option<Text>,
    probe: F,
    r: Result<Source, String>,
) -> bool {
    match reading(token, bare) {
        Reading::Settled(wanted) => is_outcome(r, wanted),
        Reading::Lookup { token, hint } => match home_path(token, home) {
            Err(message) => is_outcome(r, Err(message)),
            Ok(path) => is_lookup(probe, token, path, hint, r),
        },
    }
}

impl Source {
    /// Read one positional token. `home` is the home directory and `probe` asks the filesystem
    /// what a path is; a token that does not read as a path is never looked up.
    pub fn parse_with<F: Fn(&str) -> Result<PathKind, String>>(
        token: &str,
        bare: BareToken,
        home: Option<String>,
        probe: &F,
    ) -> (r: Result<Source, String>)
        requires
            can_look_up(*probe, token@, bare),
        ensures
            is_parsed(token@, bare, crate::text::optional_text(home), *probe, r),
    {
        let trimmed = trim(token);
        let token = trimmed.as_str();
        if token.is_empty() {
            return Err("empty source".to_owned());
        }
        if has_path_marker(token) {
            return path_source(token, home, probe, false);
        }
        proof {
            reveal_strlit("=");
        }
        if let Some((name, range)) = split_once(token, "=") {
            return package(name, range.as_str());
        }
        match bare {
            BareToken::Path => path_source(token, home, probe, true),
            BareToken::Spec => {
                let (name, range) = split_name_range(token);
                if !begins_with(name.as_str(), "@") && has_char(name.as_str(), '/') {
                    let mut message = quoted(token);
                    message.append(" is not a package name — for a local directory use ./");
                    message.append(token);
                    message.append(" (directory sources aren't supported yet)");
                    return Err(message);
                }
                match range {
                    Some(range) => package(name, range.as_str()),
                    None => package(name, ""),
                }
            },
        }
    }
}

/// The package that `name` and `range` spell.
fn package(name: String, range: &str) -> (r: Result<Source, String>)
    ensures
        is_outcome(r, package_source(name@, range@)),
{
    match validate_spec_name(name.as_str()) {
        Err(message) => Err(message),
        Ok(()) => match validate_range(range) {
            Err(message) => Err(message),
            Ok(range) => Ok(Source::Spec { name, range }),
        },
    }
}

/// Accept a registry package's name or say why not.
pub fn validate_spec_name(name: &str) -> (r: Result<(), String>)
    ensures
        match r {
            Ok(_) => spec_name_fault(name@) is None,
            Err(message) => spec_name_fault(name@) == Some(message@),
        },
{
    if let Err(message) = validate_package_name(name) {
        return Err(message);
    }
    if !begins_with(name, "@") && has_char(name, '/') {
        let mut message = "package name ".to_owned();
        message.append(quoted(name).as_str());
        message.append(" contains '/' — scoped names start with '@'");
        return Err(message);
    }
    Ok(())
}

/// Accept a range as it is written, or say why not; an empty one means the latest release.
pub fn validate_range(range: &str) -> (r: Result<Option<String>, String>)
    ensures
        match r {
            Ok(range_text) => range_or_latest(range@) == Ok::<Option<Text>, Text>(
                crate::text::optional_text(range_text),
            ),
            Err(message) => range_or_latest(range@) == Err::<Option<Text>, Text>(message@),
        },
{
    let range = trim(range);
    if range.as_str().is_empty() {
        return Ok(None);
    }
    match Range::parse(range.as_str()) {
        Ok(_) => Ok(Some(range)),
        Err(message) => Err(message),
    }
}

/// Expand a leading tilde against `home`.
pub fn expand_home(token: &str, home: Option<String>) -> (r: Result<String, String>)
    ensures
        match r {
            Ok(path) => home_path(token@, crate::text::optional_text(home)) == Ok::<Text, Text>(
                path@,
            ),
            Err(message) => home_path(token@, crate::text::optional_text(home)) == Err::<
                Text,
                Text,
            >(message@),
        },
{
    match after_prefix(token, "~") {
        None => Ok(token.to_owned()),
        Some(rest) => {
            if !rest.as_str().is_empty() && !begins_with(rest.as_str(), "/") {
                return Ok(token.to_owned());
            }
            match home {
                None => {
                    let mut message = "cannot expand ".to_owned();
                    message.append(quoted(token).as_str());
                    message.append(": no home directory");
                    Err(message)
                },
                Some(home) => if rest.as_str().is_empty() {
                    Ok(home)
                } else {
                    Ok(join_path(home.as_str(), skip_leading(rest.as_str(), '/').as_str()))
                },
            }
        },
    }
}

/// Look `token` up as a path.
fn path_source<F: Fn(&str) -> Result<PathKind, String>>(
    token: &str,
    home: Option<String>,
    probe: &F,
    hint: bool,
) -> (r: Result<Source, String>)
    requires
        forall|p: &str| #[trigger] call_requires(*probe, (p,)),
    ensures
        match home_path(token@, crate::text::optional_text(home)) {
            Err(message) => is_outcome(r, Err(message)),
            Ok(path) => is_lookup(*probe, token@, path, hint, r),
        },
{
    match expand_home(token, home) {
        Err(message) => Err(message),
        Ok(path) => {
            let answer = probe(path.as_str());
            let ghost given = answer;
            assert(answers(*probe, path@, given));
            let ghost whole = path@;
            let r = match answer {
                Err(message) => Err(message),
                Ok(PathKind::Dir) => Ok(Source::Dir(path)),
                Ok(PathKind::File) => Ok(Source::File(path)),
                Ok(PathKind::Missing) => {
                    let mut message = "source path ".to_owned();
                    message.append(quoted(token).as_str());
                    if hint {
                        message.append(
                            " does not exist (a package spec is written name=range, e.g. lit=^3)",
                        );
                    } else {
                        message.append(" does not exist");
                    }
                    Err(message)
                },
            };
            assert(is_outcome(r, looked_up(token@, whole, given, hint)));
            r
        },
    }
}

/// What `verb` says of a source that is not a package; `None` for a package.
pub open spec fn spec_refusal(source: SourceView, verb: Text) -> Option<Text> {
    match source {
        SourceView::Spec(_, _) => None,
        SourceView::Dir(path) => Some(
            "directory source "@ + path + " isn't supported by `"@ + verb
                + "` yet — local directories as dependencies are a planned follow-up"@,
        ),
        SourceView::File(path) => Some(
            "file source "@ + path + " isn't supported by `"@ + verb
                + "` — only `audit` reads a package.json / package-lock.json path"@,
        ),
    }
}

impl Source {
    /// The package's name and range, for the verbs that take packages only; `verb` is named in
    /// the error for a path.
    pub fn into_spec(self, verb: &str) -> (r: Result<(String, Option<String>), String>)
        ensures
            match r {
                Ok((name, range)) => self@ == SourceView::Spec(
                    name@,
                    crate::text::optional_text(range),
                ),
                Err(message) => spec_refusal(self@, verb@) == Some(message@),
            },
            r is Ok <==> self@ is Spec,
    {
        match self {
            Source::Spec { name, range } => Ok((name, range)),
            Source::Dir(path) => {
                let mut message = "directory source ".to_owned();
                message.append(path.as_str());
                message.append(" isn't supported by `");
                message.append(verb);
                message.append(
                    "` yet — local directories as dependencies are a planned follow-up",
                );
                Err(message)
            },
            Source::File(path) => {
                let mut message = "file source ".to_owned();
                message.append(path.as_str());
                message.append(" isn't supported by `");
                message.append(verb);
                message.append("` — only `audit` reads a package.json / package-lock.json path");
                Err(message)
            },
        }
    }
}

/// What the file at `path` is, given the document it holds (`None` when it holds none). The
/// usual names decide alone; any other file is a lockfile when it has a `lockfileVersion`.
pub open spec fn kind_of_file(path: Text, doc: Option<crate::json::JsonView>) -> FileKind {
    match crate::path::entry_name(path) {
        Some(name) => if name == "package-lock.json"@ || name == "npm-shrinkwrap.json"@ {
            FileKind::Lockfile
        } else if name == "package.json"@ {
            FileKind::Manifest
        } else {
            kind_of_document(doc)
        },
        None => kind_of_document(doc),
    }
}

/// What a file of unknown name is, given the document it holds.
pub open spec fn kind_of_document(doc: Option<crate::json::JsonView>) -> FileKind {
    match doc {
        Some(doc) => if crate::json::member(doc, "lockfileVersion"@) is Some {
            FileKind::Lockfile
        } else {
            FileKind::Manifest
        },
        None => FileKind::Manifest,
    }
}

/// The document that `bytes` hold, if they hold one.
pub open spec fn document_in(bytes: Seq<u8>) -> Option<crate::json::JsonView> {
    match crate::json::json_document(bytes) {
        Ok(doc) => Some(doc),
        Err(_) => None,
    }
}

/// Tell a manifest from a lockfile: by the file's name, else by the document `text` holds.
pub fn classify_file(path: &str, text: &str) -> (r: FileKind)
    ensures
        r == kind_of_file(path@, document_in(vstd::utf8::encode_utf8(text@))),
{
    match Json::parse(text.as_bytes()) {
        Ok(doc) => classify_document(path, Some(doc)),
        Err(_) => classify_document(path, None),
    }
}

/// Tell a manifest from a lockfile, given the document that the file holds, if it holds one.
pub fn classify_document(path: &str, doc: Option<Json>) -> (r: FileKind)
    ensures
        r == kind_of_file(
            path@,
            match doc {
                Some(json) => Some(json@),
                None => None,
            },
        ),
{
    if let Some(name) = file_name(path) {
        let name = name.as_str();
        if same(name, "package-lock.json") || same(name, "npm-shrinkwrap.json") {
            return FileKind::Lockfile;
        }
        if same(name, "package.json") {
            return FileKind::Manifest;
        }
    }
    match doc {
        Some(json) => match json.get("lockfileVersion") {
            Some(_) => FileKind::Lockfile,
            None => FileKind::Manifest,
        },
        None => FileKind::Manifest,
    }
}

/// `answer` is what asking `canonical` for the real path of `path` may give.
pub open spec fn resolves<G: Fn(&str) -> Result<String, String>>(
    canonical: G,
    path: Text,
    answer: Result<String, String>,
) -> bool {
    exists|p: &str| p@ == path && #[trigger] call_ensures(canonical, (p,), answer)
}

/// What is said of a file that resolves outside its directory.
pub open spec fn escape_fault(file: Text, target: Text) -> Text {
    file + " resolves outside its source directory (to "@ + target + ")"@
}

/// The file at `file`, given what the filesystem answered: what it is, its real path, and its
/// directory's real path.
pub open spec fn containment(
    file: Text,
    kind: Result<PathKind, String>,
    file_real: Result<String, String>,
    dir_real: Result<String, String>,
) -> Result<Option<Text>, Text> {
    match kind {
        Err(message) => Err(message@),
        Ok(PathKind::Missing) => Ok(None),
        Ok(_) => match file_real {
            Err(message) => Err(message@),
            Ok(file_real) => match dir_real {
                Err(message) => Err(message@),
                Ok(dir_real) => if crate::path::lies_within(file_real@, dir_real@) {
                    Ok(Some(file))
                } else {
                    Err(escape_fault(file, file_real@))
                },
            },
        },
    }
}

/// The filesystem was asked what the file `name` of `dir` is and, where there is something, for
/// its real path and then for its directory's.
pub open spec fn consulted<
    F: Fn(&str) -> Result<PathKind, String>,
    G: Fn(&str) -> Result<String, String>,
>(
    probe: F,
    canonical: G,
    dir: Text,
    name: Text,
    kind: Result<PathKind, String>,
    file_real: Result<String, String>,
    dir_real: Result<String, String>,
) -> bool {
    let file = crate::path::joined_path(dir, name);
    let present = kind is Ok && kind != Ok::<PathKind, String>(PathKind::Missing);
    &&& answers(probe, file, kind)
    &&& present ==> resolves(canonical, file, file_real)
    &&& present && file_real is Ok ==> resolves(canonical, dir, dir_real)
}

/// `r` is the file called `name` in `dir`, for some answers that the filesystem may give.
pub open spec fn finds_contained<
    F: Fn(&str) -> Result<PathKind, String>,
    G: Fn(&str) -> Result<String, String>,
>(probe: F, canonical: G, dir: Text, name: Text, r: Result<Option<Text>, Text>) -> bool {
    exists|
        kind: Result<PathKind, String>,
        file_real: Result<String, String>,
        dir_real: Result<String, String>,
    |
        #[trigger] consulted(probe, canonical, dir, name, kind, file_real, dir_real) && r
            == containment(crate::path::joined_path(dir, name), kind, file_real, dir_real)
}

/// The value of an outcome.
pub open spec fn file_outcome(r: Result<Option<String>, String>) -> Result<Option<Text>, Text> {
    match r {
        Ok(file) => Ok(crate::text::optional_text(file)),
        Err(message) => Err(message@),
    }
}

/// The file called `name` in the directory `dir`; `None` when there is none. `probe` says what a
/// path is and `canonical` what its real path is. The file may be a link, but only one that
/// resolves inside the directory.
pub fn contained_file<
    F: Fn(&str) -> Result<PathKind, String>,
    G: Fn(&str) -> Result<String, String>,
>(dir: &str, name: &str, probe: &F, canonical: &G) -> (r: Result<Option<String>, String>)
    requires
        forall|p: &str| #[trigger] call_requires(*probe, (p,)),
        forall|p: &str| #[trigger] call_requires(*canonical, (p,)),
    ensures
        finds_contained(*probe, *canonical, dir@, name@, file_outcome(r)),
{
    let file = join_path(dir, name);
    let kind = probe(file.as_str());
    let ghost k = kind;
    assert(answers(*probe, file@, k));
    let ghost mut f: Result<String, String> = Err(file);
    let ghost mut d: Result<String, String> = Err(file);
    let r = match kind {
        Err(message) => Err(message),
        Ok(PathKind::Missing) => Ok(None),
        Ok(_) => {
            let file_real = canonical(file.as_str());
            proof {
                f = file_real;
            }
            assert(resolves(*canonical, file@, f));
            match file_real {
                Err(message) => Err(message),
                Ok(file_real) => {
                    let dir_real = canonical(dir);
                    proof {
                        d = dir_real;
                    }
                    assert(resolves(*canonical, dir@, d));
                    match dir_real {
                        Err(message) => Err(message),
                        Ok(dir_real) => {
                            if is_within(file_real.as_str(), dir_real.as_str()) {
                                Ok(Some(join_path(dir, name)))
                            } else {
                                let mut message = join_path(dir, name);
                                message.append(" resolves outside its source directory (to ");
                                message.append(file_real.as_str());
                                message.append(")");
                                Err(message)
                            }
                        },
                    }
                },
            }
        },
    };
    assert(file_outcome(r) == containment(file@, k, f, d));
    assert(consulted(*probe, *canonical, dir@, name@, k, f, d));
    r
}

// ---------------------------------------------------------------------------
// Laws
// ---------------------------------------------------------------------------

/// A path marker wins over everything: a marked token is looked up as a path, however much it
/// looks like a package and whatever a bare token would mean.
pub proof fn law_path_markers_win(token: Text, bare: BareToken)
    requires
        is_path_marked(crate::text::trimmed(token)),
    ensures
        reading(token, bare) == (Reading::Lookup {
            token: crate::text::trimmed(token),
            hint: false,
        }),
{
    reveal_strlit(".");
    reveal_strlit("..");
    reveal_strlit("~");
    reveal_strlit("./");
    reveal_strlit("../");
    reveal_strlit("/");
    reveal_strlit("~/");
    reveal_strlit("\\\\");
    assert(crate::text::trimmed(token).len() > 0);
}

/// Without a path marker, a verb that takes packages never looks anything up: no answer of the
/// filesystem can turn a package into a path.
pub proof fn law_packages_are_not_looked_up(token: Text)
    requires
        !is_path_marked(crate::text::trimmed(token)),
    ensures
        reading(token, BareToken::Spec) is Settled,
{
}

/// A marked token's outcome never is a package.
pub proof fn law_lookups_give_paths(
    token: Text,
    path: Text,
    answer: Result<PathKind, String>,
    hint: bool,
)
    ensures
        !(looked_up(token, path, answer, hint) matches Ok(SourceView::Spec(_, _))),
        answer is Err ==> looked_up(token, path, answer, hint) == Err::<SourceView, Text>(
            answer->Err_0@,
        ),
{
}

/// A tilde means the home directory: what follows it lies below, with the segments that are
/// written, however many separators stand between.
pub proof fn law_home_paths_lie_below_home(rest: Text, home: Text)
    requires
        rest.len() == 0 || rest[0] == '/',
    ensures
        home_path("~"@ + rest, Some(home)) matches Ok(path) && crate::path::lies_within(path, home)
            && crate::path::segments(path) == crate::path::segments(home) + crate::path::segments(
            crate::text::without_leading(rest, '/'),
        ),
{
    reveal_strlit("~");
    reveal_strlit("/");
    let token = "~"@ + rest;
    assert(token.take(1) == "~"@);
    assert(token.skip(1) == rest);
    if rest.len() == 0 {
        assert(rest == Seq::<char>::empty());
        assert(crate::text::without_leading(rest, '/') == rest);
        crate::path::lemma_no_segments();
        assert(home_path(token, Some(home)) == Ok::<Text, Text>(home));
        assert(crate::path::segments(home) + Seq::<Text>::empty() == crate::path::segments(home));
        assert(crate::path::segments(home).subrange(0, crate::path::segments(home).len() as int)
            == crate::path::segments(home));
    } else {
        assert(rest.take(1) == "/"@);
        let below = crate::text::without_leading(rest, '/');
        lemma_without_leading(rest, '/');
        assert(!crate::path::is_absolute(below)) by {
            if crate::path::is_absolute(below) {
                assert(below.take(1)[0] == '/');
            }
        }
        crate::path::lemma_segments_of_joined(home, below);
        assert(home_path(token, Some(home)) == Ok::<Text, Text>(
            crate::path::joined_path(home, below),
        ));
        let whole = crate::path::segments(home) + crate::path::segments(below);
        assert(whole.subrange(0, crate::path::segments(home).len() as int)
            == crate::path::segments(home));
    }
}

proof fn lemma_without_leading(text: Text, c: char)
    ensures
        ({
            let rest = crate::text::without_leading(text, c);
            rest.len() > 0 ==> rest[0] != c
        }),
    decreases text.len(),
{
    if text.len() > 0 && text[0] == c {
        lemma_without_leading(text.skip(1), c);
    }
}

/// What is written as a path: a dot, two dots or a tilde, alone or before a separator; a leading
/// separator; a letter, a colon and a separator of either sort; and two backslashes. Nothing else
/// is.
pub proof fn law_path_marks(token: Text)
    ensures
        is_path_marked(token) <==> {
            ||| token == seq!['.']
            ||| token == seq!['.', '.']
            ||| token == seq!['~']
            ||| token.len() >= 1 && token[0] == '/'
            ||| token.len() >= 2 && (token[0] == '.' || token[0] == '~') && token[1] == '/'
            ||| token.len() >= 3 && token[0] == '.' && token[1] == '.' && token[2] == '/'
            ||| token.len() >= 2 && token[0] == '\\' && token[1] == '\\'
            ||| token.len() >= 3 && ('a' <= token[0] <= 'z' || 'A' <= token[0] <= 'Z') && token[1]
                == ':' && (token[2] == '/' || token[2] == '\\')
        },
{
    reveal_strlit(".");
    reveal_strlit("..");
    reveal_strlit("~");
    reveal_strlit("./");
    reveal_strlit("../");
    reveal_strlit("/");
    reveal_strlit("~/");
    reveal_strlit("\\\\");
    assert("."@ =~= seq!['.']);
    assert(".."@ =~= seq!['.', '.']);
    assert("~"@ =~= seq!['~']);
    lemma_begins_with(token, "/"@);
    lemma_begins_with(token, "./"@);
    lemma_begins_with(token, "../"@);
    lemma_begins_with(token, "~/"@);
    lemma_begins_with(token, "\\\\"@);
}

proof fn lemma_begins_with(text: Text, prefix: Text)
    requires
        1 <= prefix.len() <= 3,
    ensures
        crate::text::begins(text, prefix) <==> {
            &&& prefix.len() <= text.len()
            &&& text[0] == prefix[0]
            &&& prefix.len() > 1 ==> text[1] == prefix[1]
            &&& prefix.len() > 2 ==> text[2] == prefix[2]
        },
{
    if prefix.len() <= text.len() {
        let start = text.take(prefix.len() as int);
        assert(start[0] == text[0]);
        assert(prefix.len() > 1 ==> start[1] == text[1]);
        assert(prefix.len() > 2 ==> start[2] == text[2]);
        if crate::text::begins(text, prefix) {
        } else if text[0] == prefix[0] && (prefix.len() > 1 ==> text[1] == prefix[1]) && (
        prefix.len() > 2 ==> text[2] == prefix[2]) {
            assert(start =~= prefix);
        }
    }
}

/// A name before an equals sign and a range behind it are a package, whatever a bare token would
/// mean.
pub proof fn law_equals_signs_part_names_from_ranges(name: Text, range: Text, bare: BareToken)
    requires
        !name.contains('='),
        crate::text::trimmed(name + seq!['='] + range) == name + seq!['='] + range,
        !is_path_marked(name + seq!['='] + range),
    ensures
        reading(name + seq!['='] + range, bare) == Reading::Settled(package_source(name, range)),
{
    reveal_strlit("=");
    assert("="@ =~= seq!['=']);
    let token = name + seq!['='] + range;
    crate::text::lemma_first_separator(name, "="@, range);
    assert(token.take(name.len() as int) =~= name);
    assert(token.skip(name.len() as int + 1) =~= range);
}

/// A bare token is looked up by the verbs that take paths. To the others it is a package, its
/// range behind the last `@` that is not a scope's; one that is shaped like a path is refused.
pub proof fn law_bare_tokens(token: Text)
    requires
        token.len() > 0,
        crate::text::trimmed(token) == token,
        !is_path_marked(token),
        !token.contains('='),
    ensures
        reading(token, BareToken::Path) == (Reading::Lookup { token, hint: true }),
        ({
            let (name, range) = crate::dependency::name_and_range(token);
            reading(token, BareToken::Spec) == if name.contains('/') && name[0] != '@' {
                Reading::Settled(Err(directory_hint(token)))
            } else {
                match range {
                    Some(range) => Reading::Settled(package_source(name, range)),
                    None => Reading::Settled(package_source(name, Seq::empty())),
                }
            }
        }),
{
    reveal_strlit("=");
    reveal_strlit("@");
    reveal_strlit("");
    assert(""@ =~= Seq::<char>::empty());
    crate::text::lemma_no_separator(token, "="@);
    let (name, range) = crate::dependency::name_and_range(token);
    lemma_begins_with(name, "@"@);
}

/// Nothing is no source.
pub proof fn law_empty_tokens_are_refused(token: Text, bare: BareToken)
    requires
        crate::text::trimmed(token).len() == 0,
    ensures
        reading(token, bare) == Reading::Settled(Err("empty source"@)),
{
}

/// A package is given by a valid name, with a `/` only where it is scoped, and by a range or
/// nothing; white space round the range does not count.
pub proof fn law_packages_need_a_name_and_a_range(name: Text, range: Text)
    ensures
        ({
            let named = crate::dependency::is_package_name(name) && (!name.contains('/') || name[0]
                == '@');
            let wanted = crate::text::trimmed(range);
            match package_source(name, range) {
                Ok(SourceView::Spec(held, asked)) => {
                    &&& named
                    &&& held == name
                    &&& asked == if wanted.len() == 0 {
                        None
                    } else {
                        Some(wanted)
                    }
                    &&& wanted.len() > 0 ==> crate::dependency::range_of(wanted) is Ok
                },
                Ok(_) => false,
                Err(message) => if !named {
                    message == spec_name_fault(name)->0
                } else {
                    wanted.len() > 0 && crate::dependency::range_of(wanted) == Err::<
                        Seq<Text>,
                        Text,
                    >(message)
                },
            }
        }),
{
    reveal_strlit("@");
    lemma_begins_with(name, "@"@);
}

/// What is said of a name: that it is none, or that only scoped names have a `/`.
pub proof fn law_bad_names_are_told_apart(name: Text)
    ensures
        spec_name_fault(name) is None <==> crate::dependency::is_package_name(name) && (
        !name.contains('/') || name[0] == '@'),
        !crate::dependency::is_package_name(name) ==> spec_name_fault(name) == Some(
            "invalid package name "@ + crate::text::quotation(name),
        ),
        crate::dependency::is_package_name(name) && spec_name_fault(name) is Some
            ==> spec_name_fault(name) == Some(
            "package name "@ + crate::text::quotation(name)
                + " contains '/' — scoped names start with '@'"@,
        ),
{
    reveal_strlit("@");
    lemma_begins_with(name, "@"@);
}

/// Only a tilde that stands alone or before a separator means the home directory, and then there
/// has to be one; every other path stays as it is written.
pub proof fn law_only_tildes_mean_home(token: Text, home: Option<Text>)
    ensures
        token.len() == 0 || token[0] != '~' || token.len() > 1 && token[1] != '/' ==> home_path(
            token,
            home,
        ) == Ok::<Text, Text>(token),
        token.len() > 0 && token[0] == '~' && (token.len() == 1 || token[1] == '/') ==> match home {
            None => home_path(token, home) is Err,
            Some(home_dir) => home_path(token, home) == Ok::<Text, Text>(
                if token.len() == 1 {
                    home_dir
                } else {
                    crate::path::joined_path(
                        home_dir,
                        crate::text::without_leading(token.skip(1), '/'),
                    )
                },
            ),
        },
{
    reveal_strlit("~");
    reveal_strlit("/");
    lemma_begins_with(token, "~"@);
    if token.len() > 0 {
        let rest = token.skip(1);
        lemma_begins_with(rest, "/"@);
        if token.len() > 1 {
            assert(rest[0] == token[1]);
        }
    }
}

/// A path that is looked up is what the filesystem says it is, under the path that was asked for.
pub proof fn law_lookups_say_what_is_there(token: Text, path: Text, hint: bool)
    ensures
        looked_up(token, path, Ok(PathKind::Dir), hint) == Ok::<SourceView, Text>(
            SourceView::Dir(path),
        ),
        looked_up(token, path, Ok(PathKind::File), hint) == Ok::<SourceView, Text>(
            SourceView::File(path),
        ),
        looked_up(token, path, Ok(PathKind::Missing), false) == Err::<SourceView, Text>(
            "source path "@ + crate::text::quotation(token) + " does not exist"@,
        ),
        looked_up(token, path, Ok(PathKind::Missing), true) == Err::<SourceView, Text>(
            "source path "@ + crate::text::quotation(token)
                + " does not exist (a package spec is written name=range, e.g. lit=^3)"@,
        ),
{
}

/// The usual names tell lockfiles from manifests, in whatever directory and whatever they hold;
/// a file of another name is a lockfile exactly where it holds a `lockfileVersion`.
pub proof fn law_files_are_told_apart(
    head: Text,
    name: Text,
    doc: Option<crate::json::JsonView>,
)
    requires
        !name.contains('/'),
        name.len() > 0,
        name != seq!['.'],
        name != seq!['.', '.'],
    ensures
        ({
            let kind = kind_of_file(head + seq!['/'] + name, doc);
            &&& kind == kind_of_file(name, doc)
            &&& name == "package-lock.json"@ || name == "npm-shrinkwrap.json"@ ==> kind
                == FileKind::Lockfile
            &&& name == "package.json"@ ==> kind == FileKind::Manifest
            &&& name != "package-lock.json"@ && name != "npm-shrinkwrap.json"@ && name
                != "package.json"@ ==> kind == if doc is Some && crate::json::member(
                doc->0,
                "lockfileVersion"@,
            ) is Some {
                FileKind::Lockfile
            } else {
                FileKind::Manifest
            }
        }),
{
    crate::path::law_paths_are_called_by_their_end(head, name);
    reveal_strlit("package-lock.json");
    reveal_strlit("npm-shrinkwrap.json");
    reveal_strlit("package.json");
    assert("package.json"@.len() == 12);
    assert("package-lock.json"@.len() == 17);
    assert("npm-shrinkwrap.json"@.len() == 19);
}

/// The documents are those that the bytes hold.
pub proof fn law_files_hold_documents(bytes: Seq<u8>)
    ensures
        match crate::json::json_document(bytes) {
            Ok(doc) => document_in(bytes) == Some(doc),
            Err(_) => document_in(bytes) is None,
        },
{
}

/// A file of a directory is used exactly where it is there, its real path and the directory's are
/// known and the one lies within the other. One that is not there is no fault; everything else is.
pub proof fn law_only_contained_files_are_used(
    file: Text,
    kind: Result<PathKind, String>,
    file_real: Result<String, String>,
    dir_real: Result<String, String>,
)
    ensures
        match containment(file, kind, file_real, dir_real) {
            Ok(Some(path)) => {
                &&& path == file
                &&& kind == Ok::<PathKind, String>(PathKind::File) || kind == Ok::<
                    PathKind,
                    String,
                >(PathKind::Dir)
                &&& file_real is Ok && dir_real is Ok
                &&& crate::path::lies_within(file_real->Ok_0@, dir_real->Ok_0@)
            },
            Ok(None) => kind == Ok::<PathKind, String>(PathKind::Missing),
            Err(message) => match kind {
                Err(fault) => message == fault@,
                Ok(_) => {
                    &&& kind != Ok::<PathKind, String>(PathKind::Missing)
                    &&& match (file_real, dir_real) {
                        (Err(fault), _) => message == fault@,
                        (Ok(_), Err(fault)) => message == fault@,
                        (Ok(held), Ok(dir)) => !crate::path::lies_within(held@, dir@) && message
                            == escape_fault(file, held@),
                    }
                },
            },
        },
{
}

/// The verbs that take packages refuse directories and files, and nothing else.
pub proof fn law_verbs_refuse_what_is_no_package(source: SourceView, verb: Text)
    ensures
        spec_refusal(source, verb) is None <==> source is Spec,
        source matches SourceView::Dir(path) ==> spec_refusal(source, verb) == Some(
            "directory source "@ + path + " isn't supported by `"@ + verb
                + "` yet — local directories as dependencies are a planned follow-up"@,
        ),
        source matches SourceView::File(path) ==> spec_refusal(source, verb) == Some(
            "file source "@ + path + " isn't supported by `"@ + verb
                + "` — only `audit` reads a package.json / package-lock.json path"@,
        ),
{
}

/// A source is what is wanted of it where both succeed with the same value or both fail with the
/// same message.
pub proof fn law_sources_are_told_in_full(
    r: Result<Source, String>,
    wanted: Result<SourceView, Text>,
    file: Result<Option<String>, String>,
)
    ensures
        is_outcome(r, wanted) <==> match r {
            Ok(source) => wanted matches Ok(value) && source@ == value,
            Err(held) => wanted matches Err(message) && held@ == message,
        },
        match file {
            Ok(Some(path)) => file_outcome(file) == Ok::<Option<Text>, Text>(Some(path@)),
            Ok(None) => file_outcome(file) == Ok::<Option<Text>, Text>(None),
            Err(message) => file_outcome(file) == Err::<Option<Text>, Text>(message@),
        },
{
}

/// The filesystem, which does not change, has `disk` at its paths.
pub open spec fn has_at<F: Fn(&str) -> Result<PathKind, String>>(
    probe: F,
    disk: spec_fn(Text) -> PathKind,
) -> bool {
    forall|path: Text, answer: Result<PathKind, String>| #[trigger]
        answers(probe, path, answer) ==> answer == Ok::<PathKind, String>(disk(path))
}

/// The filesystem, which does not change, leads by its links from each path to its real one.
pub open spec fn leads_by<G: Fn(&str) -> Result<String, String>>(
    canonical: G,
    real_path: spec_fn(Text) -> Text,
) -> bool {
    forall|path: Text, answer: Result<String, String>| #[trigger]
        resolves(canonical, path, answer) ==> answer is Ok && answer->Ok_0@ == real_path(path)
}

/// A token that is written as a path is what the filesystem has there.
pub proof fn law_paths_are_what_is_there<F: Fn(&str) -> Result<PathKind, String>>(
    token: Text,
    bare: BareToken,
    home: Option<Text>,
    probe: F,
    disk: spec_fn(Text) -> PathKind,
    path: Text,
    r: Result<Source, String>,
)
    requires
        is_parsed(token, bare, home, probe, r),
        has_at(probe, disk),
        is_path_marked(crate::text::trimmed(token)),
        home_path(crate::text::trimmed(token), home) == Ok::<Text, Text>(path),
    ensures
        disk(path) == PathKind::Dir ==> (r matches Ok(source) && source@ == SourceView::Dir(path)),
        disk(path) == PathKind::File ==> (r matches Ok(source) && source@ == SourceView::File(
            path,
        )),
        disk(path) == PathKind::Missing ==> (r matches Err(message) && message@ == "source path "@
            + crate::text::quotation(crate::text::trimmed(token)) + " does not exist"@),
{
    law_path_markers_win(token, bare);
    let marked = crate::text::trimmed(token);
    let answer = choose|answer: Result<PathKind, String>|
        #[trigger] answers(probe, path, answer) && is_outcome(
            r,
            looked_up(marked, path, answer, false),
        );
    assert(answers(probe, path, answer));
}

/// A file of a directory is found where there is something and it really lies in the directory; it
/// is refused where it lies elsewhere.
pub proof fn law_files_are_found_in_their_directory<
    F: Fn(&str) -> Result<PathKind, String>,
    G: Fn(&str) -> Result<String, String>,
>(
    probe: F,
    canonical: G,
    disk: spec_fn(Text) -> PathKind,
    real_path: spec_fn(Text) -> Text,
    dir: Text,
    name: Text,
    r: Result<Option<Text>, Text>,
)
    requires
        finds_contained(probe, canonical, dir, name, r),
        has_at(probe, disk),
        leads_by(canonical, real_path),
    ensures
        ({
            let file = crate::path::joined_path(dir, name);
            r == if disk(file) == PathKind::Missing {
                Ok::<Option<Text>, Text>(None)
            } else if crate::path::lies_within(real_path(file), real_path(dir)) {
                Ok(Some(file))
            } else {
                Err(
                    file + " resolves outside its source directory (to "@ + real_path(file)
                        + ")"@,
                )
            }
        }),
{
    let file = crate::path::joined_path(dir, name);
    let (kind, file_real, dir_real) = choose|
        kind: Result<PathKind, String>,
        file_real: Result<String, String>,
        dir_real: Result<String, String>,
    |
        #[trigger] consulted(probe, canonical, dir, name, kind, file_real, dir_real) && r
            == containment(file, kind, file_real, dir_real);
    assert(answers(probe, file, kind));
    if disk(file) != PathKind::Missing {
        assert(resolves(canonical, file, file_real));
        assert(resolves(canonical, dir, dir_real));
    }
}

/// What is said of a path is what the filesystem says of just this path.
pub proof fn law_answers_are_about_the_path<
    F: Fn(&str) -> Result<PathKind, String>,
    G: Fn(&str) -> Result<String, String>,
>(
    probe: F,
    canonical: G,
    path: Text,
    answer: Result<PathKind, String>,
    target: Result<String, String>,
)
    ensures
        answers(probe, path, answer) ==> exists|p: &str|
            #[trigger] call_ensures(probe, (p,), answer) && p@ == path,
        resolves(canonical, path, target) ==> exists|p: &str|
            #[trigger] call_ensures(canonical, (p,), target) && p@ == path,
{
    if answers(probe, path, answer) {
        let p = choose|p: &str| p@ == path && #[trigger] call_ensures(probe, (p,), answer);
        assert(call_ensures(probe, (p,), answer));
    }
    if resolves(canonical, path, target) {
        let p = choose|p: &str| p@ == path && #[trigger] call_ensures(canonical, (p,), target);
        assert(call_ensures(canonical, (p,), target));
    }
}

/// What a token comes to: where nothing has to be looked up, what it reads as; a path that needs a
/// home directory where none is known is refused.
pub proof fn law_tokens_come_to_what_they_read_as<F: Fn(&str) -> Result<PathKind, String>>(
    token: Text,
    bare: BareToken,
    home: Option<Text>,
    probe: F,
    r: Result<Source, String>,
)
    requires
        is_parsed(token, bare, home, probe, r),
    ensures
        match reading(token, bare) {
            Reading::Settled(Ok(wanted)) => r matches Ok(source) && source@ == wanted,
            Reading::Settled(Err(fault)) => r matches Err(message) && message@ == fault,
            Reading::Lookup { token, .. } => home_path(token, home) matches Err(fault) ==> (
            r matches Err(message) && message@ == fault),
        },
{
}

/// A bare token of the verbs that take paths is what the filesystem has there; where there is
/// nothing, how a package is written is said too.
pub proof fn law_bare_paths_are_what_is_there<F: Fn(&str) -> Result<PathKind, String>>(
    token: Text,
    home: Option<Text>,
    probe: F,
    disk: spec_fn(Text) -> PathKind,
    r: Result<Source, String>,
)
    requires
        is_parsed(token, BareToken::Path, home, probe, r),
        has_at(probe, disk),
        token.len() > 0,
        crate::text::trimmed(token) == token,
        !is_path_marked(token),
        !token.contains('='),
        token[0] != '~',
    ensures
        disk(token) == PathKind::Dir ==> (r matches Ok(source) && source@ == SourceView::Dir(
            token,
        )),
        disk(token) == PathKind::File ==> (r matches Ok(source) && source@ == SourceView::File(
            token,
        )),
        disk(token) == PathKind::Missing ==> (r matches Err(message) && message@ == "source path "@
            + crate::text::quotation(token)
            + " does not exist (a package spec is written name=range, e.g. lit=^3)"@),
{
    law_bare_tokens(token);
    law_only_tildes_mean_home(token, home);
    let answer = choose|answer: Result<PathKind, String>|
        #[trigger] answers(probe, token, answer) && is_outcome(
            r,
            looked_up(token, token, answer, true),
        );
    assert(answers(probe, token, answer));
}

}
