//! The npm dependency grammar: version ranges, dependency specs and package names.

use crate::text::{
    after_prefix, begins_with, chars_of, contains, find_last, has_char, join, quoted, same, split,
    split_words, text_between, trim, Text,
};
use crate::source::has_path_marker;
use crate::version::{refused, satisfied_by, Version};
use vstd::prelude::*;
use vstd::string::*;

verus! {

// ---------------------------------------------------------------------------
// Ranges
// ---------------------------------------------------------------------------

/// A character that comparison operators are made of.
pub open spec fn is_operator_char(c: char) -> bool {
    c == '<' || c == '>' || c == '=' || c == '~' || c == '^'
}

/// `word` is an operator standing alone, such as the `>=` of `>= 1.2`.
pub open spec fn is_operator(word: Text) -> bool {
    forall|i: int| 0 <= i < word.len() ==> is_operator_char(#[trigger] word[i])
}

/// A bare version pins: `1.2.3` is that version, `1.2` any patch of it.
pub open spec fn pinned(word: Text) -> Text {
    if word.len() > 0 && '0' <= word[0] <= '9' {
        seq!['='] + word
    } else {
        word
    }
}

/// The comparators that `words` spell, with an operator that still waits for its version.
pub open spec fn scan(words: Seq<Text>) -> (Seq<Text>, Text)
    decreases words.len(),
{
    if words.len() == 0 {
        (Seq::empty(), Seq::empty())
    } else {
        let (done, operator) = scan(words.drop_last());
        let word = words.last();
        if is_operator(word) {
            (done, operator + word)
        } else if operator.len() > 0 {
            (done.push(operator + word), Seq::empty())
        } else {
            (done.push(pinned(word)), Seq::empty())
        }
    }
}

/// One alternative of a range as a comma-separated requirement; an empty one admits anything.
pub open spec fn requirement_of(alternative: Text) -> Text {
    let (done, operator) = scan(crate::text::words(alternative));
    let all = if operator.len() > 0 { done.push(operator) } else { done };
    if all.len() == 0 {
        "*"@
    } else {
        crate::text::joined(all, ", "@)
    }
}

/// The requirements of a range's `||`-separated alternatives.
pub open spec fn requirements_of(range: Text) -> Seq<Text> {
    let parts = crate::text::pieces(range, "||"@);
    Seq::new(parts.len(), |i: int| requirement_of(parts[i]))
}

/// The first of `requirements` that is refused.
pub open spec fn first_refused(requirements: Seq<Text>) -> Option<Text>
    decreases requirements.len(),
{
    if requirements.len() == 0 {
        None
    } else if crate::version::requirement_fault(requirements[0]) is Some {
        Some(requirements[0])
    } else {
        first_refused(requirements.skip(1))
    }
}

/// Why a requirement is refused. One that starts with a letter reads as a dist-tag.
pub open spec fn range_fault(requirement: Text) -> Text {
    if requirement.len() > 0 && is_letter(requirement[0]) {
        "dist-tag "@ + crate::text::quotation(requirement)
            + " is not supported, write a version range"@
    } else {
        "invalid version range "@ + crate::text::quotation(requirement) + ": "@
            + crate::version::requirement_fault(requirement)->0
    }
}

pub open spec fn is_letter(c: char) -> bool {
    'a' <= c <= 'z' || 'A' <= c <= 'Z'
}

/// What reading `text` as a range gives: its requirements, or why it is refused.
pub open spec fn range_of(text: Text) -> Result<Seq<Text>, Text> {
    match first_refused(requirements_of(text)) {
        None => Ok(requirements_of(text)),
        Some(requirement) => Err(range_fault(requirement)),
    }
}

/// Whether one of `requirements` admits `version`.
pub open spec fn range_admits(requirements: Seq<Text>, version: Text) -> bool {
    exists|i: int|
        0 <= i < requirements.len() && crate::version::admits(#[trigger] requirements[i], version)
}

/// The text of a range.
pub open spec fn range_text(requirements: Seq<Text>) -> Text {
    crate::text::joined(requirements, " || "@)
}

/// A version range: a version is in it when one of its requirements admits the version.
#[derive(Debug, PartialEq, Eq)]
pub struct Range {
    requirements: Vec<String>,
}

impl View for Range {
    type V = Seq<Text>;

    closed spec fn view(&self) -> Seq<Text> {
        crate::text::texts(self.requirements@)
    }
}

fn operator_only(word: &str) -> (r: bool)
    ensures
        r == is_operator(word@),
{
    let chars = chars_of(word);
    let mut i: usize = 0;
    while i < chars.len()
        invariant
            i <= chars@.len(),
            chars@ == word@,
            forall|k: int| 0 <= k < i ==> is_operator_char(#[trigger] word@[k]),
        decreases chars@.len() - i,
    {
        let c = chars[i];
        if !(c == '<' || c == '>' || c == '=' || c == '~' || c == '^') {
            assert(!is_operator_char(word@[i as int]));
            return false;
        }
        i = i + 1;
    }
    true
}

fn pin(word: &str) -> (r: String)
    ensures
        r@ == pinned(word@),
{
    let chars = chars_of(word);
    if chars.len() > 0 && '0' <= chars[0] && chars[0] <= '9' {
        let mut out = String::new();
        out.push('=');
        out.append(word);
        assert(out@ == seq!['='] + word@);
        out
    } else {
        word.to_owned()
    }
}

fn requirement(alternative: &str) -> (r: String)
    ensures
        r@ == requirement_of(alternative@),
{
    let list = split_words(alternative);
    let ghost all = crate::text::texts(list@);
    let mut done: Vec<String> = Vec::new();
    let mut operator = String::new();
    let mut i: usize = 0;
    assert(crate::text::texts(done@) == scan(all.take(0)).0);
    while i < list.len()
        invariant
            i <= list@.len(),
            all == crate::text::texts(list@),
            scan(all.take(i as int)) == (crate::text::texts(done@), operator@),
        decreases list@.len() - i,
    {
        let word = list[i].as_str();
        let ghost before = done@;
        assert(all.take(i + 1).drop_last() == all.take(i as int));
        assert(all.take(i + 1).last() == word@);
        if operator_only(word) {
            operator.append(word);
        } else if !operator.as_str().is_empty() {
            operator.append(word);
            done.push(operator);
            operator = String::new();
            assert(crate::text::texts(done@) == crate::text::texts(before).push(
                done@[before.len() as int]@,
            ));
        } else {
            done.push(pin(word));
            assert(crate::text::texts(done@) == crate::text::texts(before).push(pinned(word@)));
        }
        i = i + 1;
    }
    assert(all.take(i as int) == all);
    if !operator.as_str().is_empty() {
        let ghost before = done@;
        done.push(operator);
        assert(crate::text::texts(done@) == crate::text::texts(before).push(operator@));
    }
    if done.len() == 0 {
        "*".to_owned()
    } else {
        join(&done, ", ")
    }
}

impl Range {
    /// Read a range: alternatives separated by `||`, each a run of comparators separated by
    /// white space.
    pub fn parse(text: &str) -> (r: Result<Range, String>)
        ensures
            match r {
                Ok(range) => range_of(text@) == Ok::<Seq<Text>, Text>(range@),
                Err(message) => range_of(text@) == Err::<Seq<Text>, Text>(message@),
            },
            forall|v: Text| #[trigger]
                crate::version::exactly(v) == text@ && crate::version::is_version(v)
                    && requirements_of(text@) == seq![text@] ==> r is Ok,
    {
        proof {
            reveal_strlit("||");
        }
        let parts = split(text, "||");
        let ghost wanted = requirements_of(text@);
        let mut list: Vec<String> = Vec::new();
        let mut i: usize = 0;
        assert(wanted.skip(0) == wanted);
        while i < parts.len()
            invariant
                i <= parts@.len(),
                wanted == requirements_of(text@),
                crate::text::texts(parts@) == crate::text::pieces(text@, "||"@),
                crate::text::texts(list@) == wanted.take(i as int),
                first_refused(wanted) == first_refused(wanted.skip(i as int)),
            decreases parts@.len() - i,
        {
            let one = requirement(parts[i].as_str());
            assert(crate::text::texts(parts@)[i as int] == parts@[i as int]@);
            assert(wanted[i as int] == one@);
            if let Some(fault) = refused(one.as_str()) {
                proof {
                    assert forall|v: Text|
                        #[trigger] crate::version::exactly(v) == text@
                            && crate::version::is_version(v) && requirements_of(text@) == seq![
                            text@,
                        ] implies false by {
                        assert(wanted[i as int] == text@);
                        assert(crate::version::exactly(v).skip(1) == v);
                    }
                }
                let chars = chars_of(one.as_str());
                if chars.len() > 0 && (('a' <= chars[0] && chars[0] <= 'z') || ('A' <= chars[0]
                    && chars[0] <= 'Z')) {
                    let mut message = "dist-tag ".to_owned();
                    message.append(quoted(one.as_str()).as_str());
                    message.append(" is not supported, write a version range");
                    return Err(message);
                }
                let mut message = "invalid version range ".to_owned();
                message.append(quoted(one.as_str()).as_str());
                message.append(": ");
                message.append(fault.as_str());
                return Err(message);
            }
            let ghost before = list@;
            list.push(one);
            assert(crate::text::texts(list@) == crate::text::texts(before).push(one@));
            assert(wanted.take(i + 1) == wanted.take(i as int).push(wanted[i as int]));
            assert(wanted.skip(i as int).skip(1) == wanted.skip(i + 1));
            i = i + 1;
        }
        assert(wanted.take(i as int) == wanted);
        Ok(Range { requirements: list })
    }

    /// The range that every release is in.
    pub fn any() -> (r: Range)
        ensures
            r@ == seq!["*"@],
    {
        let mut list: Vec<String> = Vec::new();
        list.push("*".to_owned());
        assert(crate::text::texts(list@) == seq!["*"@]);
        Range { requirements: list }
    }

    /// Whether `version` is in the range.
    pub fn matches(&self, version: &Version) -> (r: bool)
        ensures
            r == range_admits(self@, version@),
            self@ == seq![crate::version::exactly(version@)] ==> r,
    {
        let mut i: usize = 0;
        while i < self.requirements.len()
            invariant
                i <= self.requirements@.len(),
                forall|k: int|
                    0 <= k < i ==> !crate::version::admits(#[trigger] self@[k], version@),
                i > 0 ==> self@[0] != crate::version::exactly(version@),
            decreases self.requirements@.len() - i,
        {
            assert(self@[i as int] == self.requirements@[i as int]@);
            if satisfied_by(self.requirements[i].as_str(), version) {
                return true;
            }
            i = i + 1;
        }
        false
    }

    /// The range's text: its requirements joined with ` || `.
    pub fn to_string(&self) -> (r: String)
        ensures
            r@ == range_text(self@),
    {
        join(&self.requirements, " || ")
    }
}

impl Clone for Range {
    /// The same range again.
    fn clone(&self) -> (r: Range)
        ensures
            r@ == self@,
    {
        let mut list: Vec<String> = Vec::new();
        let mut i: usize = 0;
        while i < self.requirements.len()
            invariant
                i <= self.requirements@.len(),
                crate::text::texts(list@) == self@.take(i as int),
            decreases self.requirements@.len() - i,
        {
            let ghost before = list@;
            list.push(self.requirements[i].clone());
            assert(crate::text::texts(list@) == crate::text::texts(before).push(self@[i as int]));
            assert(self@.take(i + 1) == self@.take(i as int).push(self@[i as int]));
            i = i + 1;
        }
        assert(self@.take(i as int) == self@);
        Range { requirements: list }
    }
}

// ---------------------------------------------------------------------------
// Package names
// ---------------------------------------------------------------------------

/// A character that a package name may hold.
pub open spec fn is_name_char(c: char) -> bool {
    ||| is_letter(c)
    ||| '0' <= c <= '9'
    ||| c == '-'
    ||| c == '_'
    ||| c == '.'
    ||| c == '~'
    ||| c == '@'
    ||| c == '/'
}

/// `name` is safe as a path below a directory: made of allowed characters, without `..`, without
/// an empty segment (so not absolute), and not `.` itself.
pub open spec fn is_package_name(name: Text) -> bool {
    &&& forall|i: int| 0 <= i < name.len() ==> is_name_char(#[trigger] name[i])
    &&& crate::text::first_occurrence(name, ".."@) is None
    &&& !crate::text::pieces(name, "/"@).contains(Seq::<char>::empty())
    &&& name != "."@
}

/// What is said of a name that is refused.
pub open spec fn name_fault(name: Text) -> Text {
    "invalid package name "@ + crate::text::quotation(name)
}

/// Accept a package name or say why not.
pub fn validate_package_name(name: &str) -> (r: Result<(), String>)
    ensures
        r is Ok <==> is_package_name(name@),
        r matches Err(message) ==> message@ == name_fault(name@),
{
    if well_named(name) {
        Ok(())
    } else {
        let mut message = "invalid package name ".to_owned();
        message.append(quoted(name).as_str());
        Err(message)
    }
}

fn well_named(name: &str) -> (r: bool)
    ensures
        r == is_package_name(name@),
{
    let chars = chars_of(name);
    let mut i: usize = 0;
    while i < chars.len()
        invariant
            i <= chars@.len(),
            chars@ == name@,
            forall|k: int| 0 <= k < i ==> is_name_char(#[trigger] name@[k]),
        decreases chars@.len() - i,
    {
        let c = chars[i];
        if !(('a' <= c && c <= 'z') || ('A' <= c && c <= 'Z') || ('0' <= c && c <= '9') || c == '-'
            || c == '_' || c == '.' || c == '~' || c == '@' || c == '/') {
            assert(!is_name_char(name@[i as int]));
            return false;
        }
        i = i + 1;
    }
    if contains(name, "..") || same(name, ".") {
        return false;
    }
    proof {
        reveal_strlit("/");
    }
    let parts = split(name, "/");
    let ghost all = crate::text::pieces(name@, "/"@);
    let mut k: usize = 0;
    while k < parts.len()
        invariant
            k <= parts@.len(),
            all == crate::text::texts(parts@),
            all == crate::text::pieces(name@, "/"@),
            forall|j: int| 0 <= j < k ==> all[j].len() > 0,
        decreases parts@.len() - k,
    {
        if parts[k].as_str().is_empty() {
            assert(all[k as int] == Seq::<char>::empty());
            return false;
        }
        k = k + 1;
    }
    true
}

// ---------------------------------------------------------------------------
// Dependency specs
// ---------------------------------------------------------------------------

/// What a dependency's spec asks for.
#[derive(Debug, PartialEq, Eq)]
pub enum Spec {
    /// A git repository.
    Git { url: String },
    /// A tarball at a URL.
    Tarball(String),
    /// A local directory or file.
    Path(String),
    /// Another package under the dependency's name (`npm:name@spec`).
    Alias { name: String, spec: Box<Spec> },
    /// A version range of a registry package.
    Registry(String),
}

/// The mathematical value of a [`Spec`].
pub enum SpecView {
    Git(Text),
    Tarball(Text),
    Path(Text),
    Alias(Text, Box<SpecView>),
    Registry(Text),
}

/// What `spec` asks for.
pub open spec fn request(spec: Spec) -> SpecView
    decreases spec,
{
    match spec {
        Spec::Git { url } => SpecView::Git(url@),
        Spec::Tarball(url) => SpecView::Tarball(url@),
        Spec::Path(path) => SpecView::Path(path@),
        Spec::Alias { name, spec } => SpecView::Alias(name@, Box::new(request(*spec))),
        Spec::Registry(range) => SpecView::Registry(range@),
    }
}

impl View for Spec {
    type V = SpecView;

    open spec fn view(&self) -> SpecView {
        request(*self)
    }
}

/// `name@range` split at the last `@` that is not the scope's; without one, a name alone.
pub open spec fn name_and_range(text: Text) -> (Text, Option<Text>) {
    match crate::text::last_position(text, '@') {
        Some(i) => if i > 0 {
            (text.take(i), Some(text.skip(i + 1)))
        } else {
            (text, None)
        },
        None => (text, None),
    }
}

/// Split `name@range` honoring scoped names: the separator is the last `@`, and a leading `@` is
/// the scope.
pub fn split_name_range(text: &str) -> (r: (String, Option<String>))
    ensures
        (r.0@, crate::text::optional_text(r.1)) == name_and_range(text@),
        r.1 matches Some(range) ==> range@.len() < text@.len(),
{
    let chars = chars_of(text);
    match find_last(&chars, '@') {
        Some(i) => if i > 0 {
            let end: usize = chars.len();
            let name = text_between(&chars, 0, i);
            let range = text_between(&chars, i + 1, end);
            assert(name@ == text@.take(i as int));
            assert(range@ == text@.skip(i + 1));
            (name, Some(range))
        } else {
            (text.to_owned(), None)
        },
        None => (text.to_owned(), None),
    }
}

/// `text` ends with `suffix`.
pub open spec fn ends(text: Text, suffix: Text) -> bool {
    suffix.len() <= text.len() && text.skip(text.len() - suffix.len()) == suffix
}

pub(crate) fn ends_with(text: &str, suffix: &str) -> (r: bool)
    ensures
        r == ends(text@, suffix@),
{
    let chars = chars_of(text);
    let n: usize = suffix.unicode_len();
    if n > chars.len() {
        return false;
    }
    let last = text_between(&chars, chars.len() - n, chars.len());
    assert(last@ == text@.skip(text@.len() - suffix@.len()));
    same(last.as_str(), suffix)
}

/// `text` is a URL of the web.
pub open spec fn is_web_url(text: Text) -> bool {
    crate::text::begins(text, "https://"@) || crate::text::begins(text, "http://"@)
}

/// `text` names a git repository by its scheme or host.
pub open spec fn is_git_url(text: Text) -> bool {
    ||| crate::text::begins(text, "git+"@)
    ||| crate::text::begins(text, "git://"@)
    ||| crate::text::begins(text, "git@"@)
    ||| crate::text::begins(text, "github:"@)
    ||| crate::text::begins(text, "gitlab:"@)
    ||| crate::text::begins(text, "bitbucket:"@)
    ||| crate::text::begins(text, "gist:"@)
    ||| is_web_url(text) && ends(text, ".git"@)
}

/// How a dependency's spec reads. In this order: an `npm:` alias; a path (`file:` or a path
/// marker); a git repository; a tarball URL; the `owner/repository` shorthand; else a range.
pub open spec fn spec_of(text: Text) -> SpecView
    decreases text.len(),
{
    if crate::text::begins(text, "npm:"@) && "npm:"@.len() > 0 {
        let (name, range) = name_and_range(text.skip("npm:"@.len() as int));
        SpecView::Alias(
            name,
            Box::new(
                match range {
                    Some(inner) => if inner.len() < text.len() {
                        spec_of(inner)
                    } else {
                        SpecView::Registry(inner)
                    },
                    None => SpecView::Registry(Seq::empty()),
                },
            ),
        )
    } else if crate::text::begins(text, "file:"@) {
        SpecView::Path(text.skip("file:"@.len() as int))
    } else if crate::source::is_path_marked(text) {
        SpecView::Path(text)
    } else if is_git_url(text) {
        SpecView::Git(text)
    } else if is_web_url(text) {
        SpecView::Tarball(text)
    } else if text.contains('/') && !crate::text::begins(text, "@"@) {
        SpecView::Git(text)
    } else {
        SpecView::Registry(text)
    }
}

impl Spec {
    /// Read a dependency's spec; surrounding white space does not count.
    pub fn parse(text: &str) -> (r: Spec)
        ensures
            r@ == spec_of(crate::text::trimmed(text@)),
    {
        let text = trim(text);
        Spec::read(text.as_str())
    }

    /// Read a spec that has no white space around it.
    pub(crate) fn read(text: &str) -> (r: Spec)
        ensures
            r@ == spec_of(text@),
        decreases text@.len(),
    {
        proof {
            reveal_strlit("npm:");
        }
        if let Some(rest) = after_prefix(text, "npm:") {
            let (name, range) = split_name_range(rest.as_str());
            match range {
                Some(inner) => {
                    assert(inner@.len() < text@.len());
                    let inner = Spec::read(inner.as_str());
                    Spec::Alias { name, spec: Box::new(inner) }
                },
                None => {
                    let empty = Spec::Registry(String::new());
                    assert(empty@ == SpecView::Registry(Seq::empty()));
                    Spec::Alias { name, spec: Box::new(empty) }
                },
            }
        } else if let Some(rest) = after_prefix(text, "file:") {
            Spec::Path(rest)
        } else if has_path_marker(text) {
            Spec::Path(text.to_owned())
        } else if begins_with(text, "git+") || begins_with(text, "git://") || begins_with(
            text,
            "git@",
        ) || begins_with(text, "github:") || begins_with(text, "gitlab:") || begins_with(
            text,
            "bitbucket:",
        ) || begins_with(text, "gist:") {
            Spec::Git { url: text.to_owned() }
        } else if begins_with(text, "https://") || begins_with(text, "http://") {
            if ends_with(text, ".git") {
                Spec::Git { url: text.to_owned() }
            } else {
                Spec::Tarball(text.to_owned())
            }
        } else if has_char(text, '/') && !begins_with(text, "@") {
            Spec::Git { url: text.to_owned() }
        } else {
            Spec::Registry(text.to_owned())
        }
    }
}

// ---------------------------------------------------------------------------
// Coverage
// ---------------------------------------------------------------------------

/// `range` is a range, `version` a version, and the version is in the range.
pub open spec fn covers(range: Text, version: Text) -> bool {
    match range_of(range) {
        Ok(requirements) => crate::version::is_version(version) && range_admits(
            requirements,
            version,
        ),
        Err(_) => false,
    }
}

/// A text without white space is one word.
proof fn lemma_one_word(text: Text)
    requires
        text.len() > 0,
        forall|i: int| 0 <= i < text.len() ==> !crate::text::is_space(#[trigger] text[i]),
    ensures
        crate::text::words(text) == seq![text],
    decreases text.len(),
{
    let rest = text.drop_last();
    if rest.len() > 0 {
        assert forall|i: int| 0 <= i < rest.len() implies !crate::text::is_space(
            #[trigger] rest[i],
        ) by {
            assert(rest[i] == text[i]);
        }
        lemma_one_word(rest);
        assert(!crate::text::is_space(text[text.len() - 2]));
        assert(!crate::text::is_space(text[text.len() - 1]));
        assert(rest.push(text.last()) == text);
        assert(seq![rest].update(0, rest.push(text.last())) == seq![text]);
    } else {
        assert(!crate::text::is_space(text[0]));
        assert(crate::text::words(rest) == Seq::<Text>::empty());
        assert(seq![text[0]] == text);
        assert(Seq::<Text>::empty().push(text) == seq![text]);
    }
}

/// A text without `|` is one alternative.
proof fn lemma_one_alternative(text: Text)
    requires
        forall|i: int| 0 <= i < text.len() ==> #[trigger] text[i] != '|',
    ensures
        crate::text::first_occurrence(text, "||"@) is None,
    decreases text.len(),
{
    reveal_strlit("||");
    if text.len() > 0 {
        let rest = text.skip(1);
        assert forall|i: int| 0 <= i < rest.len() implies #[trigger] rest[i] != '|' by {
            assert(rest[i] == text[i + 1]);
        }
        lemma_one_alternative(rest);
        if crate::text::begins(text, "||"@) {
            assert(text.take(2)[0] == '|');
            assert(text[0] == '|');
        }
    }
}

/// `=` followed by a version reads as that one requirement.
proof fn lemma_exact_range(version: Text)
    requires
        version.len() > 0,
        forall|i: int|
            0 <= i < version.len() ==> crate::version::is_version_char(#[trigger] version[i]),
    ensures
        requirements_of(crate::version::exactly(version)) == seq![
            crate::version::exactly(version),
        ],
{
    let text = crate::version::exactly(version);
    assert forall|i: int| 0 <= i < text.len() implies #[trigger] text[i] != '|'
        && !crate::text::is_space(text[i]) by {
        if i > 0 {
            assert(text[i] == version[i - 1]);
            assert(crate::version::is_version_char(version[i - 1]));
        }
    }
    lemma_one_alternative(text);
    lemma_one_word(text);
    assert(crate::text::pieces(text, "||"@) == seq![text]);
    let words = crate::text::words(text);
    assert(words.drop_last() == Seq::<Text>::empty());
    assert(text[1] == version[0]);
    assert(crate::version::is_version_char(version[0]));
    assert(!is_operator_char(text[1]));
    assert(!is_operator(text));
    assert(text[0] == '=');
    assert(pinned(text) == text);
    assert(scan(Seq::<Text>::empty()) == (Seq::<Text>::empty(), Seq::<char>::empty()));
    assert(scan(words) == (Seq::<Text>::empty().push(text), Seq::<char>::empty()));
    assert(Seq::<Text>::empty().push(text) == seq![text]);
    assert(crate::text::joined(seq![text], ", "@) == text) by {
        assert(seq![text].drop_last() == Seq::<Text>::empty());
    }
    assert(requirement_of(text) == text);
}

/// Whether `range` contains `version`; a text that does not parse contains nothing and is in
/// nothing. The range that pins a version contains it.
pub fn range_covers(range: &str, version: &str) -> (r: bool)
    ensures
        r == covers(range@, version@),
        crate::version::is_version(version@) && range@ == crate::version::exactly(version@) ==> r,
{
    match Version::parse(version) {
        Err(_) => false,
        Ok(parsed) => {
            let ghost pin = range@ == crate::version::exactly(version@);
            proof {
                if pin {
                    lemma_exact_range(version@);
                    assert(range@.skip(1) == version@);
                }
            }
            match Range::parse(range) {
                Err(_) => {
                    false
                },
                Ok(range) => range.matches(&parsed),
            }
        },
    }
}

// ---------------------------------------------------------------------------
// Laws
// ---------------------------------------------------------------------------

proof fn lemma_words_after_space(space: char, text: Text)
    requires
        crate::text::is_space(space),
    ensures
        crate::text::words(seq![space] + text) == crate::text::words(text),
    decreases text.len(),
{
    let spaced = seq![space] + text;
    if text.len() == 0 {
        assert(spaced.drop_last() == text);
        assert(spaced.last() == space);
        assert(crate::text::words(spaced) == crate::text::words(text));
    } else {
        assert(spaced.drop_last() == seq![space] + text.drop_last());
        lemma_words_after_space(space, text.drop_last());
        assert(spaced.last() == text.last());
        if text.len() == 1 {
            assert(spaced[spaced.len() - 2] == space);
            assert(crate::text::words(text.drop_last()).len() == 0);
        } else {
            assert(spaced[spaced.len() - 2] == text[text.len() - 2]);
        }
    }
}

proof fn lemma_occurrence_after_space(space: char, text: Text)
    requires
        crate::text::is_space(space),
    ensures
        crate::text::first_occurrence(seq![space] + text, "||"@) == (
        match crate::text::first_occurrence(text, "||"@) {
            Some(i) => Some(i + 1),
            None => None,
        }),
{
    reveal_strlit("||");
    let spaced = seq![space] + text;
    if crate::text::begins(spaced, "||"@) {
        assert(spaced.take(2)[0] == space);
    }
    assert(spaced.skip(1) == text);
}

proof fn lemma_occurrence_before_space(text: Text, space: char)
    requires
        crate::text::is_space(space),
    ensures
        crate::text::first_occurrence(text.push(space), "||"@) == crate::text::first_occurrence(
            text,
            "||"@,
        ),
    decreases text.len(),
{
    reveal_strlit("||");
    let spaced = text.push(space);
    if text.len() >= 2 {
        assert(spaced.take(2) == text.take(2));
    } else if crate::text::begins(spaced, "||"@) {
        assert(spaced.take(2)[text.len() as int] == space);
    }
    if text.len() > 0 {
        assert(spaced.skip(1) == text.skip(1).push(space));
        lemma_occurrence_before_space(text.skip(1), space);
    } else {
        assert(spaced.skip(1) == text);
        assert(!crate::text::begins(spaced, "||"@));
        assert(crate::text::first_occurrence(text, "||"@) is None);
    }
}

proof fn lemma_requirements_after_space(space: char, text: Text)
    requires
        crate::text::is_space(space),
    ensures
        requirements_of(seq![space] + text) == requirements_of(text),
{
    reveal_strlit("||");
    let spaced = seq![space] + text;
    lemma_occurrence_after_space(space, text);
    crate::text::lemma_first_occurrence(text, "||"@);
    let a = crate::text::pieces(spaced, "||"@);
    let b = crate::text::pieces(text, "||"@);
    match crate::text::first_occurrence(text, "||"@) {
        Some(i) => {
            assert(spaced.take(i + 1) == seq![space] + text.take(i));
            assert(spaced.skip(i + 3) == text.skip(i + 2));
            lemma_words_after_space(space, text.take(i));
        },
        None => {
            lemma_words_after_space(space, text);
        },
    }
    assert(a.len() == b.len());
    assert forall|k: int| 0 <= k < a.len() implies requirement_of(a[k]) == requirement_of(
        b[k],
    ) by {
        if k > 0 {
            assert(a[k] == b[k]);
        }
    }
    assert(requirements_of(spaced) =~= requirements_of(text));
}

proof fn lemma_requirements_before_space(text: Text, space: char)
    requires
        crate::text::is_space(space),
    ensures
        requirements_of(text.push(space)) == requirements_of(text),
    decreases text.len(),
{
    reveal_strlit("||");
    let spaced = text.push(space);
    lemma_occurrence_before_space(text, space);
    crate::text::lemma_first_occurrence(text, "||"@);
    let a = crate::text::pieces(spaced, "||"@);
    let b = crate::text::pieces(text, "||"@);
    match crate::text::first_occurrence(text, "||"@) {
        Some(i) => {
            let rest = text.skip(i + 2);
            assert(spaced.take(i) == text.take(i));
            assert(spaced.skip(i + 2) == rest.push(space));
            lemma_requirements_before_space(rest, space);
            let c = crate::text::pieces(rest.push(space), "||"@);
            let d = crate::text::pieces(rest, "||"@);
            assert(requirements_of(rest.push(space)).len() == requirements_of(rest).len());
            assert forall|k: int| 0 <= k < a.len() implies requirement_of(a[k]) == requirement_of(
                b[k],
            ) by {
                if k > 0 {
                    assert(a[k] == c[k - 1] && b[k] == d[k - 1]);
                    assert(requirements_of(rest.push(space))[k - 1] == requirements_of(
                        rest,
                    )[k - 1]);
                }
            }
        },
        None => {
            assert(spaced.drop_last() == text);
        },
    }
    assert(requirements_of(spaced) =~= requirements_of(text));
}

proof fn lemma_requirements_of_trimmed_start(text: Text)
    ensures
        requirements_of(crate::text::trimmed_start(text)) == requirements_of(text),
    decreases text.len(),
{
    if text.len() > 0 && crate::text::is_space(text[0]) {
        lemma_requirements_of_trimmed_start(text.skip(1));
        lemma_requirements_after_space(text[0], text.skip(1));
        assert(seq![text[0]] + text.skip(1) == text);
    }
}

proof fn lemma_requirements_of_trimmed_end(text: Text)
    ensures
        requirements_of(crate::text::trimmed_end(text)) == requirements_of(text),
    decreases text.len(),
{
    if text.len() > 0 && crate::text::is_space(text.last()) {
        lemma_requirements_of_trimmed_end(text.drop_last());
        lemma_requirements_before_space(text.drop_last(), text.last());
        assert(text.drop_last().push(text.last()) == text);
    }
}

/// White space around a range says nothing.
pub proof fn law_white_space_around_a_range_does_not_count(text: Text)
    ensures
        range_of(crate::text::trimmed(text)) == range_of(text),
{
    lemma_requirements_of_trimmed_start(text);
    lemma_requirements_of_trimmed_end(crate::text::trimmed_start(text));
}

/// A range has one requirement for each of its alternatives, in order. It is refused exactly where
/// one of these is, and the first such one is what is said.
pub proof fn law_ranges_are_their_alternatives(text: Text)
    ensures
        ({
            let parts = crate::text::pieces(text, "||"@);
            match range_of(text) {
                Ok(list) => {
                    &&& list == parts.map_values(|part: Text| requirement_of(part))
                    &&& forall|i: int|
                        0 <= i < list.len() ==> crate::version::requirement_fault(
                            #[trigger] list[i],
                        ) is None
                },
                Err(message) => exists|i: int|
                    0 <= i < parts.len() && crate::version::requirement_fault(
                        requirement_of(#[trigger] parts[i]),
                    ) is Some && message == range_fault(requirement_of(parts[i])) && (forall|
                        j: int,
                    |
                        0 <= j < i ==> crate::version::requirement_fault(
                            requirement_of(#[trigger] parts[j]),
                        ) is None),
            }
        }),
{
    let parts = crate::text::pieces(text, "||"@);
    let list = requirements_of(text);
    lemma_first_refused(list);
    match first_refused(list) {
        None => {
            assert(list =~= parts.map_values(|part: Text| requirement_of(part)));
        },
        Some(requirement) => {
            let i = choose|i: int|
                0 <= i < list.len() && crate::version::requirement_fault(#[trigger] list[i]) is Some
                    && requirement == list[i] && (forall|j: int|
                    0 <= j < i ==> crate::version::requirement_fault(#[trigger] list[j]) is None);
            assert(list[i] == requirement_of(parts[i]));
            assert forall|j: int| 0 <= j < i implies crate::version::requirement_fault(
                requirement_of(#[trigger] parts[j]),
            ) is None by {
                assert(list[j] == requirement_of(parts[j]));
            }
        },
    }
}

proof fn lemma_first_refused(list: Seq<Text>)
    ensures
        match first_refused(list) {
            None => forall|i: int|
                0 <= i < list.len() ==> crate::version::requirement_fault(
                    #[trigger] list[i],
                ) is None,
            Some(requirement) => exists|i: int|
                0 <= i < list.len() && crate::version::requirement_fault(#[trigger] list[i]) is Some
                    && requirement == list[i] && (forall|j: int|
                    0 <= j < i ==> crate::version::requirement_fault(#[trigger] list[j]) is None),
        },
    decreases list.len(),
{
    if list.len() > 0 {
        if crate::version::requirement_fault(list[0]) is Some {
        } else {
            let rest = list.skip(1);
            lemma_first_refused(rest);
            match first_refused(rest) {
                None => {
                    assert forall|i: int| 0 <= i < list.len() implies
                        crate::version::requirement_fault(#[trigger] list[i]) is None by {
                        if i > 0 {
                            assert(rest[i - 1] == list[i]);
                        }
                    }
                },
                Some(requirement) => {
                    let i = choose|i: int|
                        0 <= i < rest.len() && crate::version::requirement_fault(
                            #[trigger] rest[i],
                        ) is Some && requirement == rest[i] && (forall|j: int|
                            0 <= j < i ==> crate::version::requirement_fault(
                                #[trigger] rest[j],
                            ) is None);
                    assert(list[i + 1] == rest[i]);
                    assert forall|j: int| 0 <= j < i + 1 implies crate::version::requirement_fault(
                        #[trigger] list[j],
                    ) is None by {
                        if j > 0 {
                            assert(rest[j - 1] == list[j]);
                        }
                    }
                },
            }
        }
    }
}

/// An operator is made of `<`, `>`, `=`, `~` and `^` alone.
pub proof fn law_operators(word: Text)
    ensures
        is_operator(word) <==> forall|i: int|
            0 <= i < word.len() ==> "<>=~^"@.contains(#[trigger] word[i]),
{
    reveal_strlit("<>=~^");
    let set = "<>=~^"@;
    assert(set.len() == 5);
    assert forall|c: char| #[trigger] set.contains(c) <==> is_operator_char(c) by {
        if is_operator_char(c) {
            assert(set[0] == '<' && set[1] == '>' && set[2] == '=' && set[3] == '~' && set[4]
                == '^');
        }
    }
    if is_operator(word) {
        assert forall|i: int| 0 <= i < word.len() implies set.contains(#[trigger] word[i]) by {
            assert(is_operator_char(word[i]));
        }
    } else {
        let i = choose|i: int| 0 <= i < word.len() && !is_operator_char(#[trigger] word[i]);
        assert(!set.contains(word[i]));
    }
}

/// A word that starts with a digit is the version it spells and no other; any other word stands
/// as it is written.
pub proof fn law_bare_versions_are_pinned(word: Text, digit: char, rest: Text)
    ensures
        '0' <= digit <= '9' ==> pinned(seq![digit] + rest) == seq!['=', digit] + rest,
        word.len() == 0 || !('0' <= word[0] <= '9') ==> pinned(word) == word,
{
    assert((seq![digit] + rest)[0] == digit);
    assert(seq!['='] + (seq![digit] + rest) =~= seq!['=', digit] + rest);
}

/// An alternative without a word admits anything.
pub proof fn law_empty_alternatives_admit_anything(alternative: Text)
    requires
        forall|i: int|
            0 <= i < alternative.len() ==> crate::text::is_space(#[trigger] alternative[i]),
    ensures
        requirement_of(alternative) == "*"@,
    decreases alternative.len(),
{
    lemma_no_words(alternative);
}

proof fn lemma_no_words(text: Text)
    requires
        forall|i: int| 0 <= i < text.len() ==> crate::text::is_space(#[trigger] text[i]),
    ensures
        crate::text::words(text).len() == 0,
    decreases text.len(),
{
    if text.len() > 0 {
        let shorter = text.drop_last();
        assert forall|i: int| 0 <= i < shorter.len() implies crate::text::is_space(
            #[trigger] shorter[i],
        ) by {
            assert(shorter[i] == text[i]);
        }
        lemma_no_words(shorter);
        assert(crate::text::is_space(text[text.len() - 1]));
    }
}

/// Comparators in a row are joined by commas, none left out, bare versions pinned.
pub proof fn law_comparators_all_count(alternative: Text)
    requires
        crate::text::words(alternative).len() > 0,
        forall|i: int|
            0 <= i < crate::text::words(alternative).len() ==> !is_operator(
                #[trigger] crate::text::words(alternative)[i],
            ),
    ensures
        requirement_of(alternative) == crate::text::joined(
            crate::text::words(alternative).map_values(|word: Text| pinned(word)),
            ", "@,
        ),
{
    lemma_scan_of_comparators(crate::text::words(alternative));
}

proof fn lemma_scan_of_comparators(words: Seq<Text>)
    requires
        forall|i: int| 0 <= i < words.len() ==> !is_operator(#[trigger] words[i]),
    ensures
        scan(words) == (
            words.map_values(|word: Text| pinned(word)),
            Seq::<char>::empty(),
        ),
    decreases words.len(),
{
    if words.len() > 0 {
        let shorter = words.drop_last();
        assert forall|i: int| 0 <= i < shorter.len() implies !is_operator(
            #[trigger] shorter[i],
        ) by {
            assert(shorter[i] == words[i]);
        }
        lemma_scan_of_comparators(shorter);
        assert(!is_operator(words[words.len() - 1]));
        assert(words.map_values(|word: Text| pinned(word)) =~= shorter.map_values(
            |word: Text| pinned(word),
        ).push(pinned(words.last())));
    } else {
        assert(words.map_values(|word: Text| pinned(word)) =~= Seq::empty());
    }
}

/// An operator that stands alone belongs to the version behind it: `before`, which leaves no
/// operator waiting, then `operator`, then `version` give the comparators of `before` and one more.
pub proof fn law_operators_join_their_version(before: Seq<Text>, operator: Text, version: Text)
    requires
        is_operator(operator),
        operator.len() > 0,
        !is_operator(version),
        before.len() == 0 || !is_operator(before.last()),
    ensures
        scan(before.push(operator).push(version)) == (
            scan(before).0.push(operator + version),
            Seq::<char>::empty(),
        ),
{
    let one = before.push(operator);
    let two = one.push(version);
    assert(two.drop_last() =~= one);
    assert(one.drop_last() =~= before);
    assert(scan(before).1.len() == 0);
    assert(scan(one).1 =~= operator);
}

/// A requirement joins the comparators that the words of its alternative spell; an operator that
/// stands alone at the end is one by itself.
pub proof fn law_requirements_join_the_comparators(alternative: Text, before: Seq<Text>, word: Text)
    requires
        crate::text::words(alternative) == before.push(word),
        before.len() == 0 || !is_operator(before.last()),
        word.len() > 0,
    ensures
        requirement_of(alternative) == crate::text::joined(
            scan(before).0.push(
                if is_operator(word) {
                    word
                } else {
                    pinned(word)
                },
            ),
            ", "@,
        ),
{
    let words = before.push(word);
    assert(words.drop_last() =~= before);
    assert(scan(before).1.len() == 0);
    assert(scan(before).1 + word =~= word);
}

/// A range shows its requirements with `||` between them.
pub proof fn law_ranges_show_their_requirements(a: Seq<Text>, b: Seq<Text>, requirement: Text)
    ensures
        range_text(seq![requirement]) == requirement,
        a.len() > 0 && b.len() > 0 ==> range_text(a + b) == range_text(a) + " || "@ + range_text(b),
{
    crate::text::law_joined_texts(a, b, " || "@, requirement);
}

/// What is said of a refused requirement: one that starts with a letter is taken for a tag, any
/// other for a range that is none.
pub proof fn law_refusals_tell_tags_from_ranges(requirement: Text)
    ensures
        requirement.len() > 0 && ('a' <= requirement[0] <= 'z' || 'A' <= requirement[0] <= 'Z')
            ==> range_fault(requirement) == "dist-tag "@ + crate::text::quotation(requirement)
            + " is not supported, write a version range"@,
        requirement.len() == 0 || !('a' <= requirement[0] <= 'z' || 'A' <= requirement[0] <= 'Z')
            ==> range_fault(requirement) == "invalid version range "@ + crate::text::quotation(
            requirement,
        ) + ": "@ + crate::version::requirement_fault(requirement)->0,
{
}

/// A range covers a version exactly where it is a range, the version is one, and some requirement
/// of the range admits it.
pub proof fn law_ranges_cover_what_they_admit(range: Text, version: Text)
    ensures
        covers(range, version) <==> crate::version::is_version(version) && match range_of(range) {
            Ok(list) => exists|i: int|
                0 <= i < list.len() && crate::version::admits(#[trigger] list[i], version),
            Err(_) => false,
        },
{
}

/// A name parts from its range at the last `@`; the `@` of a scope parts nothing.
pub proof fn law_names_part_from_ranges(name: Text, range: Text)
    requires
        !range.contains('@'),
    ensures
        name.len() > 0 ==> name_and_range(name + seq!['@'] + range) == (name, Some(range)),
        name_and_range(seq!['@'] + range) == (seq!['@'] + range, None::<Text>),
        name_and_range(range) == (range, None::<Text>),
{
    crate::text::law_what_follows_the_last(name, '@', range);
    crate::text::law_what_follows_the_last(Seq::empty(), '@', range);
    let whole = name + seq!['@'] + range;
    assert(whole.take(name.len() as int) =~= name);
    assert(whole.skip(name.len() as int + 1) =~= range);
    assert(Seq::<char>::empty() + seq!['@'] + range =~= seq!['@'] + range);
}

/// An alias names another package and what is asked of it; without a range that is anything.
pub proof fn law_aliases_name_another_package(name: Text, range: Text)
    requires
        !range.contains('@'),
    ensures
        name.len() > 0 ==> spec_of("npm:"@ + name + seq!['@'] + range) == SpecView::Alias(
            name,
            Box::new(spec_of(range)),
        ),
        spec_of("npm:"@ + range) == SpecView::Alias(
            range,
            Box::new(SpecView::Registry(Seq::empty())),
        ),
{
    reveal_strlit("npm:");
    law_names_part_from_ranges(name, range);
    let whole = "npm:"@ + name + seq!['@'] + range;
    assert(whole.take(4) =~= "npm:"@);
    assert(whole.skip(4) =~= name + seq!['@'] + range);
    let short = "npm:"@ + range;
    assert(short.take(4) =~= "npm:"@);
    assert(short.skip(4) =~= range);
}

/// A `file:` reference is a path, namely what follows.
pub proof fn law_file_references_are_paths(path: Text)
    ensures
        spec_of("file:"@ + path) == SpecView::Path(path),
{
    reveal_strlit("npm:");
    reveal_strlit("file:");
    let whole = "file:"@ + path;
    assert(whole.take(5) =~= "file:"@);
    assert(whole.skip(5) =~= path);
    assert(whole.take(4)[0] == 'f');
}

/// What else a dependency can be, for what is neither an alias nor a `file:` reference: a path
/// where it is marked as one; a repository by its scheme, its host's name or a web address that
/// ends in `.git`; any other web address a tarball; anything else with a `/`, unless it is scoped,
/// a repository; and what remains a range of the registry.
pub proof fn law_dependencies_read_by_their_form(text: Text)
    requires
        !crate::text::begins(text, "npm:"@),
        !crate::text::begins(text, "file:"@),
    ensures
        ({
            let web = crate::text::begins(text, "https://"@) || crate::text::begins(
                text,
                "http://"@,
            );
            let git = {
                ||| crate::text::begins(text, "git+"@)
                ||| crate::text::begins(text, "git://"@)
                ||| crate::text::begins(text, "git@"@)
                ||| crate::text::begins(text, "github:"@)
                ||| crate::text::begins(text, "gitlab:"@)
                ||| crate::text::begins(text, "bitbucket:"@)
                ||| crate::text::begins(text, "gist:"@)
            };
            let marked = crate::source::is_path_marked(text);
            &&& marked ==> spec_of(text) == SpecView::Path(text)
            &&& !marked && git ==> spec_of(text) == SpecView::Git(text)
            &&& !marked && web && ends(text, ".git"@) ==> spec_of(text) == SpecView::Git(text)
            &&& !marked && web && !ends(text, ".git"@) ==> spec_of(text) == SpecView::Tarball(text)
            &&& !marked && !web && !git ==> spec_of(text) == if text.contains('/') && text[0]
                != '@' {
                SpecView::Git(text)
            } else {
                SpecView::Registry(text)
            }
        }),
{
    reveal_strlit("https://");
    reveal_strlit("http://");
    reveal_strlit("git+");
    reveal_strlit("git://");
    reveal_strlit("git@");
    reveal_strlit("github:");
    reveal_strlit("gitlab:");
    reveal_strlit("bitbucket:");
    reveal_strlit("gist:");
    reveal_strlit("@");
    let web = crate::text::begins(text, "https://"@) || crate::text::begins(text, "http://"@);
    let git = {
        ||| crate::text::begins(text, "git+"@)
        ||| crate::text::begins(text, "git://"@)
        ||| crate::text::begins(text, "git@"@)
        ||| crate::text::begins(text, "github:"@)
        ||| crate::text::begins(text, "gitlab:"@)
        ||| crate::text::begins(text, "bitbucket:"@)
        ||| crate::text::begins(text, "gist:"@)
    };
    if web {
        lemma_first_character(text, "https://"@);
        lemma_first_character(text, "http://"@);
    }
    if git {
        lemma_first_character(text, "git+"@);
        lemma_first_character(text, "git://"@);
        lemma_first_character(text, "git@"@);
        lemma_first_character(text, "github:"@);
        lemma_first_character(text, "gitlab:"@);
        lemma_first_character(text, "bitbucket:"@);
        lemma_first_character(text, "gist:"@);
    }
    assert(!(web && git));
    if text.len() > 0 {
        assert(text.take(1) =~= seq![text[0]]);
        assert("@"@ =~= seq!['@']);
        assert(crate::text::begins(text, "@"@) <==> text[0] == '@') by {
            if text[0] != '@' {
                assert(text.take(1)[0] != "@"@[0]);
            }
        }
    }
}

proof fn lemma_first_character(text: Text, prefix: Text)
    requires
        prefix.len() > 0,
    ensures
        crate::text::begins(text, prefix) ==> text.len() > 0 && text[0] == prefix[0],
{
    if crate::text::begins(text, prefix) {
        assert(text.take(prefix.len() as int)[0] == text[0]);
    }
}

/// A text ends with whatever was put behind something, and with nothing else.
pub proof fn law_suffixes(text: Text, head: Text, suffix: Text)
    ensures
        ends(head + suffix, suffix),
        ends(text, suffix) ==> text == text.take(text.len() - suffix.len()) + suffix,
{
    assert((head + suffix).skip(head.len() as int) =~= suffix);
    if ends(text, suffix) {
        assert(text =~= text.take(text.len() - suffix.len()) + text.skip(
            text.len() - suffix.len(),
        ));
    }
}

/// A package name is a path that stays where it is: of letters, digits, `-`, `_`, `.`, `~`, `@`
/// and `/` alone, with something before, behind and between separators, without two dots in a row,
/// and more than a dot. Whatever is so is a package name.
pub proof fn law_package_names(name: Text)
    ensures
        is_package_name(name) <==> {
            &&& name.len() > 0
            &&& name[0] != '/'
            &&& name.last() != '/'
            &&& name != seq!['.']
            &&& forall|i: int|
                #![trigger name[i]]
                0 <= i < name.len() ==> {
                    ||| 'a' <= name[i] <= 'z'
                    ||| 'A' <= name[i] <= 'Z'
                    ||| '0' <= name[i] <= '9'
                    ||| "-_.~@/"@.contains(name[i])
                }
            &&& forall|i: int, j: int|
                #![trigger name[i], name[j]]
                0 <= i && j == i + 1 && j < name.len() ==> !(name[i] == '/' && name[j] == '/')
                    && !(name[i] == '.' && name[j] == '.')
        },
{
    reveal_strlit("-_.~@/");
    reveal_strlit(".");
    reveal_strlit("..");
    let others = "-_.~@/"@;
    assert(others.len() == 6);
    assert("."@ =~= seq!['.']);
    assert forall|c: char| #[trigger] is_name_char(c) <==> {
        ||| 'a' <= c <= 'z'
        ||| 'A' <= c <= 'Z'
        ||| '0' <= c <= '9'
        ||| others.contains(c)
    } by {
        if is_name_char(c) {
            assert(others[0] == '-' && others[1] == '_' && others[2] == '.' && others[3] == '~'
                && others[4] == '@' && others[5] == '/');
        }
    }
    crate::text::law_first_occurrences(name, ".."@);
    lemma_empty_segments(name);
    let dots = exists|i: int| #![trigger name[i]] 0 <= i < name.len() - 1 && name[i] == '.'
        && name[i + 1] == '.';
    assert(crate::text::first_occurrence(name, ".."@) is Some <==> dots) by {
        match crate::text::first_occurrence(name, ".."@) {
            Some(i) => {
                assert(name.subrange(i, i + 2)[0] == name[i]);
                assert(name.subrange(i, i + 2)[1] == name[i + 1]);
            },
            None => {
                assert forall|i: int| 0 <= i < name.len() - 1 implies !(#[trigger] name[i] == '.'
                    && name[i + 1] == '.') by {
                    if name[i] == '.' && name[i + 1] == '.' {
                        assert(name.subrange(i, i + 2) =~= ".."@);
                    }
                }
            },
        }
    }
    if dots {
        let i = choose|i: int| #![trigger name[i]] 0 <= i < name.len() - 1 && name[i] == '.'
            && name[i + 1] == '.';
        assert(name[i] == '.' && name[i + 1] == '.');
    }
    if has_empty_segment(name) && name.len() > 0 && name[0] != '/' && name.last() != '/' {
        let i = choose|i: int| #![trigger name[i]] 0 <= i < name.len() - 1 && name[i] == '/'
            && name[i + 1] == '/';
        assert(name[i] == '/' && name[i + 1] == '/');
    }
}

/// Somewhere in `text` nothing stands before, behind or between separators.
spec fn has_empty_segment(text: Text) -> bool {
    ||| text.len() == 0
    ||| text[0] == '/'
    ||| text.last() == '/'
    ||| exists|i: int| #![trigger text[i]] 0 <= i < text.len() - 1 && text[i] == '/' && text[i + 1]
        == '/'
}

proof fn lemma_empty_segments(text: Text)
    ensures
        crate::text::pieces(text, "/"@).contains(Seq::<char>::empty()) <==> has_empty_segment(text),
    decreases text.len(),
{
    reveal_strlit("/");
    let slash = "/"@;
    let empty = Seq::<char>::empty();
    let parts = crate::text::pieces(text, slash);
    crate::text::law_first_occurrences(text, slash);
    match crate::text::first_occurrence(text, slash) {
        Some(i) => {
            assert(text.subrange(i, i + 1)[0] == text[i]);
            assert(text[i] == '/');
            assert forall|j: int| 0 <= j < i implies #[trigger] text[j] != '/' by {
                if text[j] == '/' {
                    assert(text.subrange(j, j + 1) =~= slash);
                }
            }
            let rest = text.skip(i + 1);
            lemma_empty_segments(rest);
            let inner = crate::text::pieces(rest, slash);
            assert(parts =~= seq![text.take(i)] + inner);
            assert(parts[0] == text.take(i));
            if parts.contains(empty) {
                let k = choose|k: int| 0 <= k < parts.len() && parts[k] == empty;
                if k == 0 {
                    assert(i == 0);
                } else {
                    assert(inner[k - 1] == empty);
                    assert(inner.contains(empty));
                    if rest.len() == 0 {
                        assert(text.last() == '/');
                    } else if rest[0] == '/' {
                        assert(text[i + 1] == '/');
                    } else if rest.last() == '/' {
                        assert(text.last() == '/');
                    } else {
                        let m = choose|m: int| #![trigger rest[m]] 0 <= m < rest.len() - 1
                            && rest[m] == '/' && rest[m + 1] == '/';
                        assert(text[i + 1 + m] == '/' && text[i + 1 + m + 1] == '/');
                    }
                }
            } else {
                assert(i > 0) by {
                    if i == 0 {
                        assert(text.take(0) =~= empty);
                    }
                }
                if inner.contains(empty) {
                    let k = choose|k: int| 0 <= k < inner.len() && inner[k] == empty;
                    assert(parts[k + 1] == empty);
                }
                assert(!has_empty_segment(rest));
                assert(rest.last() == text.last());
                assert forall|m: int| 0 <= m < text.len() - 1 implies !(#[trigger] text[m] == '/'
                    && text[m + 1] == '/') by {
                    if m == i {
                        assert(rest[0] == text[m + 1]);
                    } else if m > i {
                        assert(rest[m - i - 1] == text[m] && rest[m - i] == text[m + 1]);
                    }
                }
            }
        },
        None => {
            assert(parts =~= seq![text]);
            assert(parts[0] == text);
            assert forall|j: int| 0 <= j < text.len() implies #[trigger] text[j] != '/' by {
                if text[j] == '/' {
                    assert(text.subrange(j, j + 1) =~= slash);
                }
            }
            if text.len() == 0 {
                assert(text =~= empty);
            }
        },
    }
}

}
