//! Semantic versions and version requirements, as the `semver` crate reads and orders them.
//!
//! A version is kept as its text: `semver` accepts one spelling per version, so the text
//! determines the version and is what the version prints as.

use crate::text::Text;
use vstd::prelude::*;

verus! {

/// Why `semver::Version::parse` refuses `text`; `None` when it accepts it.
pub uninterp spec fn version_fault(text: Text) -> Option<Text>;

/// Whether version `a` is older than version `b`, as `semver::Version` orders them.
pub uninterp spec fn older(a: Text, b: Text) -> bool;

/// Why `semver::VersionReq::parse` refuses `text`; `None` when it accepts it.
pub uninterp spec fn requirement_fault(text: Text) -> Option<Text>;

/// Whether requirement `requirement` admits version `version`, as `semver::VersionReq::matches`
/// decides.
pub uninterp spec fn admits(requirement: Text, version: Text) -> bool;

/// `text` is a version.
pub open spec fn is_version(text: Text) -> bool {
    version_fault(text) is None
}

/// A character that versions are made of.
pub open spec fn is_version_char(c: char) -> bool {
    ||| '0' <= c <= '9'
    ||| 'a' <= c <= 'z'
    ||| 'A' <= c <= 'Z'
    ||| c == '.'
    ||| c == '-'
    ||| c == '+'
}

/// The requirement that pins `version`.
pub open spec fn exactly(version: Text) -> Text {
    seq!['='] + version
}

/// `semver::Version::parse`: the message of its error, `None` when it accepts the text. A text
/// that it accepts is not empty and made of digits, ASCII letters, `.`, `-` and `+`.
#[verifier::external_body]
fn version_error(text: &str) -> (r: Option<String>)
    ensures
        crate::text::optional_text(r) == version_fault(text@),
        r is None ==> text@.len() > 0,
        r is None ==> forall|i: int| 0 <= i < text@.len() ==> is_version_char(#[trigger] text@[i]),
{
    semver::Version::parse(text).err().map(|error| error.to_string())
}

/// `<` on `semver::Version`. Both texts are parsed first; a text that is no version compares as
/// not older. Versions are strictly and totally ordered, and two versions are equal exactly
/// when their texts are.
#[verifier::external_body]
fn version_older(a: &str, b: &str) -> (r: bool)
    ensures
        r == older(a@, b@),
        r ==> is_version(a@) && is_version(b@),
        r ==> !older(b@, a@),
        r ==> forall|c: Text| #[trigger] older(b@, c) ==> older(a@, c),
        r ==> forall|c: Text| #[trigger] older(c, a@) ==> older(c, b@),
        !r && is_version(a@) && is_version(b@) ==> a@ == b@ || older(b@, a@),
{
    match (semver::Version::parse(a), semver::Version::parse(b)) {
        (Ok(left), Ok(right)) => left < right,
        _ => false,
    }
}

/// `semver::VersionReq::parse`: the message of its error, `None` when it accepts the text. It
/// accepts `=` followed by a version.
#[verifier::external_body]
fn requirement_error(text: &str) -> (r: Option<String>)
    ensures
        crate::text::optional_text(r) == requirement_fault(text@),
        text@.len() > 0 && text@[0] == '=' && is_version(text@.skip(1)) ==> r is None,
{
    semver::VersionReq::parse(text).err().map(|error| error.to_string())
}

/// `semver::VersionReq::matches`. Both texts are parsed first; a text that does not parse
/// matches nothing. `=` followed by a version matches that version.
#[verifier::external_body]
fn requirement_admits(requirement: &str, version: &str) -> (r: bool)
    ensures
        r == admits(requirement@, version@),
        r ==> requirement_fault(requirement@) is None && is_version(version@),
        is_version(version@) && requirement@ == exactly(version@) ==> r,
{
    match (semver::VersionReq::parse(requirement), semver::Version::parse(version)) {
        (Ok(req), Ok(ver)) => req.matches(&ver),
        _ => false,
    }
}

/// A semantic version.
#[derive(Debug, PartialEq, Eq)]
pub struct Version {
    text: String,
}

impl View for Version {
    type V = Text;

    closed spec fn view(&self) -> Text {
        self.text@
    }
}

impl Clone for Version {
    /// The same version again.
    fn clone(&self) -> (r: Version)
        ensures
            r@ == self@,
    {
        proof {
            use_type_invariant(self);
        }
        Version { text: self.text.clone() }
    }
}

impl Version {
    /// A version's text is one that `semver` accepts.
    #[verifier::type_invariant]
    spec fn is_accepted(self) -> bool {
        is_version(self.text@)
    }

    /// Read a version from its text; the error is `semver`'s message.
    pub fn parse(text: &str) -> (r: Result<Version, String>)
        ensures
            match r {
                Ok(version) => version_fault(text@) is None && version@ == text@,
                Err(message) => version_fault(text@) == Some(message@),
            },
            r is Ok ==> text@.len() > 0 && forall|i: int|
                0 <= i < text@.len() ==> is_version_char(#[trigger] text@[i]),
    {
        match version_error(text) {
            None => Ok(Version { text: text.to_owned() }),
            Some(message) => Err(message),
        }
    }

    /// The version's text.
    pub fn to_string(&self) -> (r: String)
        ensures
            r@ == self@,
    {
        self.text.clone()
    }

    /// The version's text, borrowed.
    pub fn as_str(&self) -> (r: &str)
        ensures
            r@ == self@,
    {
        self.text.as_str()
    }

    /// Whether this version is older than `other`.
    pub fn older_than(&self, other: &Version) -> (r: bool)
        ensures
            r == older(self@, other@),
            is_version(self@) && is_version(other@),
            r ==> !older(other@, self@),
            r ==> forall|c: Text| #[trigger] older(other@, c) ==> older(self@, c),
            r ==> forall|c: Text| #[trigger] older(c, self@) ==> older(c, other@),
            !r ==> self@ == other@ || older(other@, self@),
    {
        proof {
            use_type_invariant(self);
            use_type_invariant(other);
        }
        version_older(self.text.as_str(), other.text.as_str())
    }
}

/// Whether `requirement` is one that `semver` accepts: `None`, or the reason why not.
pub fn refused(requirement: &str) -> (r: Option<String>)
    ensures
        crate::text::optional_text(r) == requirement_fault(requirement@),
        requirement@.len() > 0 && requirement@[0] == '=' && is_version(requirement@.skip(1))
            ==> r is None,
{
    requirement_error(requirement)
}

/// Whether `requirement` admits `version`.
pub fn satisfied_by(requirement: &str, version: &Version) -> (r: bool)
    ensures
        r == admits(requirement@, version@),
        requirement@ == exactly(version@) ==> r,
{
    proof {
        use_type_invariant(version);
    }
    requirement_admits(requirement, version.text.as_str())
}

}
