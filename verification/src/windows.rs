//! Windows paths in the form that the library works on.
//!
//! The library's paths have `/` between segments and start with it where they are absolute. A
//! path of Windows is brought into that form before it is handed in: `C:\web` as `/C:/web`, with
//! the drive as the first segment, and `\\server\share` as `//server/share`. What comes out is
//! turned back.

use crate::text::{after_prefix, begins_with, chars_of, Text};
use vstd::prelude::*;
use vstd::string::*;

verus! {

/// `text` with every `from` replaced by `to`.
pub open spec fn exchanged(text: Text, from: char, to: char) -> Text {
    Seq::new(
        text.len(),
        |i: int|
            if text[i] == from {
                to
            } else {
                text[i]
            },
    )
}

/// `path` begins with a drive: a letter and a colon, with nothing or a `/` behind them.
pub open spec fn begins_with_drive(path: Text) -> bool {
    &&& path.len() >= 2
    &&& crate::dependency::is_letter(path[0])
    &&& path[1] == ':'
    &&& path.len() == 2 || path[2] == '/'
}

/// `path` stands for a path on a drive.
pub open spec fn is_on_drive(path: Text) -> bool {
    crate::text::begins(path, "/"@) && begins_with_drive(path.skip(1))
}

/// `path` without the prefix of an extended-length path.
pub open spec fn without_extension(path: Text) -> Text {
    if crate::text::begins(path, "\\\\?\\UNC\\"@) {
        "\\\\"@ + path.skip("\\\\?\\UNC\\"@.len() as int)
    } else if crate::text::begins(path, "\\\\?\\"@) {
        path.skip("\\\\?\\"@.len() as int)
    } else {
        path
    }
}

/// A path of Windows in the form that the library works on.
pub open spec fn portable(path: Text) -> Text {
    let slashed = exchanged(without_extension(path), '\\', '/');
    if slashed.len() > 2 && begins_with_drive(slashed) {
        "/"@ + slashed
    } else {
        slashed
    }
}

/// A path in the form that the library works on as one of Windows. A drive alone stands for its
/// root.
pub open spec fn native(path: Text) -> Text {
    if is_on_drive(path) {
        if path.len() == 3 {
            exchanged(path.skip(1) + "/"@, '/', '\\')
        } else {
            exchanged(path.skip(1), '/', '\\')
        }
    } else {
        exchanged(path, '/', '\\')
    }
}

/// `path` is reached by going up from `start`, past its drive or its server.
pub open spec fn is_past_root(start: Text, path: Text) -> bool {
    &&& is_on_drive(start) || crate::text::begins(start, "//"@)
    &&& crate::text::begins(path, "/"@)
    &&& !is_on_drive(path)
    &&& !crate::text::begins(path, "//"@)
}

fn exchange(text: &str, from: char, to: char) -> (r: String)
    ensures
        r@ == exchanged(text@, from, to),
{
    let chars = chars_of(text);
    let mut out = String::new();
    let mut i: usize = 0;
    while i < chars.len()
        invariant
            i <= chars@.len(),
            chars@ == text@,
            out@ == exchanged(text@, from, to).take(i as int),
        decreases chars@.len() - i,
    {
        let c = if chars[i] == from {
            to
        } else {
            chars[i]
        };
        out.push(c);
        assert(exchanged(text@, from, to).take(i + 1) == exchanged(text@, from, to).take(
            i as int,
        ).push(c));
        i = i + 1;
    }
    assert(exchanged(text@, from, to).take(i as int) == exchanged(text@, from, to));
    out
}

fn has_drive(path: &str) -> (r: bool)
    ensures
        r == begins_with_drive(path@),
{
    let chars = chars_of(path);
    if chars.len() < 2 {
        return false;
    }
    let first = chars[0];
    (('a' <= first && first <= 'z') || ('A' <= first && first <= 'Z')) && chars[1] == ':' && (
    chars.len() == 2 || chars[2] == '/')
}

/// Whether `path` stands for a path on a drive.
pub fn on_drive(path: &str) -> (r: bool)
    ensures
        r == is_on_drive(path@),
{
    proof {
        reveal_strlit("/");
    }
    match after_prefix(path, "/") {
        Some(rest) => has_drive(rest.as_str()),
        None => false,
    }
}

/// A path of Windows in the form that the library works on.
pub fn from_windows(path: &str) -> (r: String)
    ensures
        r@ == portable(path@),
{
    let plain = match after_prefix(path, "\\\\?\\UNC\\") {
        Some(rest) => {
            let mut server = "\\\\".to_owned();
            server.append(rest.as_str());
            server
        },
        None => match after_prefix(path, "\\\\?\\") {
            Some(rest) => rest,
            None => path.to_owned(),
        },
    };
    let slashed = exchange(plain.as_str(), '\\', '/');
    if has_drive(slashed.as_str()) && chars_of(slashed.as_str()).len() > 2 {
        let mut out = "/".to_owned();
        out.append(slashed.as_str());
        out
    } else {
        slashed
    }
}

/// A path in the form that the library works on as one of Windows.
pub fn to_windows(path: &str) -> (r: String)
    ensures
        r@ == native(path@),
{
    proof {
        reveal_strlit("/");
    }
    if !on_drive(path) {
        return exchange(path, '/', '\\');
    }
    match after_prefix(path, "/") {
        Some(mut rest) => {
            if chars_of(rest.as_str()).len() == 2 {
                rest.append("/");
            }
            exchange(rest.as_str(), '/', '\\')
        },
        None => exchange(path, '/', '\\'),
    }
}

/// Whether `path` is reached by going up from `start`, past its drive or its server.
pub fn past_root(start: &str, path: &str) -> (r: bool)
    ensures
        r == is_past_root(start@, path@),
{
    (on_drive(start) || begins_with(start, "//")) && begins_with(path, "/") && !on_drive(path)
        && !begins_with(path, "//")
}

// ---------------------------------------------------------------------------
// Laws
// ---------------------------------------------------------------------------

/// A path of Windows comes back as it went in, where it is written with `\` and is no
/// extended-length path.
pub proof fn law_windows_paths_come_back(path: Text)
    requires
        !path.contains('/'),
        without_extension(path) == path,
        !is_on_drive(exchanged(path, '\\', '/')),
    ensures
        native(portable(path)) == path,
{
    reveal_strlit("/");
    let slashed = exchanged(path, '\\', '/');
    assert(exchanged(slashed, '/', '\\') =~= path) by {
        assert forall|i: int| 0 <= i < path.len() implies exchanged(slashed, '/', '\\')[i]
            == path[i] by {
            assert(path.contains(path[i]));
        }
    }
    if slashed.len() > 2 && begins_with_drive(slashed) {
        assert(("/"@ + slashed).skip(1) =~= slashed);
        assert(("/"@ + slashed).take(1) =~= "/"@);
    }
}

/// Drive and UNC paths are absolute.
pub proof fn law_windows_roots_are_absolute(path: Text)
    requires
        crate::source::is_windows_form(path),
        without_extension(path) == path,
    ensures
        crate::path::is_absolute(portable(path)),
{
    reveal_strlit("/");
    reveal_strlit("\\\\");
    let slashed = exchanged(path, '\\', '/');
    if crate::text::begins(path, "\\\\"@) {
        assert(path.take(2)[0] == '\\');
        assert(slashed[0] == '/');
        assert(!(slashed.len() > 2 && begins_with_drive(slashed)));
        assert(slashed.take(1) =~= "/"@);
    } else {
        assert(begins_with_drive(slashed));
        assert(("/"@ + slashed).take(1) =~= "/"@);
    }
}

/// A path on a drive becomes an absolute one below the drive, with `/` between its segments, and
/// the other way round; a drive alone comes back as its root.
pub proof fn law_drives_are_roots(letter: char, rest: Text)
    requires
        crate::dependency::is_letter(letter),
    ensures
        portable(seq![letter, ':', '\\'] + rest) == seq!['/', letter, ':', '/'] + exchanged(
            rest,
            '\\',
            '/',
        ),
        native(seq!['/', letter, ':', '/'] + rest) == seq![letter, ':', '\\'] + exchanged(
            rest,
            '/',
            '\\',
        ),
        native(seq!['/', letter, ':']) == seq![letter, ':', '\\'],
        is_on_drive(seq!['/', letter, ':', '/'] + rest),
{
    reveal_strlit("/");
    reveal_strlit("\\\\?\\UNC\\");
    reveal_strlit("\\\\?\\");
    let path = seq![letter, ':', '\\'] + rest;
    if crate::text::begins(path, "\\\\?\\UNC\\"@) {
        assert(path.take(8)[0] == path[0]);
    }
    if crate::text::begins(path, "\\\\?\\"@) {
        assert(path.take(4)[0] == path[0]);
    }
    let slashed = exchanged(path, '\\', '/');
    assert(slashed[0] == letter && slashed[1] == ':' && slashed[2] == '/');
    assert("/"@ + slashed =~= seq!['/', letter, ':', '/'] + exchanged(rest, '\\', '/'));
    let below = seq!['/', letter, ':', '/'] + rest;
    assert(below.take(1) =~= "/"@);
    assert(below.skip(1) =~= seq![letter, ':', '/'] + rest);
    assert(begins_with_drive(below.skip(1)));
    assert(native(below) =~= seq![letter, ':', '\\'] + exchanged(rest, '/', '\\'));
    let drive = seq!['/', letter, ':'];
    assert(drive.take(1) =~= "/"@);
    assert(drive.skip(1) =~= seq![letter, ':']);
    assert(begins_with_drive(drive.skip(1)));
    assert(native(drive) =~= seq![letter, ':', '\\']);
}

/// A path on a server keeps its two separators; the prefix of an extended-length path goes, on a
/// server and on a drive.
pub proof fn law_servers_and_long_paths(rest: Text, letter: char)
    requires
        rest.len() > 0 && rest[0] != '?',
        crate::dependency::is_letter(letter),
    ensures
        portable(seq!['\\', '\\'] + rest) == seq!['/', '/'] + exchanged(rest, '\\', '/'),
        portable("\\\\?\\UNC\\"@ + rest) == seq!['/', '/'] + exchanged(rest, '\\', '/'),
        portable("\\\\?\\"@ + seq![letter, ':', '\\'] + rest) == seq!['/', letter, ':', '/']
            + exchanged(rest, '\\', '/'),
{
    reveal_strlit("/");
    reveal_strlit("\\\\?\\UNC\\");
    reveal_strlit("\\\\?\\");
    reveal_strlit("\\\\");
    let server = seq!['\\', '\\'] + rest;
    assert(server[2] == rest[0]);
    if crate::text::begins(server, "\\\\?\\UNC\\"@) {
        assert(server.take(8)[2] == server[2]);
    }
    if crate::text::begins(server, "\\\\?\\"@) {
        assert(server.take(4)[2] == server[2]);
    }
    assert(without_extension(server) == server);
    assert(exchanged(server, '\\', '/') =~= seq!['/', '/'] + exchanged(rest, '\\', '/'));
    let long = "\\\\?\\UNC\\"@ + rest;
    assert(long.take(8) =~= "\\\\?\\UNC\\"@);
    assert(long.skip(8) =~= rest);
    assert("\\\\"@ + rest =~= server);
    let path = seq![letter, ':', '\\'] + rest;
    let extended = "\\\\?\\"@ + seq![letter, ':', '\\'] + rest;
    assert(extended =~= "\\\\?\\"@ + path);
    assert(extended.take(4) =~= "\\\\?\\"@);
    assert(extended.skip(4) =~= path);
    if crate::text::begins(extended, "\\\\?\\UNC\\"@) {
        assert(extended.take(8)[5] == extended[5]);
        assert(extended[5] == ':');
    }
    law_drives_are_roots(letter, rest);
    if crate::text::begins(path, "\\\\?\\UNC\\"@) {
        assert(path.take(8)[0] == path[0]);
    }
    if crate::text::begins(path, "\\\\?\\"@) {
        assert(path.take(4)[0] == path[0]);
    }
}

/// Exchanging a character changes that one alone, wherever it stands.
pub proof fn law_characters_are_exchanged(text: Text, from: char, to: char, i: int)
    requires
        0 <= i < text.len(),
    ensures
        exchanged(text, from, to).len() == text.len(),
        text[i] == from ==> exchanged(text, from, to)[i] == to,
        text[i] != from ==> exchanged(text, from, to)[i] == text[i],
{
}

/// Going up leaves a drive or a server exactly where the start lies on one and the path, which is
/// absolute, on neither.
pub proof fn law_the_way_up_ends_at_the_root(start: Text, path: Text)
    ensures
        is_past_root(start, path) <==> (is_on_drive(start) || start.len() > 1 && start[0] == '/'
            && start[1] == '/') && path.len() > 0 && path[0] == '/' && !is_on_drive(path) && !(
        path.len() > 1 && path[1] == '/'),
        is_on_drive(path) <==> path.len() >= 3 && path[0] == '/' && ('a' <= path[1] <= 'z' || 'A'
            <= path[1] <= 'Z') && path[2] == ':' && (path.len() == 3 || path[3] == '/'),
{
    reveal_strlit("/");
    reveal_strlit("//");
    lemma_leading_separators(start);
    lemma_leading_separators(path);
}

proof fn lemma_leading_separators(path: Text)
    ensures
        crate::text::begins(path, "/"@) <==> path.len() > 0 && path[0] == '/',
        crate::text::begins(path, "//"@) <==> path.len() > 1 && path[0] == '/' && path[1] == '/',
        path.len() > 0 ==> path.skip(1).len() == path.len() - 1,
        path.len() > 1 ==> path.skip(1)[0] == path[1],
        path.len() > 2 ==> path.skip(1)[1] == path[2],
        path.len() > 3 ==> path.skip(1)[2] == path[3],
{
    reveal_strlit("/");
    reveal_strlit("//");
    if path.len() > 0 {
        assert(path.take(1)[0] == path[0]);
        if path[0] == '/' {
            assert(path.take(1) =~= "/"@);
        }
    }
    if path.len() > 1 {
        assert(path.take(2)[0] == path[0] && path.take(2)[1] == path[1]);
        if path[0] == '/' && path[1] == '/' {
            assert(path.take(2) =~= "//"@);
        }
    }
}

}
