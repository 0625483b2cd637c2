//! Paths as text, with `/` between segments.

use crate::text::{begins_with, chars_of, find_last, quoted, same, split, text_between, Text};
use vstd::prelude::*;
use vstd::string::*;

verus! {

/// `path` starts at the root.
pub open spec fn is_absolute(path: Text) -> bool {
    crate::text::begins(path, "/"@)
}

/// A segment that names something: neither empty nor `.`.
pub open spec fn names_something(segment: Text) -> bool {
    segment.len() > 0 && segment != "."@
}

/// The segments of `pieces` that name something, in order.
pub open spec fn named(pieces: Seq<Text>) -> Seq<Text>
    decreases pieces.len(),
{
    if pieces.len() == 0 {
        Seq::empty()
    } else if names_something(pieces.last()) {
        named(pieces.drop_last()).push(pieces.last())
    } else {
        named(pieces.drop_last())
    }
}

/// The segments of `path` that name something, in order.
pub open spec fn segments(path: Text) -> Seq<Text> {
    named(crate::text::pieces(path, "/"@))
}

/// What `path` is called in its directory; `None` when it names no entry of one.
pub open spec fn entry_name(path: Text) -> Option<Text> {
    let all = segments(path);
    if all.len() == 0 || all.last() == ".."@ {
        None
    } else {
        Some(all.last())
    }
}

/// `path` is `root` or lies below it; both are canonical, that is without `.` and `..`.
pub open spec fn lies_within(path: Text, root: Text) -> bool {
    is_absolute(path) == is_absolute(root) && segments(root).is_prefix_of(segments(path))
}

/// `relative` followed from `base`; an absolute one stands for itself.
pub open spec fn joined_path(base: Text, relative: Text) -> Text {
    if is_absolute(relative) {
        relative
    } else if base.len() == 0 || base.last() == '/' {
        base + relative
    } else {
        base + "/"@ + relative
    }
}

/// `relative` cannot leave the directory it is followed from.
pub open spec fn is_contained(relative: Text) -> bool {
    !is_absolute(relative) && !segments(relative).contains(".."@)
}

/// The path that a contained `relative` names below `base`; any other is refused.
pub open spec fn contained_path(base: Text, relative: Text) -> Result<Text, Text> {
    if is_contained(relative) {
        Ok(joined_path(base, relative))
    } else {
        Err("unsafe path "@ + crate::text::quotation(relative))
    }
}

/// The segments of `path` that name something.
pub fn path_segments(path: &str) -> (list: Vec<String>)
    ensures
        crate::text::texts(list@) == segments(path@),
{
    proof {
        reveal_strlit("/");
    }
    let parts = split(path, "/");
    let ghost all = crate::text::texts(parts@);
    let mut list: Vec<String> = Vec::new();
    let mut i: usize = 0;
    assert(crate::text::texts(list@) == named(all.take(0)));
    while i < parts.len()
        invariant
            i <= parts@.len(),
            all == crate::text::texts(parts@),
            crate::text::texts(list@) == named(all.take(i as int)),
        decreases parts@.len() - i,
    {
        let ghost before = list@;
        assert(all.take(i + 1).drop_last() == all.take(i as int));
        assert(all.take(i + 1).last() == parts@[i as int]@);
        if !parts[i].as_str().is_empty() && !same(parts[i].as_str(), ".") {
            list.push(parts[i].clone());
            assert(crate::text::texts(list@) == crate::text::texts(before).push(
                parts@[i as int]@,
            ));
        }
        i = i + 1;
    }
    assert(all.take(i as int) == all);
    list
}

/// What `path` is called in its directory.
pub fn file_name(path: &str) -> (r: Option<String>)
    ensures
        crate::text::optional_text(r) == entry_name(path@),
{
    let mut list = path_segments(path);
    let ghost all = crate::text::texts(list@);
    match list.pop() {
        None => None,
        Some(last) => {
            assert(all.last() == last@);
            if same(last.as_str(), "..") {
                None
            } else {
                Some(last)
            }
        },
    }
}

/// Whether `path` is `root` or lies below it.
pub fn is_within(path: &str, root: &str) -> (r: bool)
    ensures
        r == lies_within(path@, root@),
{
    if begins_with(path, "/") != begins_with(root, "/") {
        return false;
    }
    let inner = path_segments(path);
    let outer = path_segments(root);
    let ghost a = crate::text::texts(inner@);
    let ghost b = crate::text::texts(outer@);
    if outer.len() > inner.len() {
        return false;
    }
    let mut i: usize = 0;
    while i < outer.len()
        invariant
            i <= outer@.len() <= inner@.len(),
            a == crate::text::texts(inner@),
            b == crate::text::texts(outer@),
            a == segments(path@),
            b == segments(root@),
            forall|k: int| 0 <= k < i ==> a[k] == b[k],
        decreases outer@.len() - i,
    {
        if !same(inner[i].as_str(), outer[i].as_str()) {
            assert(a[i as int] != b[i as int]);
            assert(a.subrange(0, b.len() as int)[i as int] != b[i as int]);
            return false;
        }
        i = i + 1;
    }
    assert(b == a.subrange(0, b.len() as int));
    true
}

/// `relative` followed from `base`.
pub fn join_path(base: &str, relative: &str) -> (r: String)
    ensures
        r@ == joined_path(base@, relative@),
{
    if begins_with(relative, "/") {
        return relative.to_owned();
    }
    let mut out = base.to_owned();
    let n: usize = base.unicode_len();
    if n > 0 && base.get_char(n - 1) != '/' {
        out.append("/");
    }
    out.append(relative);
    out
}

/// Follow `relative` from `base`, refusing an absolute path or one with a `..` segment.
pub fn safe_join(base: &str, relative: &str) -> (r: Result<String, String>)
    ensures
        match r {
            Ok(path) => contained_path(base@, relative@) == Ok::<Text, Text>(path@),
            Err(message) => contained_path(base@, relative@) == Err::<Text, Text>(message@),
        },
{
    let list = path_segments(relative);
    let ghost all = crate::text::texts(list@);
    let mut i: usize = 0;
    let mut climbs = false;
    while i < list.len()
        invariant
            i <= list@.len(),
            all == crate::text::texts(list@),
            climbs == exists|k: int| 0 <= k < i && all[k] == ".."@,
        decreases list@.len() - i,
    {
        if same(list[i].as_str(), "..") {
            assert(all[i as int] == ".."@);
            climbs = true;
        }
        i = i + 1;
    }
    if begins_with(relative, "/") || climbs {
        let mut message = "unsafe path ".to_owned();
        message.append(quoted(relative).as_str());
        Err(message)
    } else {
        Ok(join_path(base, relative))
    }
}

/// `path` without separators and `.` segments at its end; a root and a lone `.` stay.
pub open spec fn tail_trimmed(path: Text) -> Text
    decreases path.len(),
{
    if path.len() <= 1 {
        path
    } else if path.last() == '/' {
        tail_trimmed(path.drop_last())
    } else if path.last() == '.' && path[path.len() - 2] == '/' {
        tail_trimmed(path.drop_last())
    } else {
        path
    }
}

/// `path` without its last segment; a root and an empty path have none.
pub open spec fn parent_of(path: Text) -> Option<Text> {
    let trimmed = tail_trimmed(path);
    if trimmed.len() == 0 || trimmed == "/"@ {
        None
    } else {
        match crate::text::last_position(trimmed, '/') {
            None => Some(Seq::empty()),
            Some(i) => if i == 0 {
                Some("/"@)
            } else {
                Some(tail_trimmed(trimmed.take(i)))
            },
        }
    }
}

proof fn lemma_tail_trimmed(path: Text)
    ensures
        tail_trimmed(path).len() <= path.len(),
    decreases path.len(),
{
    if path.len() > 1 {
        lemma_tail_trimmed(path.drop_last());
    }
}

/// A parent is a shorter path.
pub proof fn lemma_parent_is_shorter(path: Text)
    ensures
        parent_of(path) matches Some(parent) ==> parent.len() < path.len(),
{
    reveal_strlit("/");
    let trimmed = tail_trimmed(path);
    lemma_tail_trimmed(path);
    lemma_after_last_position(trimmed, '/');
    if let Some(i) = crate::text::last_position(trimmed, '/') {
        lemma_tail_trimmed(trimmed.take(i));
        if i == 0 && trimmed.len() == 1 {
            assert(trimmed == "/"@);
        }
    }
}

/// `path` and everything above it, nearest first.
pub open spec fn ascent(path: Text) -> Seq<Text>
    decreases path.len(),
{
    match parent_of(path) {
        Some(parent) => if parent.len() < path.len() {
            seq![path] + ascent(parent)
        } else {
            seq![path]
        },
        None => seq![path],
    }
}

fn trim_tail(path: &str) -> (r: String)
    ensures
        r@ == tail_trimmed(path@),
{
    let chars = chars_of(path);
    let mut end: usize = chars.len();
    assert(chars@.take(end as int) == chars@);
    while end > 1 && (chars[end - 1] == '/' || chars[end - 1] == '.' && chars[end - 2] == '/')
        invariant
            end <= chars@.len(),
            tail_trimmed(chars@) == tail_trimmed(chars@.take(end as int)),
        decreases end,
    {
        assert(chars@.take(end as int).drop_last() == chars@.take(end - 1));
        end = end - 1;
    }
    let r = text_between(&chars, 0, end);
    assert(r@ == chars@.take(end as int));
    r
}

/// `path` without its last segment.
pub fn parent(path: &str) -> (r: Option<String>)
    ensures
        crate::text::optional_text(r) == parent_of(path@),
{
    let trimmed = trim_tail(path);
    if trimmed.as_str().is_empty() || same(trimmed.as_str(), "/") {
        return None;
    }
    let chars = chars_of(trimmed.as_str());
    match find_last(&chars, '/') {
        None => {
            let empty = String::new();
            assert(empty@ == Seq::<char>::empty());
            Some(empty)
        },
        Some(i) => if i == 0 {
            Some("/".to_owned())
        } else {
            let head = text_between(&chars, 0, i);
            assert(head@ == trimmed@.take(i as int));
            Some(trim_tail(head.as_str()))
        },
    }
}

/// `path` and everything above it, nearest first.
pub fn ancestors(path: &str) -> (r: Vec<String>)
    ensures
        crate::text::texts(r@) == ascent(path@),
{
    let mut list: Vec<String> = Vec::new();
    let mut at = path.to_owned();
    list.push(path.to_owned());
    assert(crate::text::texts(list@) == seq![path@]);
    loop
        invariant
            list@.len() > 0,
            crate::text::texts(list@).last() == at@,
            ascent(path@) == crate::text::texts(list@).drop_last() + ascent(at@),
        decreases at@.len(),
    {
        proof {
            lemma_parent_is_shorter(at@);
        }
        let ghost before = crate::text::texts(list@);
        match parent(at.as_str()) {
            None => {
                assert(before.drop_last() + seq![at@] == before);
                return list;
            },
            Some(above) => {
                list.push(above.clone());
                proof {
                    let now = crate::text::texts(list@);
                    assert(now == before.push(above@));
                    assert(now.drop_last() == before);
                    assert(before.drop_last() + (seq![at@] + ascent(above@)) == before + ascent(
                        above@,
                    ));
                }
                at = above;
            },
        }
    }
}

// ---------------------------------------------------------------------------
// Laws
// ---------------------------------------------------------------------------

/// Where the first separator of a joined text stands.
proof fn lemma_first_separator(a: Text, b: Text)
    ensures
        crate::text::first_occurrence(a + "/"@ + b, "/"@) == (match crate::text::first_occurrence(
            a,
            "/"@,
        ) {
            Some(i) => Some(i),
            None => Some(a.len() as int),
        }),
    decreases a.len(),
{
    reveal_strlit("/");
    let whole = a + "/"@ + b;
    if a.len() == 0 {
        assert(whole.take(1) == "/"@);
    } else {
        assert(whole.take(1)[0] == a[0]);
        assert(a.take(1)[0] == a[0]);
        if a[0] == '/' {
            assert(whole.take(1) == "/"@);
            assert(a.take(1) == "/"@);
        } else {
            assert(!crate::text::begins(whole, "/"@));
            assert(!crate::text::begins(a, "/"@));
            assert(whole.skip(1) == a.skip(1) + "/"@ + b);
            lemma_first_separator(a.skip(1), b);
        }
    }
}

/// The pieces of a joined text are the pieces of its two parts.
proof fn lemma_pieces_of_joined(a: Text, b: Text)
    ensures
        crate::text::pieces(a + "/"@ + b, "/"@) == crate::text::pieces(a, "/"@)
            + crate::text::pieces(b, "/"@),
    decreases a.len(),
{
    reveal_strlit("/");
    let whole = a + "/"@ + b;
    lemma_first_separator(a, b);
    crate::text::lemma_first_occurrence(whole, "/"@);
    crate::text::lemma_first_occurrence(a, "/"@);
    match crate::text::first_occurrence(a, "/"@) {
        Some(i) => {
            let rest = a.skip(i + 1);
            lemma_pieces_of_joined(rest, b);
            assert(whole.skip(i + 1) == rest + "/"@ + b);
            assert(whole.take(i) == a.take(i));
            assert(crate::text::pieces(whole, "/"@) == seq![a.take(i)] + crate::text::pieces(
                rest + "/"@ + b,
                "/"@,
            ));
            assert(crate::text::pieces(a, "/"@) == seq![a.take(i)] + crate::text::pieces(
                rest,
                "/"@,
            ));
        },
        None => {
            assert(whole.take(a.len() as int) == a);
            assert(whole.skip((a.len() + 1) as int) == b);
            assert(crate::text::pieces(a, "/"@) == seq![a]);
        },
    }
}

/// The named segments of two lists together.
proof fn lemma_named_of_joined(x: Seq<Text>, y: Seq<Text>)
    ensures
        named(x + y) == named(x) + named(y),
    decreases y.len(),
{
    if y.len() == 0 {
        assert(x + y == x);
        assert(named(x) + named(y) == named(x));
    } else {
        assert((x + y).drop_last() == x + y.drop_last());
        lemma_named_of_joined(x, y.drop_last());
        if names_something(y.last()) {
            assert((named(x) + named(y.drop_last())).push(y.last()) == named(x) + named(
                y.drop_last(),
            ).push(y.last()));
        }
    }
}

/// The empty path has no segments.
pub proof fn lemma_no_segments()
    ensures
        segments(Seq::<char>::empty()) == Seq::<Text>::empty(),
{
    reveal_strlit("/");
    let empty = Seq::<char>::empty();
    assert(crate::text::first_occurrence(empty, "/"@) is None);
    assert(crate::text::pieces(empty, "/"@) == seq![empty]);
    assert(seq![empty].drop_last() == Seq::<Text>::empty());
    assert(named(Seq::<Text>::empty()) == Seq::<Text>::empty());
}

/// The segments of a joined path are those of the directory followed by those of the rest.
pub proof fn lemma_segments_of_joined(base: Text, relative: Text)
    requires
        !is_absolute(relative),
    ensures
        segments(joined_path(base, relative)) == segments(base) + segments(relative),
        is_absolute(joined_path(base, relative)) == is_absolute(base),
{
    reveal_strlit("/");
    let joined = joined_path(base, relative);
    if base.len() == 0 {
        assert(joined == relative);
        assert(crate::text::first_occurrence(base, "/"@) is None);
        assert(crate::text::pieces(base, "/"@) == seq![base]);
        assert(seq![base].drop_last() == Seq::<Text>::empty());
        assert(named(Seq::<Text>::empty()) == Seq::<Text>::empty());
        assert(named(seq![base]) == Seq::<Text>::empty());
        assert(Seq::<Text>::empty() + segments(relative) == segments(relative));
    } else {
        assert(joined.take(1)[0] == base[0]);
        assert(base.take(1)[0] == base[0]);
        if base[0] == '/' {
            assert(joined.take(1) == "/"@);
            assert(base.take(1) == "/"@);
        }
        if base.last() == '/' {
            let head = base.drop_last();
            let empty = Seq::<char>::empty();
            assert(joined == head + "/"@ + relative);
            assert(base == head + "/"@ + empty);
            lemma_pieces_of_joined(head, relative);
            lemma_pieces_of_joined(head, empty);
            lemma_named_of_joined(
                crate::text::pieces(head, "/"@),
                crate::text::pieces(relative, "/"@),
            );
            lemma_named_of_joined(
                crate::text::pieces(head, "/"@),
                crate::text::pieces(empty, "/"@),
            );
            assert(crate::text::pieces(empty, "/"@) == seq![empty]);
            assert(seq![empty].drop_last() == Seq::<Text>::empty());
            assert(named(Seq::<Text>::empty()) == Seq::<Text>::empty());
            assert(named(seq![empty]) == Seq::<Text>::empty());
        } else {
            lemma_pieces_of_joined(base, relative);
            lemma_named_of_joined(
                crate::text::pieces(base, "/"@),
                crate::text::pieces(relative, "/"@),
            );
        }
    }
}

/// A text without separators is one piece.
proof fn lemma_one_piece(text: Text)
    requires
        !text.contains('/'),
    ensures
        crate::text::pieces(text, "/"@) == seq![text],
{
    reveal_strlit("/");
    crate::text::lemma_first_occurrence(text, "/"@);
    if let Some(i) = crate::text::first_occurrence(text, "/"@) {
        assert(text.skip(i).take(1)[0] == text[i]);
        assert(text.contains('/'));
    }
}

/// One more piece adds a segment where it names something.
proof fn lemma_segments_with_piece(head: Text, piece: Text)
    requires
        !piece.contains('/'),
    ensures
        segments(head + "/"@ + piece) == if names_something(piece) {
            segments(head).push(piece)
        } else {
            segments(head)
        },
{
    lemma_pieces_of_joined(head, piece);
    lemma_one_piece(piece);
    let pieces = crate::text::pieces(head, "/"@) + seq![piece];
    assert(pieces.drop_last() == crate::text::pieces(head, "/"@));
    assert(pieces.last() == piece);
}

/// Trimming the tail of a path keeps its segments and where it starts; what is left ends in a
/// segment, or is a single character.
proof fn lemma_trimmed_tail(path: Text)
    requires
        path.len() > 0,
    ensures
        ({
            let t = tail_trimmed(path);
            &&& segments(t) == segments(path)
            &&& t.len() > 0 && t[0] == path[0]
            &&& t.len() > 1 ==> t.last() != '/' && !(t.last() == '.' && t[t.len() - 2] == '/')
        }),
    decreases path.len(),
{
    reveal_strlit("/");
    reveal_strlit(".");
    if path.len() > 1 {
        let shorter = path.drop_last();
        if path.last() == '/' {
            let empty = Seq::<char>::empty();
            assert(path == shorter + "/"@ + empty);
            lemma_segments_with_piece(shorter, empty);
            lemma_trimmed_tail(shorter);
        } else if path.last() == '.' && path[path.len() - 2] == '/' {
            let head = path.take(path.len() - 2);
            let empty = Seq::<char>::empty();
            assert(path == head + "/"@ + "."@);
            assert(shorter == head + "/"@ + empty);
            assert(!"."@.contains('/'));
            lemma_segments_with_piece(head, "."@);
            lemma_segments_with_piece(head, empty);
            lemma_trimmed_tail(shorter);
        }
    }
}

proof fn lemma_after_last_position(text: Text, c: char)
    ensures
        match crate::text::last_position(text, c) {
            Some(i) => 0 <= i < text.len() && text[i] == c && forall|j: int|
                i < j < text.len() ==> text[j] != c,
            None => !text.contains(c),
        },
    decreases text.len(),
{
    if text.len() > 0 {
        let shorter = text.drop_last();
        lemma_after_last_position(shorter, c);
        match crate::text::last_position(text, c) {
            Some(i) => {
                assert forall|j: int| i < j < text.len() implies text[j] != c by {
                    if j < shorter.len() {
                        assert(shorter[j] == text[j]);
                    }
                }
            },
            None => {
                if text.contains(c) {
                    let k = choose|k: int| 0 <= k < text.len() && text[k] == c;
                    if k < shorter.len() {
                        assert(shorter[k] == c);
                    }
                }
            },
        }
    }
}

/// The parent of an absolute path is absolute and lacks the last segment.
pub proof fn lemma_parent_segments(path: Text)
    requires
        path.len() > 0,
        path[0] == '/',
    ensures
        parent_of(path) matches Some(parent) ==> parent.len() > 0 && parent[0] == '/'
            && segments(path).len() > 0 && segments(parent) == segments(path).drop_last(),
{
    reveal_strlit("/");
    reveal_strlit(".");
    let trimmed = tail_trimmed(path);
    lemma_trimmed_tail(path);
    if parent_of(path) is Some {
        lemma_after_last_position(trimmed, '/');
        assert(trimmed.contains(trimmed[0]));
        let i = crate::text::last_position(trimmed, '/')->0;
        if trimmed.len() == 1 {
            assert(trimmed == "/"@);
        }
        let head = trimmed.take(i);
        let piece = trimmed.skip(i + 1);
        assert(trimmed == head + "/"@ + piece);
        assert(piece.len() > 0) by {
            if piece.len() == 0 {
                assert(trimmed.last() == '/');
            }
        }
        assert(piece != "."@) by {
            if piece == "."@ {
                assert(trimmed.last() == piece.last());
                assert(trimmed[trimmed.len() - 2] == '/');
            }
        }
        assert(!piece.contains('/')) by {
            if piece.contains('/') {
                let k = choose|k: int| 0 <= k < piece.len() && piece[k] == '/';
                assert(trimmed[i + 1 + k] == '/');
            }
        }
        lemma_segments_with_piece(head, piece);
        if i == 0 {
            lemma_no_segments();
            assert(head == Seq::<char>::empty());
            lemma_segments_with_piece(head, head);
            assert("/"@ == head + "/"@ + head);
        } else {
            lemma_trimmed_tail(head);
        }
    }
}

/// The levels above an absolute path have fewer and fewer segments.
pub proof fn lemma_ascent_loses_segments(path: Text, i: int, j: int)
    requires
        path.len() > 0,
        path[0] == '/',
        0 <= i < j < ascent(path).len(),
    ensures
        segments(ascent(path)[j]).len() < segments(ascent(path)[i]).len(),
    decreases path.len(),
{
    lemma_parent_segments(path);
    lemma_parent_is_shorter(path);
    let parent = parent_of(path)->0;
    assert(ascent(path)[j] == ascent(parent)[j - 1]);
    assert(ascent(parent)[0] == parent);
    if i > 0 {
        assert(ascent(path)[i] == ascent(parent)[i - 1]);
        lemma_ascent_loses_segments(parent, i - 1, j - 1);
    } else if j > 1 {
        lemma_ascent_loses_segments(parent, 0, j - 1);
    }
}

/// The levels above an absolute path are absolute, and the path lies within each of them.
pub proof fn lemma_ascent_is_above(path: Text, i: int)
    requires
        path.len() > 0,
        path[0] == '/',
        0 <= i < ascent(path).len(),
    ensures
        is_absolute(ascent(path)[i]),
        segments(ascent(path)[i]).is_prefix_of(segments(path)),
    decreases path.len(),
{
    reveal_strlit("/");
    if i == 0 {
        assert(path.take(1) == "/"@);
    } else {
        lemma_parent_segments(path);
        lemma_parent_is_shorter(path);
        let parent = parent_of(path)->0;
        assert(ascent(path)[i] == ascent(parent)[i - 1]);
        lemma_ascent_is_above(parent, i - 1);
    }
}

/// A contained path cannot leave the directory it is followed from: the result lies within the
/// directory, and below it no segment leads up.
pub proof fn law_contained_paths_stay_inside(base: Text, relative: Text)
    requires
        contained_path(base, relative) is Ok,
    ensures
        ({
            let path = contained_path(base, relative)->Ok_0;
            &&& lies_within(path, base)
            &&& segments(path) == segments(base) + segments(relative)
            &&& !segments(relative).contains(".."@)
        }),
{
    lemma_segments_of_joined(base, relative);
    let whole = segments(base) + segments(relative);
    assert(whole.subrange(0, segments(base).len() as int) == segments(base));
}

/// The segments of a path are its pieces between separators, without the empty ones and the dots.
pub proof fn law_segments_are_pieces(path: Text)
    ensures
        segments(path) == crate::text::pieces(path, "/"@).filter(
            |piece: Text| piece.len() > 0 && piece != seq!['.'],
        ),
{
    lemma_named_are_filtered(crate::text::pieces(path, "/"@));
}

proof fn lemma_named_are_filtered(pieces: Seq<Text>)
    ensures
        named(pieces) == pieces.filter(|piece: Text| piece.len() > 0 && piece != seq!['.']),
    decreases pieces.len(),
{
    reveal(Seq::filter);
    reveal_strlit(".");
    assert("."@ =~= seq!['.']);
    if pieces.len() > 0 {
        lemma_named_are_filtered(pieces.drop_last());
    }
}

/// The segments of two paths with a separator between are the segments of both. Nothing and a dot
/// are no segment; any other text without separators is one.
pub proof fn law_segments_part_at_separators(a: Text, b: Text, name: Text)
    requires
        !name.contains('/'),
    ensures
        segments(a + seq!['/'] + b) == segments(a) + segments(b),
        segments(name) == if name.len() == 0 || name == seq!['.'] {
            Seq::<Text>::empty()
        } else {
            seq![name]
        },
{
    reveal_strlit("/");
    reveal_strlit(".");
    assert("/"@ =~= seq!['/']);
    assert("."@ =~= seq!['.']);
    lemma_pieces_of_joined(a, b);
    lemma_named_of_joined(crate::text::pieces(a, "/"@), crate::text::pieces(b, "/"@));
    lemma_one_piece(name);
    assert(seq![name].drop_last() =~= Seq::<Text>::empty());
    assert(named(Seq::<Text>::empty()) =~= Seq::<Text>::empty());
    assert(named(seq![name]) =~= if names_something(name) {
        seq![name]
    } else {
        Seq::<Text>::empty()
    });
}

/// A path is called by its last segment, whatever stands before and however many separators
/// behind; one that leads up at its end is not called anything.
pub proof fn law_paths_are_called_by_their_end(head: Text, name: Text)
    requires
        !name.contains('/'),
        name.len() > 0,
        name != seq!['.'],
    ensures
        name != seq!['.', '.'] ==> entry_name(name) == Some(name),
        name != seq!['.', '.'] ==> entry_name(head + seq!['/'] + name) == Some(name),
        name != seq!['.', '.'] ==> entry_name(head + seq!['/'] + name + seq!['/']) == Some(name),
        entry_name(head + seq!['/', '.', '.']) is None,
        entry_name(seq!['/']) is None,
{
    reveal_strlit("..");
    let empty = Seq::<char>::empty();
    let up = seq!['.', '.'];
    assert(".."@ =~= up);
    assert(!empty.contains('/'));
    assert(!up.contains('/'));
    law_segments_part_at_separators(head, name, name);
    law_segments_part_at_separators(head, up, up);
    law_segments_part_at_separators(empty, empty, empty);
    let whole = head + seq!['/'] + name;
    law_segments_part_at_separators(whole, empty, empty);
    assert(whole + seq!['/'] + empty =~= whole + seq!['/']);
    assert(head + seq!['/'] + up =~= head + seq!['/', '.', '.']);
    assert(empty + seq!['/'] + empty =~= seq!['/']);
    assert((segments(head) + seq![name]).last() == name);
    assert((segments(head) + seq![up]).last() == up);
    assert(segments(whole + seq!['/']) =~= segments(whole));
    assert(segments(seq!['/']) =~= Seq::<Text>::empty());
    assert(up != seq!['.']) by {
        assert(up.len() == 2);
    }
}

/// Following a path: below a directory with one separator between, unless it is absolute.
pub proof fn law_paths_are_followed_below(base: Text, relative: Text)
    ensures
        relative.len() > 0 && relative[0] == '/' ==> joined_path(base, relative) == relative,
        (relative.len() == 0 || relative[0] != '/') ==> joined_path(base, relative) == if base.len()
            == 0 || base.last() == '/' {
            base + relative
        } else {
            base + seq!['/'] + relative
        },
{
    law_absolute_paths_start_at_the_root(relative);
    reveal_strlit("/");
    assert("/"@ =~= seq!['/']);
}

/// Absolute is what starts with a separator.
pub proof fn law_absolute_paths_start_at_the_root(path: Text)
    ensures
        is_absolute(path) <==> path.len() > 0 && path[0] == '/',
{
    reveal_strlit("/");
    if path.len() > 0 {
        assert(path.take(1) =~= seq![path[0]]);
        assert("/"@ =~= seq!['/']);
        if path[0] != '/' {
            assert(path.take(1)[0] != "/"@[0]);
        }
    }
}

/// A path lies within a directory exactly where both start alike and it has the directory's
/// segments first; so whatever is followed below a directory lies within it.
pub proof fn law_paths_within_share_their_start(path: Text, root: Text, below: Text)
    ensures
        lies_within(path, root) <==> (is_absolute(path) <==> is_absolute(root))
            && segments(root).len() <= segments(path).len() && forall|i: int|
            0 <= i < segments(root).len() ==> #[trigger] segments(path)[i] == segments(root)[i],
        root.len() > 0 ==> lies_within(root + seq!['/'] + below, root),
        lies_within(root, root),
{
    let a = segments(path);
    let b = segments(root);
    if b.len() <= a.len() && forall|i: int| 0 <= i < b.len() ==> #[trigger] a[i] == b[i] {
        assert(a.subrange(0, b.len() as int) =~= b);
        assert(b.is_prefix_of(a));
    }
    if b.is_prefix_of(a) {
        assert forall|i: int| 0 <= i < b.len() implies #[trigger] a[i] == b[i] by {
            assert(a.subrange(0, b.len() as int)[i] == a[i]);
        }
    }
    assert(b.subrange(0, b.len() as int) =~= b);
    if root.len() > 0 {
        let empty = Seq::<char>::empty();
        assert(!empty.contains('/'));
        law_segments_part_at_separators(root, below, empty);
        let whole = root + seq!['/'] + below;
        law_absolute_paths_start_at_the_root(root);
        law_absolute_paths_start_at_the_root(whole);
        assert(whole[0] == root[0]);
        assert((b + segments(below)).subrange(0, b.len() as int) =~= b);
    }
}

/// A path is contained exactly where it starts with no separator and no segment leads up; then it
/// is followed below the directory, and any other is refused.
pub proof fn law_only_contained_paths_are_followed(base: Text, relative: Text)
    ensures
        contained_path(base, relative) is Ok <==> (relative.len() == 0 || relative[0] != '/')
            && !crate::text::pieces(relative, "/"@).contains(seq!['.', '.']),
        contained_path(base, relative) matches Ok(path) ==> path == joined_path(base, relative),
        contained_path(base, relative) matches Err(message) ==> message == "unsafe path "@
            + crate::text::quotation(relative),
{
    law_absolute_paths_start_at_the_root(relative);
    reveal_strlit("..");
    let up = seq!['.', '.'];
    assert(".."@ =~= up);
    assert(up.len() == 2);
    lemma_named_holds(crate::text::pieces(relative, "/"@), up);
}

proof fn lemma_named_holds(pieces: Seq<Text>, piece: Text)
    requires
        piece.len() > 1,
    ensures
        named(pieces).contains(piece) <==> pieces.contains(piece),
    decreases pieces.len(),
{
    reveal_strlit(".");
    if pieces.len() > 0 {
        let shorter = pieces.drop_last();
        lemma_named_holds(shorter, piece);
        let all = named(pieces);
        let fewer = named(shorter);
        if pieces.contains(piece) {
            let k = choose|k: int| 0 <= k < pieces.len() && pieces[k] == piece;
            if k < shorter.len() {
                assert(shorter[k] == piece);
                assert(fewer.contains(piece));
                let m = choose|m: int| 0 <= m < fewer.len() && fewer[m] == piece;
                assert(all[m] == piece);
            } else {
                assert(all[all.len() - 1] == piece);
            }
        }
        if all.contains(piece) {
            let m = choose|m: int| 0 <= m < all.len() && all[m] == piece;
            if m < fewer.len() {
                assert(fewer[m] == piece);
                assert(shorter.contains(piece));
                let k = choose|k: int| 0 <= k < shorter.len() && shorter[k] == piece;
                assert(pieces[k] == piece);
            } else {
                assert(pieces[pieces.len() - 1] == piece);
            }
        }
    }
}

/// The parent of an entry is what stands before its name; a name alone lies in the empty path, and
/// neither the root nor the empty path has a parent.
pub proof fn law_parents_lack_the_name(head: Text, name: Text)
    requires
        !name.contains('/'),
        name.len() > 0,
        name != seq!['.'],
    ensures
        head.len() > 0 && head.last() != '/' && !(head.len() > 1 && head.last() == '.'
            && head[head.len() - 2] == '/') ==> parent_of(head + seq!['/'] + name) == Some(head),
        parent_of(seq!['/'] + name) == Some(seq!['/']),
        parent_of(name) == Some(Seq::<char>::empty()),
        parent_of(seq!['/']) is None,
        parent_of(Seq::<char>::empty()) is None,
{
    reveal_strlit("/");
    assert("/"@ =~= seq!['/']);
    let whole = head + seq!['/'] + name;
    let top = seq!['/'] + name;
    assert(name.contains(name.last()));
    lemma_name_ends_the_path(name);
    lemma_name_behind_a_separator(head, name);
    lemma_name_behind_a_separator(Seq::empty(), name);
    assert(Seq::<char>::empty() + seq!['/'] + name =~= top);
    crate::text::law_what_follows_the_last(head, '/', name);
    crate::text::law_what_follows_the_last(Seq::empty(), '/', name);
    assert(whole.take(head.len() as int) =~= head);
    assert(name != "/"@) by {
        if name == "/"@ {
            assert(name[0] == '/');
        }
    }
}

proof fn lemma_name_ends_the_path(name: Text)
    requires
        !name.contains('/'),
        name.len() > 0,
    ensures
        tail_trimmed(name) == name,
{
    assert(name.contains(name.last()));
    if name.len() > 1 {
        assert(name.contains(name[name.len() - 2]));
    }
}

proof fn lemma_name_behind_a_separator(head: Text, name: Text)
    requires
        !name.contains('/'),
        name.len() > 0,
        name != seq!['.'],
    ensures
        tail_trimmed(head + seq!['/'] + name) == head + seq!['/'] + name,
{
    let whole = head + seq!['/'] + name;
    assert(name.contains(name.last()));
    assert(whole.last() == name.last());
    if name.len() > 1 {
        assert(name.contains(name[name.len() - 2]));
        assert(whole[whole.len() - 2] == name[name.len() - 2]);
    } else {
        assert(name =~= seq![name[0]]);
        assert(name.last() != '.');
    }
}

/// The way up starts at the path, goes from each level to its parent, and ends where there is
/// none.
pub proof fn law_the_way_up(path: Text, i: int)
    requires
        0 <= i < ascent(path).len(),
    ensures
        ascent(path)[0] == path,
        parent_of(ascent(path)[i]) == if i + 1 < ascent(path).len() {
            Some(ascent(path)[i + 1])
        } else {
            None
        },
    decreases path.len(),
{
    lemma_parent_is_shorter(path);
    if let Some(parent) = parent_of(path) {
        let rest = ascent(parent);
        assert(ascent(path) == seq![path] + rest);
        law_the_way_up(parent, 0);
        assert(ascent(path)[1] == rest[0]);
        if i > 0 {
            law_the_way_up(parent, i - 1);
            assert(ascent(path)[i] == rest[i - 1]);
            if i + 1 < ascent(path).len() {
                assert(ascent(path)[i + 1] == rest[i]);
            }
        }
    } else {
        assert(ascent(path) =~= seq![path]);
    }
}

}
