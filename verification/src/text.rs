//! Text as a sequence of characters: the handful of string operations that the
//! rest of the library is written and specified with.

use vstd::prelude::*;
use vstd::string::*;

verus! {

/// The mathematical value of a string.
pub type Text = Seq<char>;

/// The mathematical value of an optional string.
pub open spec fn optional_text(value: Option<String>) -> Option<Text> {
    match value {
        Some(text) => Some(text@),
        None => None,
    }
}

/// The mathematical value of a list of strings.
pub open spec fn texts(list: Seq<String>) -> Seq<Text> {
    Seq::new(list.len(), |i: int| list[i]@)
}

/// `String::push` appends one character.
pub assume_specification[ String::push ](text: &mut String, c: char)
    ensures
        final(text)@ == old(text)@.push(c),
;

/// The characters of `text`, in order.
pub fn chars_of(text: &str) -> (chars: Vec<char>)
    ensures
        chars@ == text@,
{
    let mut chars: Vec<char> = Vec::new();
    for c in it: text.chars()
        invariant
            chars@ == text@.take(it.index()),
            it.seq() == text@,
    {
        chars.push(c);
    }
    assert(text@.take(text@.len() as int) == text@);
    chars
}

/// The text made of `chars[from..to]`.
pub fn text_between(chars: &Vec<char>, from: usize, to: usize) -> (text: String)
    requires
        from <= to <= chars@.len(),
    ensures
        text@ == chars@.subrange(from as int, to as int),
{
    let mut text = String::new();
    let mut i: usize = from;
    while i < to
        invariant
            from <= i <= to <= chars@.len(),
            text@ == chars@.subrange(from as int, i as int),
        decreases to - i,
    {
        text.push(chars[i]);
        i = i + 1;
    }
    text
}

/// Whether two texts are the same.
pub fn same(a: &str, b: &str) -> (r: bool)
    ensures
        r == (a@ == b@),
{
    a.to_owned() == b.to_owned()
}

// ---------------------------------------------------------------------------
// Prefixes and occurrences
// ---------------------------------------------------------------------------

/// `text` begins with `prefix`.
pub open spec fn begins(text: Text, prefix: Text) -> bool {
    prefix.len() <= text.len() && text.take(prefix.len() as int) == prefix
}

/// Where `needle` first occurs in `text`.
pub open spec fn first_occurrence(text: Text, needle: Text) -> Option<int>
    decreases text.len(),
{
    if begins(text, needle) {
        Some(0int)
    } else if text.len() == 0 {
        None
    } else {
        match first_occurrence(text.skip(1), needle) {
            Some(i) => Some(i + 1),
            None => None,
        }
    }
}

/// The pieces of `text` between the occurrences of `separator`, taken from the left.
pub open spec fn pieces(text: Text, separator: Text) -> Seq<Text>
    decreases text.len(),
{
    match first_occurrence(text, separator) {
        Some(i) => if separator.len() > 0 && 0 <= i <= text.len() - separator.len() {
            seq![text.take(i)] + pieces(text.skip(i + separator.len()), separator)
        } else {
            seq![text]
        },
        None => seq![text],
    }
}

/// An occurrence lies inside the text and spells the needle.
pub proof fn lemma_first_occurrence(text: Text, needle: Text)
    ensures
        first_occurrence(text, needle) matches Some(i) ==> {
            &&& 0 <= i <= text.len() - needle.len()
            &&& text.subrange(i, i + needle.len()) == needle
        },
    decreases text.len(),
{
    if begins(text, needle) {
    } else if text.len() > 0 {
        lemma_first_occurrence(text.skip(1), needle);
        if let Some(i) = first_occurrence(text.skip(1), needle) {
            assert(text.skip(1).subrange(i, i + needle.len()) == text.subrange(
                i + 1,
                i + 1 + needle.len(),
            ));
        }
    }
}

/// Whether `chars` continues with `needle` at position `at`.
fn occurs_at(chars: &Vec<char>, at: usize, needle: &Vec<char>) -> (r: bool)
    requires
        at <= chars@.len(),
    ensures
        r == begins(chars@.skip(at as int), needle@),
{
    let end: usize = chars.len();
    if needle.len() > end - at {
        return false;
    }
    let mut k: usize = 0;
    while k < needle.len()
        invariant
            end == chars@.len(),
            k <= needle@.len() <= chars@.len() - at,
            chars@.subrange(at as int, at + k) == needle@.take(k as int),
        decreases needle@.len() - k,
    {
        if chars[at + k] != needle[k] {
            assert(chars@.skip(at as int).take(needle@.len() as int)[k as int]
                != needle@[k as int]);
            return false;
        }
        assert(chars@.subrange(at as int, at + k + 1) == chars@.subrange(at as int, at + k).push(
            chars@[at + k],
        ));
        assert(needle@.take(k + 1) == needle@.take(k as int).push(needle@[k as int]));
        k = k + 1;
    }
    assert(chars@.skip(at as int).take(needle@.len() as int) == chars@.subrange(
        at as int,
        at + needle@.len(),
    ));
    assert(needle@.take(needle@.len() as int) == needle@);
    true
}

/// Where `needle` first occurs in `chars` at or after `from`.
fn find_from(chars: &Vec<char>, from: usize, needle: &Vec<char>) -> (r: Option<usize>)
    requires
        from <= chars@.len(),
    ensures
        r matches Some(i) ==> {
            &&& first_occurrence(chars@.skip(from as int), needle@) == Some(i - from)
            &&& from <= i <= chars@.len() - needle@.len()
        },
        r is None ==> first_occurrence(chars@.skip(from as int), needle@) is None,
{
    let mut i: usize = from;
    while i < chars.len()
        invariant
            from <= i <= chars@.len(),
            first_occurrence(chars@.skip(from as int), needle@) == (match first_occurrence(
                chars@.skip(i as int),
                needle@,
            ) {
                Some(k) => Some(k + (i - from)),
                None => None,
            }),
        decreases chars@.len() - i,
    {
        if occurs_at(chars, i, needle) {
            return Some(i);
        }
        assert(chars@.skip(i as int).skip(1) == chars@.skip(i + 1));
        i = i + 1;
    }
    if occurs_at(chars, i, needle) {
        return Some(i);
    }
    None
}

/// Whether `text` begins with `prefix`.
pub fn begins_with(text: &str, prefix: &str) -> (r: bool)
    ensures
        r == begins(text@, prefix@),
{
    let chars = chars_of(text);
    let needle = chars_of(prefix);
    assert(chars@.skip(0) == chars@);
    occurs_at(&chars, 0, &needle)
}

/// What follows `prefix` in `text`, when `text` begins with it.
pub fn after_prefix(text: &str, prefix: &str) -> (r: Option<String>)
    ensures
        r is Some <==> begins(text@, prefix@),
        r matches Some(rest) ==> rest@ == text@.skip(prefix@.len() as int),
{
    let chars = chars_of(text);
    let needle = chars_of(prefix);
    assert(chars@.skip(0) == chars@);
    if occurs_at(&chars, 0, &needle) {
        let rest = text_between(&chars, needle.len(), chars.len());
        assert(rest@ == text@.skip(prefix@.len() as int));
        Some(rest)
    } else {
        None
    }
}

/// Whether `needle` occurs anywhere in `text`.
pub fn contains(text: &str, needle: &str) -> (r: bool)
    ensures
        r == (first_occurrence(text@, needle@) is Some),
{
    let chars = chars_of(text);
    let needle = chars_of(needle);
    assert(chars@.skip(0) == chars@);
    find_from(&chars, 0, &needle).is_some()
}

/// `text` split around the first occurrence of `separator`.
pub fn split_once(text: &str, separator: &str) -> (r: Option<(String, String)>)
    ensures
        match first_occurrence(text@, separator@) {
            Some(i) => r matches Some((before, after)) && before@ == text@.take(i) && after@
                == text@.skip(i + separator@.len()),
            None => r is None,
        },
{
    let chars = chars_of(text);
    let needle = chars_of(separator);
    assert(chars@.skip(0) == chars@);
    match find_from(&chars, 0, &needle) {
        Some(i) => {
            let end: usize = chars.len();
            let before = text_between(&chars, 0, i);
            let after = text_between(&chars, i + needle.len(), end);
            assert(before@ == text@.take(i as int));
            assert(after@ == text@.skip(i + separator@.len()));
            Some((before, after))
        },
        None => None,
    }
}

/// The pieces of `text` between the occurrences of a non-empty `separator`.
pub fn split(text: &str, separator: &str) -> (list: Vec<String>)
    requires
        separator@.len() > 0,
    ensures
        texts(list@) == pieces(text@, separator@),
{
    let chars = chars_of(text);
    let needle = chars_of(separator);
    let mut list: Vec<String> = Vec::new();
    let mut from: usize = 0;
    assert(chars@.skip(0) == chars@);
    loop
        invariant
            from <= chars@.len(),
            chars@ == text@,
            needle@ == separator@,
            needle@.len() > 0,
            pieces(text@, separator@) == texts(list@) + pieces(
                chars@.skip(from as int),
                needle@,
            ),
        decreases chars@.len() - from,
    {
        match find_from(&chars, from, &needle) {
            Some(i) => {
                let end: usize = chars.len();
                let piece = text_between(&chars, from, i);
                assert(i + needle@.len() <= end);
                let ghost rest = chars@.skip(from as int);
                let ghost before = list@;
                assert(rest.take(i - from) == piece@);
                assert(rest.skip(i - from + needle@.len()) == chars@.skip(i + needle@.len()));
                list.push(piece);
                from = i + needle.len();
                assert(texts(list@) == texts(before).push(piece@));
                assert(texts(before) + (seq![piece@] + pieces(chars@.skip(from as int), needle@))
                    == texts(list@) + pieces(chars@.skip(from as int), needle@));
            },
            None => {
                let piece = text_between(&chars, from, chars.len());
                let ghost before = list@;
                assert(chars@.skip(from as int) == piece@);
                list.push(piece);
                assert(texts(list@) == texts(before) + seq![piece@]);
                return list;
            },
        }
    }
}

// ---------------------------------------------------------------------------
// Single characters
// ---------------------------------------------------------------------------

/// Whether `text` holds the character `c`.
pub fn has_char(text: &str, c: char) -> (r: bool)
    ensures
        r == text@.contains(c),
{
    let chars = chars_of(text);
    let mut i: usize = 0;
    while i < chars.len()
        invariant
            i <= chars@.len(),
            chars@ == text@,
            forall|k: int| 0 <= k < i ==> chars@[k] != c,
        decreases chars@.len() - i,
    {
        if chars[i] == c {
            assert(text@[i as int] == c);
            return true;
        }
        i = i + 1;
    }
    false
}

/// The position of the last `c` in `text`, when there is one.
pub open spec fn last_position(text: Text, c: char) -> Option<int>
    decreases text.len(),
{
    if text.len() == 0 {
        None
    } else if text.last() == c {
        Some(text.len() - 1)
    } else {
        last_position(text.drop_last(), c)
    }
}

/// The position of the last `c` in `chars`.
pub fn find_last(chars: &Vec<char>, c: char) -> (r: Option<usize>)
    ensures
        match last_position(chars@, c) {
            Some(i) => r matches Some(k) && k == i && k < chars@.len(),
            None => r is None,
        },
{
    let mut i: usize = chars.len();
    assert(chars@.take(i as int) == chars@);
    while i > 0
        invariant
            i <= chars@.len(),
            last_position(chars@, c) == last_position(chars@.take(i as int), c),
        decreases i,
    {
        assert(chars@.take(i as int).last() == chars@[i - 1]);
        if chars[i - 1] == c {
            return Some(i - 1);
        }
        assert(chars@.take(i as int).drop_last() == chars@.take(i - 1));
        i = i - 1;
    }
    None
}

/// What follows the last `c` in `text`; all of it when there is none.
pub open spec fn after_last(text: Text, c: char) -> Text {
    match last_position(text, c) {
        Some(i) => text.skip(i + 1),
        None => text,
    }
}

/// What follows the last `c` in `text`; all of it when there is none.
pub fn tail_after(text: &str, c: char) -> (r: String)
    ensures
        r@ == after_last(text@, c),
{
    let chars = chars_of(text);
    match find_last(&chars, c) {
        Some(i) => {
            let end: usize = chars.len();
            let rest = text_between(&chars, i + 1, end);
            assert(rest@ == text@.skip(i + 1));
            rest
        },
        None => text.to_owned(),
    }
}

/// `text` without its leading run of `c`.
pub open spec fn without_leading(text: Text, c: char) -> Text
    decreases text.len(),
{
    if text.len() > 0 && text[0] == c {
        without_leading(text.skip(1), c)
    } else {
        text
    }
}

/// `text` without its leading run of `c`.
pub fn skip_leading(text: &str, c: char) -> (r: String)
    ensures
        r@ == without_leading(text@, c),
{
    let chars = chars_of(text);
    let mut i: usize = 0;
    assert(chars@.skip(0) == chars@);
    while i < chars.len() && chars[i] == c
        invariant
            i <= chars@.len(),
            without_leading(chars@, c) == without_leading(chars@.skip(i as int), c),
        decreases chars@.len() - i,
    {
        assert(chars@.skip(i as int).skip(1) == chars@.skip(i + 1));
        i = i + 1;
    }
    let rest = text_between(&chars, i, chars.len());
    assert(rest@ == chars@.skip(i as int));
    rest
}

// ---------------------------------------------------------------------------
// White space
// ---------------------------------------------------------------------------

/// The characters with the Unicode `White_Space` property.
pub open spec fn is_space(c: char) -> bool {
    ||| '\u{9}' <= c <= '\u{D}'
    ||| c == ' '
    ||| c == '\u{85}'
    ||| c == '\u{A0}'
    ||| c == '\u{1680}'
    ||| '\u{2000}' <= c <= '\u{200A}'
    ||| c == '\u{2028}'
    ||| c == '\u{2029}'
    ||| c == '\u{202F}'
    ||| c == '\u{205F}'
    ||| c == '\u{3000}'
}

fn space(c: char) -> (r: bool)
    ensures
        r == is_space(c),
{
    ('\u{9}' <= c && c <= '\u{D}') || c == ' ' || c == '\u{85}' || c == '\u{A0}' || c == '\u{1680}'
        || ('\u{2000}' <= c && c <= '\u{200A}') || c == '\u{2028}' || c == '\u{2029}' || c
        == '\u{202F}' || c == '\u{205F}' || c == '\u{3000}'
}

/// `text` without leading white space.
pub open spec fn trimmed_start(text: Text) -> Text
    decreases text.len(),
{
    if text.len() > 0 && is_space(text[0]) {
        trimmed_start(text.skip(1))
    } else {
        text
    }
}

/// `text` without trailing white space.
pub open spec fn trimmed_end(text: Text) -> Text
    decreases text.len(),
{
    if text.len() > 0 && is_space(text.last()) {
        trimmed_end(text.drop_last())
    } else {
        text
    }
}

/// `text` without leading and trailing white space.
pub open spec fn trimmed(text: Text) -> Text {
    trimmed_end(trimmed_start(text))
}

/// `text` without leading and trailing white space.
pub fn trim(text: &str) -> (r: String)
    ensures
        r@ == trimmed(text@),
{
    let chars = chars_of(text);
    let mut from: usize = 0;
    assert(chars@.skip(0) == chars@);
    while from < chars.len() && space(chars[from])
        invariant
            from <= chars@.len(),
            trimmed_start(chars@) == trimmed_start(chars@.skip(from as int)),
        decreases chars@.len() - from,
    {
        assert(chars@.skip(from as int).skip(1) == chars@.skip(from + 1));
        from = from + 1;
    }
    let mut to: usize = chars.len();
    let ghost rest = chars@.skip(from as int);
    assert(rest == chars@.subrange(from as int, to as int));
    while to > from && space(chars[to - 1])
        invariant
            from <= to <= chars@.len(),
            trimmed_end(rest) == trimmed_end(chars@.subrange(from as int, to as int)),
        decreases to,
    {
        assert(chars@.subrange(from as int, to as int).last() == chars@[to - 1]);
        assert(chars@.subrange(from as int, to as int).drop_last() == chars@.subrange(
            from as int,
            to - 1,
        ));
        to = to - 1;
    }
    if to > from {
        assert(chars@.subrange(from as int, to as int).last() == chars@[to - 1]);
    }
    text_between(&chars, from, to)
}

/// The maximal runs of characters that are no white space.
pub open spec fn words(text: Text) -> Seq<Text>
    decreases text.len(),
{
    if text.len() == 0 {
        Seq::empty()
    } else {
        let before = words(text.drop_last());
        let c = text.last();
        if is_space(c) {
            before
        } else if before.len() > 0 && text.len() > 1 && !is_space(text[text.len() - 2]) {
            before.update(before.len() - 1, before.last().push(c))
        } else {
            before.push(seq![c])
        }
    }
}

/// The maximal runs of characters that are no white space.
pub fn split_words(text: &str) -> (list: Vec<String>)
    ensures
        texts(list@) == words(text@),
{
    let chars = chars_of(text);
    let mut list: Vec<String> = Vec::new();
    let mut i: usize = 0;
    assert(texts(list@) == words(chars@.take(0)));
    while i < chars.len()
        invariant
            i <= chars@.len(),
            chars@ == text@,
            texts(list@) == words(chars@.take(i as int)),
        decreases chars@.len() - i,
    {
        let c = chars[i];
        let ghost before = list@;
        assert(chars@.take(i + 1).drop_last() == chars@.take(i as int));
        if !space(c) {
            let joins = i > 0 && !space(chars[i - 1]);
            if joins && list.len() > 0 {
                let mut word = list.pop().unwrap();
                word.push(c);
                list.push(word);
                assert(texts(list@) == texts(before).update(
                    before.len() - 1,
                    texts(before).last().push(c),
                ));
            } else {
                let mut word = String::new();
                word.push(c);
                assert(word@ == seq![c]);
                list.push(word);
                assert(texts(list@) == texts(before).push(seq![c]));
            }
        }
        i = i + 1;
    }
    assert(chars@.take(i as int) == text@);
    list
}

// ---------------------------------------------------------------------------
// Joining, numbers, letters
// ---------------------------------------------------------------------------

/// The texts of `list` with `separator` between them.
pub open spec fn joined(list: Seq<Text>, separator: Text) -> Text
    decreases list.len(),
{
    if list.len() == 0 {
        Seq::empty()
    } else if list.len() == 1 {
        list[0]
    } else {
        joined(list.drop_last(), separator) + separator + list.last()
    }
}

/// Whether `name` is one of `names`.
pub fn is_listed(names: &Vec<String>, name: &str) -> (r: bool)
    ensures
        r == texts(names@).contains(name@),
{
    let ghost all = texts(names@);
    let mut i: usize = 0;
    while i < names.len()
        invariant
            i <= names@.len(),
            all == texts(names@),
            forall|k: int| 0 <= k < i ==> all[k] != name@,
        decreases names@.len() - i,
    {
        if same(names[i].as_str(), name) {
            assert(all[i as int] == name@);
            return true;
        }
        i = i + 1;
    }
    false
}

/// The same texts again.
pub fn copy_texts(list: &Vec<String>) -> (r: Vec<String>)
    ensures
        texts(r@) == texts(list@),
{
    let ghost all = texts(list@);
    let mut out: Vec<String> = Vec::new();
    let mut i: usize = 0;
    while i < list.len()
        invariant
            i <= list@.len(),
            all == texts(list@),
            texts(out@) == all.take(i as int),
        decreases list@.len() - i,
    {
        let ghost before = out@;
        out.push(list[i].clone());
        assert(texts(out@) == texts(before).push(all[i as int]));
        assert(all.take(i + 1) == all.take(i as int).push(all[i as int]));
        i = i + 1;
    }
    assert(all.take(i as int) == all);
    out
}

/// The texts of `list` with `separator` between them.
pub fn join(list: &Vec<String>, separator: &str) -> (r: String)
    ensures
        r@ == joined(texts(list@), separator@),
{
    let mut out = String::new();
    let mut i: usize = 0;
    let ghost all = texts(list@);
    while i < list.len()
        invariant
            i <= list@.len(),
            all == texts(list@),
            out@ == joined(all.take(i as int), separator@),
        decreases list@.len() - i,
    {
        assert(all.take(i + 1).drop_last() == all.take(i as int));
        if i > 0 {
            out.append(separator);
        }
        out.append(list[i].as_str());
        i = i + 1;
    }
    assert(all.take(i as int) == all);
    out
}

/// The decimal digits of `n`.
pub open spec fn decimal(n: nat) -> Text
    decreases n,
{
    if n < 10 {
        seq![digit(n)]
    } else {
        decimal(n / 10).push(digit(n % 10))
    }
}

/// The decimal digit of `n`.
pub open spec fn digit(n: nat) -> char {
    if n == 0 {
        '0'
    } else if n == 1 {
        '1'
    } else if n == 2 {
        '2'
    } else if n == 3 {
        '3'
    } else if n == 4 {
        '4'
    } else if n == 5 {
        '5'
    } else if n == 6 {
        '6'
    } else if n == 7 {
        '7'
    } else if n == 8 {
        '8'
    } else {
        '9'
    }
}

fn digit_char(n: u64) -> (r: char)
    requires
        n < 10,
    ensures
        r == digit(n as nat),
{
    match n {
        0 => '0',
        1 => '1',
        2 => '2',
        3 => '3',
        4 => '4',
        5 => '5',
        6 => '6',
        7 => '7',
        8 => '8',
        _ => '9',
    }
}

/// The decimal digits of `n`.
pub fn number_text(n: u64) -> (r: String)
    ensures
        r@ == decimal(n as nat),
    decreases n,
{
    let mut out = if n < 10 {
        String::new()
    } else {
        number_text(n / 10)
    };
    out.push(digit_char(n % 10));
    assert(n < 10 ==> out@ == seq![digit(n as nat)]);
    out
}

/// The lower-case form of an ASCII letter; any other character as it is.
pub open spec fn lower(c: char) -> char {
    if 'A' <= c <= 'Z' {
        ((c as u8) + 32) as char
    } else {
        c
    }
}

/// `text` with its ASCII letters in lower case.
pub open spec fn lowered(text: Text) -> Text {
    Seq::new(text.len(), |i: int| lower(text[i]))
}

/// `text` with its ASCII letters in lower case.
pub fn to_lower(text: &str) -> (r: String)
    ensures
        r@ == lowered(text@),
{
    let chars = chars_of(text);
    let mut out = String::new();
    let mut i: usize = 0;
    while i < chars.len()
        invariant
            i <= chars@.len(),
            chars@ == text@,
            out@ == lowered(text@).take(i as int),
        decreases chars@.len() - i,
    {
        let c = chars[i];
        if 'A' <= c && c <= 'Z' {
            let b: u8 = (c as u8) + 32;
            out.push(b as char);
        } else {
            out.push(c);
        }
        assert(lowered(text@).take(i + 1) == lowered(text@).take(i as int).push(lower(c)));
        i = i + 1;
    }
    assert(lowered(text@).take(i as int) == lowered(text@));
    out
}

// ---------------------------------------------------------------------------
// Order
// ---------------------------------------------------------------------------

/// `a` stands before `b` in dictionary order of the characters' code points.
pub open spec fn precedes(a: Text, b: Text) -> bool
    decreases a.len(),
{
    if b.len() == 0 {
        false
    } else if a.len() == 0 {
        true
    } else if a[0] != b[0] {
        a[0] < b[0]
    } else {
        precedes(a.skip(1), b.skip(1))
    }
}

/// Dictionary order is irreflexive and transitive, and compares any two different texts.
pub proof fn law_text_order_is_total(a: Text, b: Text, c: Text)
    ensures
        !precedes(a, a),
        precedes(a, b) && precedes(b, c) ==> precedes(a, c),
        a != b ==> precedes(a, b) || precedes(b, a),
    decreases a.len(),
{
    if a.len() > 0 {
        law_text_order_is_total(a.skip(1), a.skip(1), a.skip(1));
    }
    if a.len() > 0 && b.len() > 0 {
        if a[0] == b[0] {
            law_text_order_is_total(a.skip(1), b.skip(1), a.skip(1));
            if a.skip(1) == b.skip(1) {
                assert(a == seq![a[0]] + a.skip(1));
                assert(b == seq![b[0]] + b.skip(1));
            }
        }
        if c.len() > 0 {
            law_text_order_is_total(a.skip(1), b.skip(1), c.skip(1));
        }
    } else if a.len() == 0 && b.len() == 0 {
        assert(a == b);
    }
}

/// Whether `a` stands before `b` in dictionary order.
pub fn before(a: &str, b: &str) -> (r: bool)
    ensures
        r == precedes(a@, b@),
{
    let left = chars_of(a);
    let right = chars_of(b);
    let mut i: usize = 0;
    assert(left@.skip(0) == left@ && right@.skip(0) == right@);
    while i < left.len() && i < right.len()
        invariant
            i <= left@.len(),
            i <= right@.len(),
            left@ == a@,
            right@ == b@,
            precedes(left@, right@) == precedes(left@.skip(i as int), right@.skip(i as int)),
        decreases left@.len() - i,
    {
        let x = left[i];
        let y = right[i];
        if x != y {
            return x < y;
        }
        assert(left@.skip(i as int).skip(1) == left@.skip(i + 1));
        assert(right@.skip(i as int).skip(1) == right@.skip(i + 1));
        i = i + 1;
    }
    i < right.len()
}

// ---------------------------------------------------------------------------
// Quoting
// ---------------------------------------------------------------------------

/// `text` in double quotes with the standard library's escapes.
pub uninterp spec fn quotation(text: Text) -> Text;

/// `format!("{:?}")` of a string: the text in double quotes, special characters escaped.
/// Which characters are escaped, and how, is left to the standard library.
#[verifier::external_body]
pub(crate) fn quoted(text: &str) -> (r: String)
    ensures
        r@ == quotation(text@),
{
    format!("{text:?}")
}

// ---------------------------------------------------------------------------
// Laws
// ---------------------------------------------------------------------------

/// A text begins with whatever something was put behind, and with nothing else.
pub proof fn law_prefixes(text: Text, prefix: Text, rest: Text)
    ensures
        begins(prefix + rest, prefix),
        begins(text, prefix) ==> text == prefix + text.skip(prefix.len() as int),
{
    assert((prefix + rest).take(prefix.len() as int) =~= prefix);
    if begins(text, prefix) {
        assert(text =~= text.take(prefix.len() as int) + text.skip(prefix.len() as int));
    }
}

/// A search finds the first occurrence, and one wherever there is one.
pub proof fn law_first_occurrences(text: Text, needle: Text)
    ensures
        match first_occurrence(text, needle) {
            Some(i) => {
                &&& 0 <= i <= text.len() - needle.len()
                &&& text.subrange(i, i + needle.len()) == needle
                &&& forall|j: int|
                    0 <= j < i ==> #[trigger] text.subrange(j, j + needle.len()) != needle
            },
            None => forall|j: int|
                0 <= j <= text.len() - needle.len() ==> #[trigger] text.subrange(
                    j,
                    j + needle.len(),
                ) != needle,
        },
    decreases text.len(),
{
    let n = needle.len();
    if begins(text, needle) {
        assert(text.subrange(0, n as int) == text.take(n as int));
    } else {
        assert(n <= text.len() ==> text.subrange(0, n as int) == text.take(n as int));
        if text.len() > 0 {
            let rest = text.skip(1);
            law_first_occurrences(rest, needle);
            match first_occurrence(rest, needle) {
                Some(i) => {
                    assert(text.subrange(i + 1, i + 1 + n) == rest.subrange(i, i + n));
                    assert forall|j: int| 0 <= j < i + 1 implies #[trigger] text.subrange(j, j + n)
                        != needle by {
                        if j > 0 {
                            assert(text.subrange(j, j + n) == rest.subrange(j - 1, j - 1 + n));
                        }
                    }
                },
                None => {
                    assert forall|j: int| 0 <= j <= text.len() - n implies #[trigger] text.subrange(
                        j,
                        j + n,
                    ) != needle by {
                        if j > 0 {
                            assert(text.subrange(j, j + n) == rest.subrange(j - 1, j - 1 + n));
                        }
                    }
                },
            }
        }
    }
}

/// The first separator of a text is the one after a part that has none.
pub proof fn lemma_first_separator(a: Text, separator: Text, b: Text)
    requires
        separator.len() == 1,
        !a.contains(separator[0]),
    ensures
        first_occurrence(a + separator + b, separator) == Some(a.len() as int),
    decreases a.len(),
{
    let whole = a + separator + b;
    if a.len() == 0 {
        assert(whole.take(1) =~= separator);
    } else {
        assert(whole.take(1)[0] == a[0]);
        assert(a.contains(a[0]));
        assert(!begins(whole, separator));
        let rest = a.skip(1);
        assert(!rest.contains(separator[0])) by {
            if rest.contains(separator[0]) {
                let k = choose|k: int| 0 <= k < rest.len() && rest[k] == separator[0];
                assert(a[k + 1] == separator[0]);
            }
        }
        assert(whole.skip(1) =~= rest + separator + b);
        lemma_first_separator(rest, separator, b);
    }
}

/// A text that has not the character of a separator has no occurrence of it.
pub proof fn lemma_no_separator(text: Text, separator: Text)
    requires
        separator.len() == 1,
        !text.contains(separator[0]),
    ensures
        first_occurrence(text, separator) is None,
{
    law_first_occurrences(text, separator);
    if let Some(i) = first_occurrence(text, separator) {
        assert(text.subrange(i, i + separator.len())[0] == text[i]);
        assert(text.contains(text[i]));
    }
}

/// What follows the last `c` is what stands behind it; a text without `c` follows as a whole.
pub proof fn law_what_follows_the_last(head: Text, c: char, tail: Text)
    requires
        !tail.contains(c),
    ensures
        last_position(tail, c) is None,
        after_last(tail, c) == tail,
        last_position(head + seq![c] + tail, c) == Some(head.len() as int),
        after_last(head + seq![c] + tail, c) == tail,
    decreases tail.len(),
{
    let whole = head + seq![c] + tail;
    if tail.len() == 0 {
        assert(whole.last() == c);
        assert(whole.skip(head.len() as int + 1) == tail);
    } else {
        let shorter = tail.drop_last();
        assert(tail.contains(tail.last()));
        assert(!shorter.contains(c)) by {
            if shorter.contains(c) {
                let k = choose|k: int| 0 <= k < shorter.len() && shorter[k] == c;
                assert(tail[k] == c);
            }
        }
        law_what_follows_the_last(head, c, shorter);
        assert(whole.drop_last() == head + seq![c] + shorter);
        assert(whole.skip(head.len() as int + 1) == tail);
    }
}

/// Joining puts the separator between any two parts, and nowhere else.
pub proof fn law_joined_texts(a: Seq<Text>, b: Seq<Text>, separator: Text, text: Text)
    ensures
        joined(Seq::empty(), separator).len() == 0,
        joined(seq![text], separator) == text,
        a.len() > 0 && b.len() > 0 ==> joined(a + b, separator) == joined(a, separator) + separator
            + joined(b, separator),
    decreases b.len(),
{
    if a.len() > 0 && b.len() > 0 {
        let whole = a + b;
        assert(whole.drop_last() == a + b.drop_last());
        assert(whole.last() == b.last());
        if b.len() == 1 {
            assert(a + b.drop_last() == a);
        } else {
            law_joined_texts(a, b.drop_last(), separator, text);
            assert(joined(whole, separator) =~= joined(a, separator) + separator + joined(
                b,
                separator,
            ));
        }
    }
}

/// Splitting loses nothing: the pieces joined by the separator are the text. And it leaves no
/// separator over: none of the pieces has one.
pub proof fn law_pieces_join_back(text: Text, separator: Text)
    requires
        separator.len() > 0,
    ensures
        pieces(text, separator).len() > 0,
        joined(pieces(text, separator), separator) == text,
        forall|k: int|
            0 <= k < pieces(text, separator).len() ==> first_occurrence(
                #[trigger] pieces(text, separator)[k],
                separator,
            ) is None,
    decreases text.len(),
{
    law_first_occurrences(text, separator);
    match first_occurrence(text, separator) {
        Some(i) => {
            let head = text.take(i);
            let tail = text.skip(i + separator.len());
            let rest = pieces(tail, separator);
            law_pieces_join_back(tail, separator);
            law_joined_texts(seq![head], rest, separator, head);
            assert(text =~= head + separator + tail);
            assert(first_occurrence(head, separator) is None) by {
                law_first_occurrences(head, separator);
                if let Some(k) = first_occurrence(head, separator) {
                    assert(head.subrange(k, k + separator.len()) == text.subrange(
                        k,
                        k + separator.len(),
                    ));
                }
            }
            let all = pieces(text, separator);
            assert forall|k: int| 0 <= k < all.len() implies first_occurrence(
                #[trigger] all[k],
                separator,
            ) is None by {
                if k > 0 {
                    assert(all[k] == rest[k - 1]);
                }
            }
        },
        None => {
            law_joined_texts(Seq::empty(), Seq::empty(), separator, text);
        },
    }
}

/// Text without its leading run of `c`: what is left is an end of the text, everything before it
/// is `c`, and it does not begin with one.
pub proof fn law_leading_runs_are_dropped(text: Text, c: char)
    ensures
        exists|i: int|
            0 <= i <= text.len() && without_leading(text, c) == #[trigger] text.skip(i) && (forall|
                k: int,
            |
                0 <= k < i ==> #[trigger] text[k] == c) && (i < text.len() ==> text[i] != c),
    decreases text.len(),
{
    if text.len() > 0 && text[0] == c {
        let rest = text.skip(1);
        law_leading_runs_are_dropped(rest, c);
        let i = choose|i: int|
            0 <= i <= rest.len() && without_leading(rest, c) == #[trigger] rest.skip(i) && (forall|
                k: int,
            |
                0 <= k < i ==> #[trigger] rest[k] == c) && (i < rest.len() ==> rest[i] != c);
        assert(rest.skip(i) == text.skip(i + 1));
        assert forall|k: int| 0 <= k < i + 1 implies #[trigger] text[k] == c by {
            if k > 0 {
                assert(rest[k - 1] == text[k]);
            }
        }
    } else {
        assert(text.skip(0) == text);
    }
}

/// Trimming takes away white space at both ends, all of it and nothing else.
pub proof fn law_trimming_takes_white_space(text: Text)
    ensures
        exists|i: int, j: int|
            0 <= i <= j <= text.len() && trimmed(text) == #[trigger] text.subrange(i, j) && (forall|
                k: int,
            |
                0 <= k < text.len() && !(i <= k < j) ==> is_space(#[trigger] text[k])) && (i < j
                ==> !is_space(text[i]) && !is_space(text[j - 1])),
{
    lemma_trimmed_start(text);
    let i = choose|i: int|
        0 <= i <= text.len() && trimmed_start(text) == #[trigger] text.skip(i) && (forall|k: int|
            0 <= k < i ==> is_space(#[trigger] text[k])) && (i < text.len() ==> !is_space(text[i]));
    let rest = text.skip(i);
    lemma_trimmed_end(rest);
    let n = choose|n: int|
        0 <= n <= rest.len() && trimmed_end(rest) == #[trigger] rest.take(n) && (forall|k: int|
            n <= k < rest.len() ==> is_space(#[trigger] rest[k])) && (n > 0 ==> !is_space(
            rest[n - 1],
        ));
    assert(rest.take(n) == text.subrange(i, i + n));
    assert forall|k: int| 0 <= k < text.len() && !(i <= k < i + n) implies is_space(
        #[trigger] text[k],
    ) by {
        if k >= i {
            assert(rest[k - i] == text[k]);
        }
    }
    if n > 0 {
        assert(rest[n - 1] == text[i + n - 1]);
    }
}

proof fn lemma_trimmed_start(text: Text)
    ensures
        exists|i: int|
            0 <= i <= text.len() && trimmed_start(text) == #[trigger] text.skip(i) && (forall|
                k: int,
            |
                0 <= k < i ==> is_space(#[trigger] text[k])) && (i < text.len() ==> !is_space(
                text[i],
            )),
    decreases text.len(),
{
    if text.len() > 0 && is_space(text[0]) {
        let rest = text.skip(1);
        lemma_trimmed_start(rest);
        let i = choose|i: int|
            0 <= i <= rest.len() && trimmed_start(rest) == #[trigger] rest.skip(i) && (forall|
                k: int,
            |
                0 <= k < i ==> is_space(#[trigger] rest[k])) && (i < rest.len() ==> !is_space(
                rest[i],
            ));
        assert(rest.skip(i) == text.skip(i + 1));
        assert forall|k: int| 0 <= k < i + 1 implies is_space(#[trigger] text[k]) by {
            if k > 0 {
                assert(rest[k - 1] == text[k]);
            }
        }
    } else {
        assert(text.skip(0) == text);
    }
}

proof fn lemma_trimmed_end(text: Text)
    ensures
        exists|n: int|
            0 <= n <= text.len() && trimmed_end(text) == #[trigger] text.take(n) && (forall|k: int|
                n <= k < text.len() ==> is_space(#[trigger] text[k])) && (n > 0 ==> !is_space(
                text[n - 1],
            )),
    decreases text.len(),
{
    if text.len() > 0 && is_space(text.last()) {
        let rest = text.drop_last();
        lemma_trimmed_end(rest);
        let n = choose|n: int|
            0 <= n <= rest.len() && trimmed_end(rest) == #[trigger] rest.take(n) && (forall|k: int|
                n <= k < rest.len() ==> is_space(#[trigger] rest[k])) && (n > 0 ==> !is_space(
                rest[n - 1],
            ));
        assert(rest.take(n) == text.take(n));
        assert forall|k: int| n <= k < text.len() implies is_space(#[trigger] text[k]) by {
            if k < rest.len() {
                assert(rest[k] == text[k]);
            }
        }
    } else {
        assert(text.take(text.len() as int) == text);
    }
}

/// Of the ASCII characters the space and the five controls from tab to carriage return are white
/// space.
pub proof fn law_ascii_white_space(c: char)
    requires
        (c as int) < 128,
    ensures
        is_space(c) <==> c == ' ' || 9 <= c as int <= 13,
{
}

/// Words are what white space separates: a run without it is one word, and at white space the
/// words before and after it part.
pub proof fn law_words_part_at_white_space(a: Text, space: char, b: Text)
    requires
        is_space(space),
    ensures
        words(a + seq![space] + b) == words(a) + words(b),
        words(Seq::empty()).len() == 0,
        a.len() > 0 && (forall|i: int| 0 <= i < a.len() ==> !is_space(#[trigger] a[i])) ==> words(a)
            == seq![a],
    decreases a.len() + b.len(),
{
    let whole = a + seq![space] + b;
    if b.len() == 0 {
        assert(whole.drop_last() == a);
        assert(words(a) + words(b) == words(a));
    } else {
        let shorter = b.drop_last();
        law_words_part_at_white_space(a, space, shorter);
        assert(whole.drop_last() == a + seq![space] + shorter);
        let left = words(a);
        let right = words(shorter);
        lemma_last_word(shorter);
        lemma_last_word(whole.drop_last());
        if shorter.len() > 0 {
            assert(whole[whole.len() - 2] == shorter.last());
        } else {
            assert(whole[whole.len() - 2] == space);
        }
        if !is_space(b.last()) {
            if shorter.len() > 0 && !is_space(shorter.last()) {
                let word = right.last().push(b.last());
                assert((left + right).update((left + right).len() - 1, word) == left + right.update(
                    right.len() - 1,
                    word,
                ));
            } else {
                assert((left + right).push(seq![b.last()]) == left + right.push(seq![b.last()]));
            }
        }
    }
    if a.len() > 0 && (forall|i: int| 0 <= i < a.len() ==> !is_space(#[trigger] a[i])) {
        lemma_one_word(a);
    }
}

proof fn lemma_one_word(a: Text)
    requires
        a.len() > 0,
        forall|i: int| 0 <= i < a.len() ==> !is_space(#[trigger] a[i]),
    ensures
        words(a) == seq![a],
    decreases a.len(),
{
    let shorter = a.drop_last();
    assert(!is_space(a[a.len() - 1]));
    if shorter.len() > 0 {
        assert forall|i: int| 0 <= i < shorter.len() implies !is_space(#[trigger] shorter[i]) by {
            assert(shorter[i] == a[i]);
        }
        lemma_one_word(shorter);
        assert(shorter.push(a.last()) == a);
        assert(!is_space(a[a.len() - 2]));
    } else {
        assert(seq![a.last()] == a);
        assert(words(shorter) == Seq::<Text>::empty());
    }
}

/// A text whose last character is no white space has a last word.
proof fn lemma_last_word(text: Text)
    ensures
        text.len() > 0 && !is_space(text.last()) ==> words(text).len() > 0,
{
}

/// The number that decimal digits spell.
pub open spec fn number_in(digits: Text) -> int
    decreases digits.len(),
{
    if digits.len() == 0 {
        0
    } else {
        10 * number_in(digits.drop_last()) + (digits.last() as int - '0' as int)
    }
}

/// A number is spelled by decimal digits that give it back, without a leading zero.
pub proof fn law_numbers_are_spelled(n: nat)
    ensures
        number_in(decimal(n)) == n,
        decimal(n).len() > 0,
        forall|i: int| 0 <= i < decimal(n).len() ==> '0' <= #[trigger] decimal(n)[i] <= '9',
        n > 0 ==> decimal(n)[0] != '0',
    decreases n,
{
    reveal_with_fuel(number_in, 2);
    if n >= 10 {
        law_numbers_are_spelled(n / 10);
        let earlier = decimal(n / 10);
        assert(decimal(n).drop_last() == earlier);
        assert forall|i: int| 0 <= i < decimal(n).len() implies '0' <= #[trigger] decimal(n)[i]
            <= '9' by {
            if i < earlier.len() {
                assert(decimal(n)[i] == earlier[i]);
            }
        }
        assert(decimal(n)[0] == earlier[0]);
    } else {
        assert(decimal(n).drop_last() == Seq::<char>::empty());
    }
}

/// Lower case changes the letters from `A` to `Z`, each to its small one, and nothing else.
pub proof fn law_lower_case(text: Text, i: int)
    requires
        0 <= i < text.len(),
    ensures
        lowered(text).len() == text.len(),
        'A' <= text[i] <= 'Z' ==> lowered(text)[i] as int == text[i] as int - 'A' as int
            + 'a' as int,
        !('A' <= text[i] <= 'Z') ==> lowered(text)[i] == text[i],
{
}

/// Texts are ordered by the first character in which they differ; a beginning of a text stands
/// before it.
pub proof fn law_texts_are_ordered_by_their_characters(
    common: Text,
    a: char,
    b: char,
    rest: Text,
    other: Text,
)
    ensures
        a < b ==> precedes(common + seq![a] + rest, common + seq![b] + other),
        precedes(common, common + seq![b] + other),
        !precedes(common + seq![b] + other, common),
    decreases common.len(),
{
    let left = common + seq![a] + rest;
    let right = common + seq![b] + other;
    if common.len() > 0 {
        law_texts_are_ordered_by_their_characters(common.skip(1), a, b, rest, other);
        assert(left.skip(1) == common.skip(1) + seq![a] + rest);
        assert(right.skip(1) == common.skip(1) + seq![b] + other);
    }
}

/// The value of a list of strings holds every one of them, in order.
pub proof fn law_lists_hold_every_text(list: Seq<String>, i: int)
    requires
        0 <= i < list.len(),
    ensures
        texts(list).len() == list.len(),
        texts(list)[i] == list[i]@,
{
}

/// The value of an optional string is that of the string, where there is one.
pub proof fn law_optional_texts(value: Option<String>)
    ensures
        optional_text(value) is Some <==> value is Some,
        value matches Some(text) ==> optional_text(value) == Some(text@),
{
}

}
