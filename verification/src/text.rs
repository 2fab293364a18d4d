//! Text as sequences of characters: ASCII case folding, searching, trimming, ordering
//! and decimal numbers.
use std::sync::Arc;
use vstd::prelude::*;
use vstd::std_specs::iter::IteratorSpec;
use vstd::string::*;
use vstd::utf8::encode_utf8;

verus! {

// ---------------------------------------------------------------------------
// What the operations mean
// ---------------------------------------------------------------------------

/// The characters of a shared string.
pub open spec fn chars_in(text: Arc<str>) -> Seq<char> {
    (*text)@
}

/// The characters of an optional string.
pub open spec fn optional_text(text: Option<String>) -> Option<Seq<char>> {
    match text {
        Some(text) => Some(text@),
        None => None,
    }
}

/// `c` with the ASCII capitals folded to lower case; every other character is itself.
pub open spec fn lower_char(c: char) -> char {
    if 'A' <= c && c <= 'Z' {
        ((c as u8) + 32) as u8 as char
    } else {
        c
    }
}

/// `s` with each ASCII capital folded to lower case.
pub open spec fn lowered(s: Seq<char>) -> Seq<char> {
    s.map_values(|c: char| lower_char(c))
}

/// `needle` stands in `hay` with its first character at index `at`.
pub open spec fn occurs_at(hay: Seq<char>, needle: Seq<char>, at: int) -> bool {
    &&& 0 <= at
    &&& at + needle.len() <= hay.len()
    &&& hay.subrange(at, at + needle.len()) == needle
}

/// `needle` stands somewhere in `hay`.
pub open spec fn contains(hay: Seq<char>, needle: Seq<char>) -> bool {
    exists|at: int| occurs_at(hay, needle, at)
}

/// The first index at or after `from` at which `needle` stands in `hay`.
pub open spec fn first_from(hay: Seq<char>, needle: Seq<char>, from: int) -> Option<int>
    decreases hay.len() + 1 - from,
{
    if from < 0 || from + needle.len() > hay.len() {
        None
    } else if occurs_at(hay, needle, from) {
        Some(from)
    } else {
        first_from(hay, needle, from + 1)
    }
}

/// `needle` stands in `hay` when the case of ASCII letters is disregarded.
pub open spec fn contains_folded(hay: Seq<char>, needle: Seq<char>) -> bool {
    contains(lowered(hay), lowered(needle))
}

/// `s` begins with `prefix`.
pub open spec fn begins_with(s: Seq<char>, prefix: Seq<char>) -> bool {
    prefix.len() <= s.len() && s.subrange(0, prefix.len() as int) == prefix
}

/// `c` has the Unicode property White_Space.
pub open spec fn is_white(c: char) -> bool {
    ||| ('\u{9}' <= c && c <= '\u{d}')
    ||| c == ' '
    ||| c == '\u{85}'
    ||| c == '\u{a0}'
    ||| c == '\u{1680}'
    ||| ('\u{2000}' <= c && c <= '\u{200a}')
    ||| c == '\u{2028}'
    ||| c == '\u{2029}'
    ||| c == '\u{202f}'
    ||| c == '\u{205f}'
    ||| c == '\u{3000}'
}

/// `c` is a control character: U+0000 to U+001F and U+007F to U+009F.
pub open spec fn is_control(c: char) -> bool {
    c <= '\u{1f}' || ('\u{7f}' <= c && c <= '\u{9f}')
}

/// `s` without its leading whitespace.
pub open spec fn trimmed_start(s: Seq<char>) -> Seq<char>
    decreases s.len(),
{
    if s.len() > 0 && is_white(s[0]) {
        trimmed_start(s.subrange(1, s.len() as int))
    } else {
        s
    }
}

/// `s` without its trailing whitespace.
pub open spec fn trimmed_end(s: Seq<char>) -> Seq<char>
    decreases s.len(),
{
    if s.len() > 0 && is_white(s.last()) {
        trimmed_end(s.drop_last())
    } else {
        s
    }
}

/// `s` without its leading and trailing whitespace.
pub open spec fn trimmed(s: Seq<char>) -> Seq<char> {
    trimmed_end(trimmed_start(s))
}

/// `a` comes before `b` in dictionary order by code point.
pub open spec fn precedes(a: Seq<char>, b: Seq<char>) -> bool
    decreases a.len(),
{
    if b.len() == 0 {
        false
    } else if a.len() == 0 {
        true
    } else if a[0] == b[0] {
        precedes(a.subrange(1, a.len() as int), b.subrange(1, b.len() as int))
    } else {
        a[0] < b[0]
    }
}

/// The number of bytes that `s` takes in UTF-8.
pub open spec fn byte_len(s: Seq<char>) -> nat {
    encode_utf8(s).len()
}

/// The decimal digit for `n`, where `n < 10`.
pub open spec fn digit_char(n: nat) -> char {
    ((48 + n) as u8) as char
}

/// `n` in decimal, without leading zeros.
pub open spec fn decimal(n: nat) -> Seq<char>
    decreases n,
{
    if n < 10 {
        seq![digit_char(n)]
    } else {
        decimal(n / 10).push(digit_char(n % 10))
    }
}

// ---------------------------------------------------------------------------
// Strings of the standard library
// ---------------------------------------------------------------------------

/// `String::push` appends the character at the end.
pub assume_specification[ String::push ](text: &mut String, ch: char)
    ensures
        final(text)@ == old(text)@.push(ch),
;

/// Shares a copy of `text`. Calls `Arc::<str>::from`, which copies the characters as they are.
#[verifier::external_body]
pub(crate) fn shared(text: &str) -> (r: Arc<str>)
    ensures
        (*r)@ == text@,
{
    Arc::from(text)
}

/// Another handle on a shared string. Calls `Arc::clone`, whose result points at the same
/// string.
#[verifier::external_body]
pub(crate) fn share(text: &Arc<str>) -> (r: Arc<str>)
    ensures
        (*r)@ == (**text)@,
{
    Arc::clone(text)
}

// ---------------------------------------------------------------------------
// Operations
// ---------------------------------------------------------------------------

/// The characters of `text`.
pub fn chars_of(text: &str) -> (r: Vec<char>)
    ensures
        r@ == text@,
{
    let mut out: Vec<char> = Vec::new();
    let count: usize = text.unicode_len();
    let mut chars = text.chars();
    let mut i: usize = 0;
    while i < count
        invariant
            i <= count,
            count == text@.len(),
            out@ == text@.subrange(0, i as int),
            chars.remaining() == text@.subrange(i as int, count as int),
            chars.obeys_prophetic_iter_laws(),
        decreases count - i,
    {
        let next = chars.next();
        if let Some(c) = next {
            out.push(c);
        }
        i += 1;
        proof {
            assert(text@.subrange(i - 1, count as int)[0] == text@[i - 1]);
            assert(text@.subrange(i - 1, count as int).drop_first() =~= text@.subrange(i as int, count as int));
            assert(text@.subrange(0, i as int) =~= text@.subrange(0, i - 1).push(text@[i - 1]));
        }
    }
    proof {
        assert(text@.subrange(0, count as int) =~= text@);
    }
    out
}

/// Folds one ASCII capital to lower case.
pub fn lower(c: char) -> (r: char)
    ensures
        r == lower_char(c),
{
    if 'A' <= c && c <= 'Z' {
        ((c as u8) + 32) as char
    } else {
        c
    }
}

/// The characters of `text`, ASCII capitals folded to lower case.
pub fn lowered_chars(text: &str) -> (r: Vec<char>)
    ensures
        r@ == lowered(text@),
{
    let chars = chars_of(text);
    let mut out: Vec<char> = Vec::new();
    let mut i: usize = 0;
    while i < chars.len()
        invariant
            i <= chars.len(),
            out@.len() == i,
            forall|k: int| 0 <= k < i ==> #[trigger] out@[k] == lower_char(chars@[k]),
        decreases chars.len() - i,
    {
        out.push(lower(chars[i]));
        i += 1;
    }
    assert(out@ =~= lowered(text@));
    out
}

/// A string made of the given characters.
pub fn string_of(chars: &Vec<char>) -> (r: String)
    ensures
        r@ == chars@,
{
    let mut out: String = String::new();
    let mut i: usize = 0;
    while i < chars.len()
        invariant
            i <= chars.len(),
            out@ == chars@.subrange(0, i as int),
        decreases chars.len() - i,
    {
        out.push(chars[i]);
        i += 1;
        assert(chars@.subrange(0, i as int) =~= chars@.subrange(0, i - 1).push(chars@[i - 1]));
    }
    assert(chars@.subrange(0, i as int) =~= chars@);
    out
}

/// `text` with ASCII capitals folded to lower case.
pub fn lowercase(text: &str) -> (r: String)
    ensures
        r@ == lowered(text@),
{
    string_of(&lowered_chars(text))
}

/// Whether `needle` stands in `hay` at index `at`.
fn stands_at(hay: &Vec<char>, needle: &Vec<char>, at: usize) -> (r: bool)
    requires
        at + needle@.len() <= hay@.len(),
    ensures
        r == occurs_at(hay@, needle@, at as int),
{
    let mut i: usize = 0;
    while i < needle.len()
        invariant
            i <= needle.len(),
            at + needle@.len() <= hay.len(),
            forall|k: int| 0 <= k < i ==> hay@[at + k] == #[trigger] needle@[k],
        decreases needle.len() - i,
    {
        if hay[at + i] != needle[i] {
            assert(hay@.subrange(at as int, at + needle@.len())[i as int] == hay@[at + i]);
            return false;
        }
        i += 1;
    }
    assert(hay@.subrange(at as int, at + needle@.len()) =~= needle@);
    true
}

/// `first_from` finds nothing exactly where the needle stands at no later index.
pub proof fn lemma_first_from(hay: Seq<char>, needle: Seq<char>, from: int)
    requires
        0 <= from,
    ensures
        match first_from(hay, needle, from) {
            Some(at) => {
                &&& from <= at
                &&& occurs_at(hay, needle, at)
                &&& forall|k: int| from <= k < at ==> !occurs_at(hay, needle, k)
            },
            None => forall|k: int| from <= k ==> !occurs_at(hay, needle, k),
        },
    decreases hay.len() + 1 - from,
{
    if from + needle.len() <= hay.len() && !occurs_at(hay, needle, from) {
        lemma_first_from(hay, needle, from + 1);
    }
}

/// The first index at which `needle` stands in `hay`.
pub fn find_chars(hay: &Vec<char>, needle: &Vec<char>) -> (r: Option<usize>)
    ensures
        match r {
            Some(at) => first_from(hay@, needle@, 0) == Some(at as int),
            None => first_from(hay@, needle@, 0) is None,
        },
        r is Some == contains(hay@, needle@),
{
    proof {
        lemma_first_from(hay@, needle@, 0);
    }
    if needle.len() > hay.len() {
        return None;
    }
    let last: usize = hay.len() - needle.len();
    let mut at: usize = 0;
    while at <= last
        invariant
            last == hay.len() - needle.len(),
            at <= last + 1,
            last <= hay.len(),
            first_from(hay@, needle@, 0) == first_from(hay@, needle@, at as int),
            first_from(hay@, needle@, 0) is Some == contains(hay@, needle@),
        decreases last + 1 - at,
    {
        if stands_at(hay, needle, at) {
            return Some(at);
        }
        if at == last {
            assert(first_from(hay@, needle@, at + 1) is None);
            return None;
        }
        at += 1;
    }
    None
}

/// Whether `needle` stands in `hay`.
pub fn contains_text(hay: &str, needle: &str) -> (r: bool)
    ensures
        r == contains(hay@, needle@),
{
    find_chars(&chars_of(hay), &chars_of(needle)).is_some()
}

/// Whether `needle` stands in `hay`, the case of ASCII letters disregarded.
pub fn contains_ignoring_case(hay: &str, needle: &str) -> (r: bool)
    ensures
        r == contains_folded(hay@, needle@),
{
    find_chars(&lowered_chars(hay), &lowered_chars(needle)).is_some()
}

/// Whether two strings hold the same characters.
pub fn same_text(a: &str, b: &str) -> (r: bool)
    ensures
        r == (a@ == b@),
{
    let left = chars_of(a);
    let right = chars_of(b);
    same_chars(&left, &right)
}

/// Whether two lists hold the same characters.
pub fn same_chars(left: &Vec<char>, right: &Vec<char>) -> (r: bool)
    ensures
        r == (left@ == right@),
{
    if left.len() != right.len() {
        return false;
    }
    let mut i: usize = 0;
    while i < left.len()
        invariant
            i <= left.len(),
            left.len() == right.len(),
            forall|k: int| 0 <= k < i ==> left@[k] == right@[k],
        decreases left.len() - i,
    {
        if left[i] != right[i] {
            return false;
        }
        i += 1;
    }
    assert(left@ =~= right@);
    true
}

/// Whether `text` begins with `prefix`.
pub fn starts_with(text: &str, prefix: &str) -> (r: bool)
    ensures
        r == begins_with(text@, prefix@),
{
    let chars = chars_of(text);
    let wanted = chars_of(prefix);
    wanted.len() <= chars.len() && stands_at(&chars, &wanted, 0)
}

/// Whether `c` is whitespace.
pub fn is_whitespace(c: char) -> (r: bool)
    ensures
        r == is_white(c),
{
    ('\u{9}' <= c && c <= '\u{d}') || c == ' ' || c == '\u{85}' || c == '\u{a0}' || c == '\u{1680}'
        || ('\u{2000}' <= c && c <= '\u{200a}') || c == '\u{2028}' || c == '\u{2029}'
        || c == '\u{202f}' || c == '\u{205f}' || c == '\u{3000}'
}

/// Whether `c` is a control character.
pub fn is_control_char(c: char) -> (r: bool)
    ensures
        r == is_control(c),
{
    c <= '\u{1f}' || ('\u{7f}' <= c && c <= '\u{9f}')
}

/// `text` without leading and trailing whitespace.
pub fn trim(text: &str) -> (r: &str)
    ensures
        r@ == trimmed(text@),
{
    let chars = chars_of(text);
    let mut start: usize = 0;
    proof {
        assert(chars@.subrange(0, chars@.len() as int) =~= chars@);
    }
    while start < chars.len() && is_whitespace(chars[start])
        invariant
            start <= chars.len(),
            trimmed_start(chars@) == trimmed_start(chars@.subrange(start as int, chars@.len() as int)),
        decreases chars.len() - start,
    {
        assert(chars@.subrange(start as int, chars@.len() as int).subrange(
            1,
            chars@.len() - start,
        ) =~= chars@.subrange(start + 1, chars@.len() as int));
        start += 1;
    }
    let mut end: usize = chars.len();
    while end > start && is_whitespace(chars[end - 1])
        invariant
            start <= end <= chars.len(),
            trimmed(chars@) == trimmed_end(chars@.subrange(start as int, end as int)),
        decreases end - start,
    {
        assert(chars@.subrange(start as int, end as int).drop_last() =~= chars@.subrange(
            start as int,
            end - 1,
        ));
        end -= 1;
    }
    text.substring_char(start, end)
}

/// Whether `a` comes before `b` in dictionary order.
pub fn comes_before(a: &str, b: &str) -> (r: bool)
    ensures
        r == precedes(a@, b@),
{
    let left = chars_of(a);
    let right = chars_of(b);
    let mut i: usize = 0;
    proof {
        assert(left@.subrange(0, left@.len() as int) =~= left@);
        assert(right@.subrange(0, right@.len() as int) =~= right@);
    }
    while i < left.len() && i < right.len()
        invariant
            i <= left.len(),
            i <= right.len(),
            precedes(a@, b@) == precedes(
                left@.subrange(i as int, left@.len() as int),
                right@.subrange(i as int, right@.len() as int),
            ),
        decreases left.len() - i,
    {
        if left[i] != right[i] {
            return left[i] < right[i];
        }
        assert(left@.subrange(i as int, left@.len() as int).subrange(1, left@.len() - i)
            =~= left@.subrange(i + 1, left@.len() as int));
        assert(right@.subrange(i as int, right@.len() as int).subrange(1, right@.len() - i)
            =~= right@.subrange(i + 1, right@.len() as int));
        i += 1;
    }
    i < right.len()
}

/// The number of bytes of `text`.
pub fn bytes_in(text: &str) -> (r: usize)
    ensures
        r == byte_len(text@),
{
    text.as_bytes().len()
}

/// The decimal digit for `n`.
fn digit(n: u8) -> (r: char)
    requires
        n < 10,
    ensures
        r == digit_char(n as nat),
{
    (48 + n) as char
}

/// `n` in decimal.
pub fn decimal_text(n: u64) -> (r: String)
    ensures
        r@ == decimal(n as nat),
    decreases n,
{
    if n < 10 {
        let mut out: String = String::new();
        out.push(digit(n as u8));
        assert(out@ =~= decimal(n as nat));
        out
    } else {
        let mut out = decimal_text(n / 10);
        out.push(digit((n % 10) as u8));
        out
    }
}

/// The two strings one after the other.
pub fn joined(a: &str, b: &str) -> (r: String)
    ensures
        r@ == a@ + b@,
{
    let mut out = a.to_owned();
    out.append(b);
    out
}

/// `text` without its last character; an empty text stays empty.
pub fn without_last(text: &str) -> (r: String)
    ensures
        r@ == if text@.len() > 0 {
            text@.drop_last()
        } else {
            text@
        },
{
    let count: usize = text.unicode_len();
    if count == 0 {
        text.to_owned()
    } else {
        let r = text.substring_char(0, count - 1).to_owned();
        assert(r@ =~= text@.drop_last());
        r
    }
}

/// `value` in words.
pub open spec fn bool_text(value: bool) -> Seq<char> {
    if value {
        "true"@
    } else {
        "false"@
    }
}

/// `value` in words.
pub fn bool_name(value: bool) -> (r: &'static str)
    ensures
        r@ == bool_text(value),
{
    if value {
        "true"
    } else {
        "false"
    }
}

/// The texts of a list of strings.
pub open spec fn texts(strings: Seq<String>) -> Seq<Seq<char>> {
    strings.map_values(|text: String| text@)
}

/// Texts one after the other, with `separator` between them.
pub open spec fn joined_by(parts: Seq<Seq<char>>, separator: Seq<char>) -> Seq<char>
    decreases parts.len(),
{
    if parts.len() == 0 {
        Seq::empty()
    } else if parts.len() == 1 {
        parts[0]
    } else {
        joined_by(parts.drop_last(), separator) + separator + parts.last()
    }
}

/// Strings one after the other, with `separator` between them.
pub fn join_all(parts: &Vec<String>, separator: &str) -> (r: String)
    ensures
        r@ == joined_by(texts(parts@), separator@),
{
    let ghost all = texts(parts@);
    let mut out: String = String::new();
    let mut i: usize = 0;
    assert(out@ =~= joined_by(all.subrange(0, 0), separator@));
    while i < parts.len()
        invariant
            i <= parts@.len(),
            all == texts(parts@),
            out@ == joined_by(all.subrange(0, i as int), separator@),
        decreases parts@.len() - i,
    {
        let ghost done = out@;
        if i > 0 {
            out.append(separator);
        }
        out.append(&parts[i]);
        i += 1;
        proof {
            let next = all.subrange(0, i as int);
            assert(next.drop_last() =~= all.subrange(0, i - 1));
            assert(next.last() == parts@[i - 1]@);
            if i == 1 {
                assert(done =~= Seq::<char>::empty());
                assert(out@ =~= next[0]);
            }
        }
    }
    assert(all.subrange(0, i as int) =~= all);
    out
}

// ---------------------------------------------------------------------------
// Laws
// ---------------------------------------------------------------------------

/// Folding to lower case twice is the same as folding once.
pub proof fn law_folding_is_idempotent(s: Seq<char>)
    ensures
        lowered(lowered(s)) == lowered(s),
{
    assert(lowered(lowered(s)) =~= lowered(s));
}

/// A search that disregards case gives the same answer whatever the case of either side.
pub proof fn law_folded_search_disregards_case(hay: Seq<char>, needle: Seq<char>)
    ensures
        contains_folded(lowered(hay), needle) == contains_folded(hay, needle),
        contains_folded(hay, lowered(needle)) == contains_folded(hay, needle),
{
    law_folding_is_idempotent(hay);
    law_folding_is_idempotent(needle);
}

/// Every text contains the empty text.
pub proof fn law_empty_needle_is_found(hay: Seq<char>)
    ensures
        contains_folded(hay, Seq::empty()),
{
    assert(lowered(hay).subrange(0, 0) =~= lowered(Seq::<char>::empty()));
    assert(occurs_at(lowered(hay), lowered(Seq::<char>::empty()), 0));
}

/// Dictionary order is irreflexive.
pub proof fn law_order_is_irreflexive(a: Seq<char>)
    ensures
        !precedes(a, a),
    decreases a.len(),
{
    if a.len() > 0 {
        law_order_is_irreflexive(a.subrange(1, a.len() as int));
    }
}

/// Dictionary order is transitive.
pub proof fn law_order_is_transitive(a: Seq<char>, b: Seq<char>, c: Seq<char>)
    requires
        precedes(a, b),
        precedes(b, c),
    ensures
        precedes(a, c),
    decreases a.len(),
{
    if a.len() > 0 && a[0] == b[0] && b[0] == c[0] {
        law_order_is_transitive(
            a.subrange(1, a.len() as int),
            b.subrange(1, b.len() as int),
            c.subrange(1, c.len() as int),
        );
    }
}

/// Of two different texts, one comes before the other.
pub proof fn law_order_is_total(a: Seq<char>, b: Seq<char>)
    ensures
        a == b || precedes(a, b) || precedes(b, a),
    decreases a.len(),
{
    if a.len() > 0 && b.len() > 0 {
        if a[0] == b[0] {
            let ra = a.subrange(1, a.len() as int);
            let rb = b.subrange(1, b.len() as int);
            law_order_is_total(ra, rb);
            if ra == rb {
                assert(a =~= seq![a[0]] + ra);
                assert(b =~= seq![b[0]] + rb);
            }
        }
    } else if a.len() == 0 && b.len() == 0 {
        assert(a =~= b);
    }
}

/// Folding moves the ASCII capitals, and only those, to the small letter of the same place in the
/// alphabet.
pub proof fn law_folding_moves_capitals_only(s: Seq<char>, i: int)
    requires
        0 <= i < s.len(),
    ensures
        lowered(s).len() == s.len(),
        65 <= s[i] as u32 <= 90 ==> lowered(s)[i] as u32 == s[i] as u32 + 32,
        !(65 <= s[i] as u32 <= 90) ==> lowered(s)[i] == s[i],
{
}

/// One text is found in another, the case disregarded, exactly where its characters stand in it one
/// after the other, each of them the same or the same letter in the other case.
pub proof fn law_what_a_folded_search_finds(hay: Seq<char>, needle: Seq<char>)
    ensures
        contains_folded(hay, needle) <==> exists|place: int|
            #![trigger hay.subrange(place, place + needle.len())]
            0 <= place && place + needle.len() <= hay.len() && same_letters(
                hay.subrange(place, place + needle.len()),
                needle,
            ),
{
    if contains_folded(hay, needle) {
        let place = choose|place: int| occurs_at(lowered(hay), lowered(needle), place);
        let part = hay.subrange(place, place + needle.len());
        assert forall|k: int| 0 <= k < needle.len() implies same_letter(part[k], #[trigger] needle[k]) by {
            assert(lowered(hay).subrange(place, place + needle.len())[k] == lowered(needle)[k]);
        }
        assert(same_letters(part, needle));
    }
    if exists|place: int|
        #![trigger hay.subrange(place, place + needle.len())]
        0 <= place && place + needle.len() <= hay.len() && same_letters(
            hay.subrange(place, place + needle.len()),
            needle,
        ) {
        let place = choose|place: int|
            #![trigger hay.subrange(place, place + needle.len())]
            0 <= place && place + needle.len() <= hay.len() && same_letters(
                hay.subrange(place, place + needle.len()),
                needle,
            );
        let part = hay.subrange(place, place + needle.len());
        assert forall|k: int| 0 <= k < needle.len() implies lowered(hay)[place + k] == lowered(
            needle,
        )[k] by {
            assert(same_letter(part[k], needle[k]));
        }
        assert(lowered(hay).subrange(place, place + needle.len()) =~= lowered(needle));
        assert(occurs_at(lowered(hay), lowered(needle), place));
    }
}

/// The two characters are the same, or the same ASCII letter once in capitals and once not.
pub open spec fn same_letter(a: char, b: char) -> bool {
    ||| a == b
    ||| 65 <= a as u32 <= 90 && b as u32 == a as u32 + 32
    ||| 65 <= b as u32 <= 90 && a as u32 == b as u32 + 32
}

/// The two texts hold the same letters one for one.
pub open spec fn same_letters(a: Seq<char>, b: Seq<char>) -> bool {
    a.len() == b.len() && forall|k: int| 0 <= k < b.len() ==> same_letter(a[k], #[trigger] b[k])
}

/// Dictionary order is decided by the first character that differs, and where none does, the shorter
/// text comes first.
pub proof fn law_first_difference_decides(a: Seq<char>, b: Seq<char>, k: int)
    requires
        0 <= k <= a.len(),
        k <= b.len(),
        a.subrange(0, k) == b.subrange(0, k),
    ensures
        k < a.len() && k < b.len() && a[k] > b[k] ==> precedes(b, a) && !precedes(a, b),
        k < a.len() && k < b.len() && a[k] < b[k] ==> precedes(a, b) && !precedes(
            b,
            a,
        ),
        k == a.len() && k < b.len() ==> precedes(a, b) && !precedes(b, a),
        k == a.len() && k == b.len() ==> !precedes(a, b),
    decreases k,
{
    if k > 0 {
        let ra = a.subrange(1, a.len() as int);
        let rb = b.subrange(1, b.len() as int);
        assert(a.subrange(0, k)[0] == a[0] && b.subrange(0, k)[0] == b[0]);
        assert(ra.subrange(0, k - 1) =~= a.subrange(0, k).subrange(1, k));
        assert(rb.subrange(0, k - 1) =~= b.subrange(0, k).subrange(1, k));
        law_first_difference_decides(ra, rb, k - 1);
        if k < a.len() && k < b.len() {
            assert(ra[k - 1] == a[k] && rb[k - 1] == b[k]);
        }
    }
}

/// Trimming takes whitespace off both ends and nothing else: what is left neither begins nor ends
/// with whitespace, and what was taken off is whitespace.
pub proof fn law_trimming_takes_whitespace_off(s: Seq<char>) -> (taken: (int, int))
    ensures
        0 <= taken.0 <= taken.1 <= s.len(),
        trimmed(s) == s.subrange(taken.0, taken.1),
        forall|i: int| 0 <= i < taken.0 ==> is_white(#[trigger] s[i]),
        forall|i: int| taken.1 <= i < s.len() ==> is_white(#[trigger] s[i]),
        taken.0 < taken.1 ==> !is_white(s[taken.0]) && !is_white(s[taken.1 - 1]),
        taken.0 == taken.1 ==> forall|i: int| 0 <= i < s.len() ==> is_white(#[trigger] s[i]),
{
    let start = lemma_trimmed_start(s);
    let rest = s.subrange(start, s.len() as int);
    let count = lemma_trimmed_end(rest);
    assert(rest.subrange(0, count) =~= s.subrange(start, start + count));
    assert forall|i: int| start + count <= i < s.len() implies is_white(#[trigger] s[i]) by {
        assert(rest[i - start] == s[i]);
    }
    if count > 0 {
        assert(rest[0] == s[start] && rest[count - 1] == s[start + count - 1]);
    }
    (start, start + count)
}

/// Where the text without leading whitespace begins.
proof fn lemma_trimmed_start(s: Seq<char>) -> (start: int)
    ensures
        0 <= start <= s.len(),
        trimmed_start(s) == s.subrange(start, s.len() as int),
        forall|i: int| 0 <= i < start ==> is_white(#[trigger] s[i]),
        start < s.len() ==> !is_white(s[start]),
    decreases s.len(),
{
    if s.len() > 0 && is_white(s[0]) {
        let rest = s.subrange(1, s.len() as int);
        let start = lemma_trimmed_start(rest);
        assert(rest.subrange(start, rest.len() as int) =~= s.subrange(start + 1, s.len() as int));
        assert forall|i: int| 0 <= i < start + 1 implies is_white(#[trigger] s[i]) by {
            if i > 0 {
                assert(rest[i - 1] == s[i]);
            }
        }
        start + 1
    } else {
        assert(s.subrange(0, s.len() as int) =~= s);
        0
    }
}

/// Where the text without trailing whitespace ends.
proof fn lemma_trimmed_end(s: Seq<char>) -> (end: int)
    ensures
        0 <= end <= s.len(),
        trimmed_end(s) == s.subrange(0, end),
        forall|i: int| end <= i < s.len() ==> is_white(#[trigger] s[i]),
        end > 0 ==> !is_white(s[end - 1]),
    decreases s.len(),
{
    if s.len() > 0 && is_white(s.last()) {
        let head = s.drop_last();
        let end = lemma_trimmed_end(head);
        assert(head.subrange(0, end) =~= s.subrange(0, end));
        assert forall|i: int| end <= i < s.len() implies is_white(#[trigger] s[i]) by {
            if i < head.len() {
                assert(head[i] == s[i]);
            }
        }
        end
    } else {
        assert(s.subrange(0, s.len() as int) =~= s);
        s.len() as int
    }
}

/// Whitespace is what Unicode calls so: by code point, the controls 9 to 13, the space, and the
/// wider blanks and line separators.
pub proof fn law_whitespace_by_code_point(c: char)
    ensures
        is_white(c) <==> ({
            let code = c as u32;
            ||| 0x9 <= code <= 0xd
            ||| code == 0x20
            ||| code == 0x85
            ||| code == 0xa0
            ||| code == 0x1680
            ||| 0x2000 <= code <= 0x200a
            ||| 0x2028 <= code <= 0x2029
            ||| code == 0x202f
            ||| code == 0x205f
            ||| code == 0x3000
        }),
        is_control(c) <==> c as u32 <= 0x1f || 0x7f <= c as u32 <= 0x9f,
{
}

} // verus!
