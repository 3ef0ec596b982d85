//! Helpers on text, character by character: substring search, joining and
//! trimming, reading an index, and reading bytes as UTF-8.

use vstd::prelude::*;
use vstd::string::*;
use vstd::utf8::{decode_utf8, valid_utf8};

verus! {

/// `needle` stands in `hay` starting at index `i`.
pub open spec fn occurs_at(hay: Seq<char>, needle: Seq<char>, i: int) -> bool {
    &&& 0 <= i
    &&& i + needle.len() <= hay.len()
    &&& hay.subrange(i, i + needle.len()) == needle
}

/// `needle` is a contiguous part of `hay`.
pub open spec fn contains_text(hay: Seq<char>, needle: Seq<char>) -> bool {
    exists|i: int| occurs_at(hay, needle, i)
}

/// `i` is the leftmost index at which `needle` stands in `hay`.
pub open spec fn is_first_occurrence(hay: Seq<char>, needle: Seq<char>, i: int) -> bool {
    &&& occurs_at(hay, needle, i)
    &&& forall|j: int| 0 <= j < i ==> !occurs_at(hay, needle, j)
}

/// The leftmost index at which `needle` stands in `hay`; meaningful only
/// when `contains_text(hay, needle)`.
pub open spec fn first_occurrence(hay: Seq<char>, needle: Seq<char>) -> int {
    choose|i: int| is_first_occurrence(hay, needle, i)
}

/// A leftmost occurrence is the one `first_occurrence` names.
pub proof fn lemma_first_occurrence_unique(hay: Seq<char>, needle: Seq<char>, i: int)
    requires
        is_first_occurrence(hay, needle, i),
    ensures
        contains_text(hay, needle),
        first_occurrence(hay, needle) == i,
{
    let k = first_occurrence(hay, needle);
    assert(is_first_occurrence(hay, needle, k));
    if k < i {
        assert(!occurs_at(hay, needle, k));
    } else if i < k {
        assert(!occurs_at(hay, needle, i));
    }
}

/// What occurs in a text occurs in it with any text before and after.
pub proof fn lemma_contains_text_in_context(
    hay: Seq<char>,
    needle: Seq<char>,
    before: Seq<char>,
    after: Seq<char>,
)
    ensures
        contains_text(hay, needle) ==> contains_text(before + hay + after, needle),
{
    if contains_text(hay, needle) {
        let i = choose|i: int| occurs_at(hay, needle, i);
        let whole = before + hay + after;
        let at = before.len() + i;
        assert(whole.subrange(at, at + needle.len()) =~= hay.subrange(i, i + needle.len()));
        assert(occurs_at(whole, needle, at));
    }
}

/// The text of each string of a list, in order.
pub open spec fn texts(strings: Seq<String>) -> Seq<Seq<char>> {
    strings.map_values(|s: String| s@)
}

/// The characters of `s`, in order.
pub fn chars_of(s: &str) -> (out: Vec<char>)
    ensures
        out@ == s@,
{
    let mut out: Vec<char> = Vec::new();
    for c in it: s.chars()
        invariant
            out@ == it.seq().take(it.index() as int),
    {
        out.push(c);
    }
    out
}

/// Whether `needle` stands in `hay` at index `at`.
fn matches_at(hay: &Vec<char>, needle: &Vec<char>, at: usize) -> (b: bool)
    requires
        at + needle.len() <= hay.len(),
    ensures
        b == occurs_at(hay@, needle@, at as int),
{
    let mut k: usize = 0;
    while k < needle.len()
        invariant
            k <= needle.len(),
            at + needle.len() <= hay.len(),
            forall|j: int| 0 <= j < k ==> hay@[at + j] == needle@[j],
        decreases needle.len() - k,
    {
        if hay[at + k] != needle[k] {
            proof {
                let part = hay@.subrange(at as int, at + needle.len());
                assert(part[k as int] == hay@[at + k]);
            }
            return false;
        }
        k += 1;
    }
    assert(hay@.subrange(at as int, at + needle.len()) =~= needle@);
    true
}

/// The leftmost index at which `needle` stands in `hay`, if there is one.
pub fn find(hay: &Vec<char>, needle: &Vec<char>) -> (found: Option<usize>)
    ensures
        match found {
            Some(i) => is_first_occurrence(hay@, needle@, i as int),
            None => !contains_text(hay@, needle@),
        },
{
    if needle.len() > hay.len() {
        return None;
    }
    let last: usize = hay.len() - needle.len();
    let mut i: usize = 0;
    loop
        invariant
            i <= last,
            last == hay.len() - needle.len(),
            needle.len() <= hay.len(),
            forall|j: int| 0 <= j < i ==> !occurs_at(hay@, needle@, j),
        decreases last - i,
    {
        if matches_at(hay, needle, i) {
            return Some(i);
        }
        if i == last {
            return None;
        }
        i += 1;
    }
}

/// Whether two strings hold the same text.
pub fn same_text(a: &str, b: &str) -> (same: bool)
    ensures
        same == (a@ == b@),
{
    String::from_str(a) == String::from_str(b)
}

/// Whether `list` holds a string with the text of `wanted`.
pub fn holds(list: &Vec<String>, wanted: &String) -> (held: bool)
    ensures
        held == texts(list@).contains(wanted@),
{
    let mut at: usize = 0;
    while at < list.len()
        invariant
            at <= list.len(),
            forall|i: int| 0 <= i < at ==> (#[trigger] texts(list@)[i]) != wanted@,
        decreases list.len() - at,
    {
        if list[at] == *wanted {
            assert(texts(list@)[at as int] == wanted@);
            return true;
        }
        at += 1;
    }
    false
}

/// The lines joined by single newline characters.
pub open spec fn joined(lines: Seq<Seq<char>>) -> Seq<char>
    decreases lines.len(),
{
    if lines.len() == 0 {
        Seq::empty()
    } else if lines.len() == 1 {
        lines[0]
    } else {
        joined(lines.drop_last()) + seq!['\n'] + lines.last()
    }
}

/// The strings of `lines`, one per line: a newline between each two.
pub fn join_lines(lines: &[String]) -> (out: String)
    ensures
        out@ == joined(texts(lines@)),
{
    let mut out = String::new();
    let mut at: usize = 0;
    while at < lines.len()
        invariant
            at <= lines.len(),
            out@ == joined(texts(lines@).take(at as int)),
        decreases lines.len() - at,
    {
        proof {
            reveal_strlit("\n");
            assert("\n"@ =~= seq!['\n']);
            let next = texts(lines@).take(at + 1);
            assert(next.drop_last() =~= texts(lines@).take(at as int));
            assert(next.last() == lines@[at as int]@);
        }
        if at > 0 {
            out.append("\n");
        }
        out.append(lines[at].as_str());
        assert(out@ =~= joined(texts(lines@).take(at + 1)));
        at += 1;
    }
    assert(texts(lines@).take(at as int) =~= texts(lines@));
    out
}

/// What `char::is_whitespace` answers for `c`: whether Unicode gives the
/// character the property White_Space.
pub uninterp spec fn is_white_space(c: char) -> bool;

/// Calls `char::is_whitespace`, whose answer is named `is_white_space`.
#[verifier::external_body]
fn is_whitespace(c: char) -> (white: bool)
    ensures
        white == is_white_space(c),
{
    c.is_whitespace()
}

/// For each character of `s`, whether it is whitespace.
pub open spec fn whiteness(s: Seq<char>) -> Seq<bool> {
    s.map_values(|c: char| is_white_space(c))
}

/// How many marks at the start of `white` are set.
pub open spec fn leading(white: Seq<bool>) -> nat
    decreases white.len(),
{
    if white.len() > 0 && white[0] {
        1 + leading(white.skip(1))
    } else {
        0
    }
}

/// How many marks at the end of `white` are set.
pub open spec fn trailing(white: Seq<bool>) -> nat
    decreases white.len(),
{
    if white.len() > 0 && white.last() {
        1 + trailing(white.drop_last())
    } else {
        0
    }
}

/// Where what is kept of a text begins and ends, `white` marking its
/// whitespace: after the leading whitespace and before the trailing one.
/// Of a text that is all whitespace nothing is kept.
pub open spec fn kept(white: Seq<bool>) -> (int, int) {
    let start = leading(white) as int;
    let end = white.len() - trailing(white);
    if start <= end {
        (start, end)
    } else {
        (start, start)
    }
}

/// `s` without leading and trailing whitespace.
pub open spec fn trimmed(s: Seq<char>) -> Seq<char> {
    let (start, end) = kept(whiteness(s));
    s.subrange(start, end)
}

proof fn lemma_leading(white: Seq<bool>, k: int)
    requires
        0 <= k <= white.len(),
        forall|i: int| 0 <= i < k ==> white[i],
        k < white.len() ==> !white[k],
    ensures
        leading(white) == k,
    decreases k,
{
    if k > 0 {
        let rest = white.skip(1);
        assert forall|i: int| 0 <= i < k - 1 implies rest[i] by {
            assert(rest[i] == white[i + 1]);
        }
        lemma_leading(rest, k - 1);
    }
}

proof fn lemma_trailing(white: Seq<bool>, k: int)
    requires
        0 <= k <= white.len(),
        forall|i: int| k <= i < white.len() ==> white[i],
        k > 0 ==> !white[k - 1],
    ensures
        trailing(white) == white.len() - k,
    decreases white.len() - k,
{
    if k < white.len() {
        lemma_trailing(white.drop_last(), k);
    }
}

/// Where what is kept of a text begins and ends, given for each of its
/// characters whether it is whitespace.
pub fn kept_range(white: &Vec<bool>) -> (range: (usize, usize))
    ensures
        (range.0 as int, range.1 as int) == kept(white@),
        range.0 <= range.1 <= white.len(),
{
    let mut start: usize = 0;
    while start < white.len() && white[start]
        invariant
            start <= white.len(),
            forall|i: int| 0 <= i < start ==> white@[i],
        decreases white.len() - start,
    {
        start += 1;
    }
    let mut end: usize = white.len();
    while end > 0 && white[end - 1]
        invariant
            end <= white.len(),
            forall|i: int| end <= i < white.len() ==> white@[i],
        decreases end,
    {
        end -= 1;
    }
    proof {
        lemma_leading(white@, start as int);
        lemma_trailing(white@, end as int);
    }
    if start <= end {
        (start, end)
    } else {
        (start, start)
    }
}

/// `s` without leading and trailing whitespace.
pub fn trim(s: &str) -> (out: String)
    ensures
        out@ == trimmed(s@),
{
    let chars = chars_of(s);
    let mut white: Vec<bool> = Vec::new();
    let mut at: usize = 0;
    while at < chars.len()
        invariant
            at <= chars.len(),
            white.len() == at,
            forall|i: int| 0 <= i < at ==> white@[i] == is_white_space(chars@[i]),
        decreases chars.len() - at,
    {
        white.push(is_whitespace(chars[at]));
        at += 1;
    }
    assert(white@ =~= whiteness(s@));
    let (start, end) = kept_range(&white);
    String::from_str(s.substring_char(start, end))
}

/// The digit that `c` writes, where it is an ASCII digit.
pub open spec fn digit_of(c: char) -> Option<nat> {
    if c == '0' {
        Some(0)
    } else if c == '1' {
        Some(1)
    } else if c == '2' {
        Some(2)
    } else if c == '3' {
        Some(3)
    } else if c == '4' {
        Some(4)
    } else if c == '5' {
        Some(5)
    } else if c == '6' {
        Some(6)
    } else if c == '7' {
        Some(7)
    } else if c == '8' {
        Some(8)
    } else if c == '9' {
        Some(9)
    } else {
        None
    }
}

/// Every character is an ASCII digit.
pub open spec fn all_digits(s: Seq<char>) -> bool {
    forall|i: int| 0 <= i < s.len() ==> digit_of(#[trigger] s[i]) is Some
}

/// The number that the digits write in base ten.
pub open spec fn decimal_value(digits: Seq<char>) -> nat
    decreases digits.len(),
{
    if digits.len() == 0 {
        0
    } else {
        decimal_value(digits.drop_last()) * 10 + digit_of(digits.last()).unwrap_or(0)
    }
}

/// What follows an optional leading `+`.
pub open spec fn unsigned_part(s: Seq<char>) -> Seq<char> {
    if s.len() > 0 && s[0] == '+' {
        s.skip(1)
    } else {
        s
    }
}

/// The index that a text writes: an optional `+`, then one or more ASCII
/// digits and nothing else, the number within the range of `usize`.
pub open spec fn parsed_index(s: Seq<char>) -> Option<usize> {
    let digits = unsigned_part(s);
    if digits.len() > 0 && all_digits(digits) && decimal_value(digits) <= usize::MAX {
        Some(decimal_value(digits) as usize)
    } else {
        None
    }
}

proof fn lemma_decimal_value_grows(digits: Seq<char>, k: int)
    requires
        0 <= k <= digits.len(),
    ensures
        decimal_value(digits.take(k)) <= decimal_value(digits),
    decreases digits.len() - k,
{
    if k == digits.len() {
        assert(digits.take(k) =~= digits);
    } else {
        lemma_decimal_value_grows(digits, k + 1);
        assert(digits.take(k + 1).drop_last() =~= digits.take(k));
    }
}

fn digit(c: char) -> (d: Option<usize>)
    ensures
        match d {
            Some(n) => digit_of(c) == Some(n as nat),
            None => digit_of(c) is None,
        },
{
    match c {
        '0' => Some(0),
        '1' => Some(1),
        '2' => Some(2),
        '3' => Some(3),
        '4' => Some(4),
        '5' => Some(5),
        '6' => Some(6),
        '7' => Some(7),
        '8' => Some(8),
        '9' => Some(9),
        _ => None,
    }
}

/// Reads an index written in decimal digits.
pub fn parse_index(s: &str) -> (index: Option<usize>)
    ensures
        index == parsed_index(s@),
{
    let chars = chars_of(s);
    let first: usize = if chars.len() > 0 && chars[0] == '+' { 1 } else { 0 };
    let ghost digits = unsigned_part(s@);
    assert(digits =~= s@.skip(first as int));
    if first == chars.len() {
        return None;
    }
    let mut value: usize = 0;
    let mut at: usize = first;
    while at < chars.len()
        invariant
            first <= at <= chars.len(),
            chars@ == s@,
            digits == s@.skip(first as int),
            digits == unsigned_part(s@),
            all_digits(digits.take(at - first)),
            value == decimal_value(digits.take(at - first)),
        decreases chars.len() - at,
    {
        let ghost next = digits.take(at - first + 1);
        proof {
            assert(next.drop_last() =~= digits.take(at - first));
            assert(next.last() == chars@[at as int]);
            lemma_decimal_value_grows(digits, at - first + 1);
        }
        let d = match digit(chars[at]) {
            Some(d) => d,
            None => {
                assert(digits[at - first] == chars@[at as int]);
                return None;
            },
        };
        let tens = match value.checked_mul(10) {
            Some(tens) => tens,
            None => {
                return None;
            },
        };
        value = match tens.checked_add(d) {
            Some(sum) => sum,
            None => {
                return None;
            },
        };
        assert forall|i: int| 0 <= i < next.len() implies digit_of(#[trigger] next[i]) is Some by {
            if i < next.len() - 1 {
                assert(digits.take(at - first)[i] == next[i]);
            }
        }
        at += 1;
    }
    assert(digits.take(at - first) =~= digits);
    Some(value)
}

/// Reads bytes as UTF-8 text.
///
/// Calls `String::from_utf8`: the bytes are accepted exactly when they are
/// valid UTF-8, and the string then holds the characters they encode.
#[verifier::external_body]
pub(crate) fn utf8_text(bytes: Vec<u8>) -> (text: Option<String>)
    ensures
        match text {
            Some(t) => valid_utf8(bytes@) && t@ == decode_utf8(bytes@),
            None => !valid_utf8(bytes@),
        },
{
    String::from_utf8(bytes).ok()
}

} // verus!
