//! Small text utilities shared by the rest of the crate: comparison,
//! decimal rendering, substring search and UTF-8 decoding.

use vstd::prelude::*;
use vstd::string::*;
use vstd::utf8::*;

verus! {

/// Whether two string slices hold the same characters.
pub fn same_text(a: &str, b: &str) -> (same: bool)
    ensures
        same == (a@ == b@),
{
    String::from_str(a) == String::from_str(b)
}

/// The character that stands for a decimal digit.
pub open spec fn digit_char(d: nat) -> char {
    seq!['0', '1', '2', '3', '4', '5', '6', '7', '8', '9'][d as int]
}

/// The decimal rendering of a natural number, without leading zeros.
pub open spec fn decimal_text(n: nat) -> Seq<char>
    decreases n,
{
    if n < 10 {
        seq![digit_char(n)]
    } else {
        decimal_text(n / 10).push(digit_char(n % 10))
    }
}

fn digit_name(d: usize) -> (name: &'static str)
    requires
        d < 10,
    ensures
        name@ == seq![digit_char(d as nat)],
{
    proof {
        reveal_strlit("0");
        reveal_strlit("1");
        reveal_strlit("2");
        reveal_strlit("3");
        reveal_strlit("4");
        reveal_strlit("5");
        reveal_strlit("6");
        reveal_strlit("7");
        reveal_strlit("8");
        reveal_strlit("9");
    }
    let name = if d == 0 {
        "0"
    } else if d == 1 {
        "1"
    } else if d == 2 {
        "2"
    } else if d == 3 {
        "3"
    } else if d == 4 {
        "4"
    } else if d == 5 {
        "5"
    } else if d == 6 {
        "6"
    } else if d == 7 {
        "7"
    } else if d == 8 {
        "8"
    } else {
        "9"
    };
    assert(name@ =~= seq![digit_char(d as nat)]);
    name
}

/// Renders a number in decimal.
pub fn decimal(n: usize) -> (text: String)
    ensures
        text@ == decimal_text(n as nat),
    decreases n,
{
    if n < 10 {
        String::from_str(digit_name(n))
    } else {
        let mut text = decimal(n / 10);
        text.append(digit_name(n % 10));
        assert(text@ =~= decimal_text((n / 10) as nat).push(digit_char((n % 10) as nat)));
        text
    }
}

/// Whether `needle` occurs in `haystack` as a contiguous run of characters.
pub open spec fn is_substring(needle: Seq<char>, haystack: Seq<char>) -> bool {
    exists|start: int|
        0 <= start && start + needle.len() <= haystack.len() && #[trigger] haystack.subrange(
            start,
            start + needle.len(),
        ) == needle
}

/// What occurs in a part of a text occurs in the text, and every text
/// occurs in itself.
pub proof fn substring_of_substring(inner: Seq<char>, middle: Seq<char>, outer: Seq<char>)
    ensures
        is_substring(outer, outer),
        is_substring(inner, middle) && is_substring(middle, outer) ==> is_substring(inner, outer),
{
    assert(outer.subrange(0, 0 + outer.len() as int) =~= outer);
    if is_substring(inner, middle) && is_substring(middle, outer) {
        let a = choose|start: int|
            0 <= start && start + inner.len() <= middle.len() && #[trigger] middle.subrange(
                start,
                start + inner.len(),
            ) == inner;
        let b = choose|start: int|
            0 <= start && start + middle.len() <= outer.len() && #[trigger] outer.subrange(
                start,
                start + middle.len(),
            ) == middle;
        assert(outer.subrange(a + b, a + b + inner.len()) =~= inner);
    }
}

/// `str::contains` with a string pattern: true exactly when the pattern
/// occurs somewhere in the haystack. Both sides are valid UTF-8, so a match
/// on bytes is a match on characters.
#[verifier::external_body]
pub(crate) fn contains_text(haystack: &str, needle: &str) -> (found: bool)
    ensures
        found == is_substring(needle@, haystack@),
{
    haystack.contains(needle)
}

/// `String::from_utf8`: the text that the bytes encode, or nothing when they
/// are not valid UTF-8.
#[verifier::external_body]
pub(crate) fn text_from_utf8(bytes: Vec<u8>) -> (decoded: Option<String>)
    ensures
        decoded is Some <==> valid_utf8(bytes@),
        decoded matches Some(text) ==> text@ == decode_utf8(bytes@),
{
    String::from_utf8(bytes).ok()
}

} // verus!
