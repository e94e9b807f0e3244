//! Character and string primitives of the standard library that the rest of
//! the crate builds on, each with the contract its documentation gives.

use vstd::prelude::*;

verus! {

/// What `str::to_uppercase` returns for a string: its Unicode upper-case
/// mapping (which may change the number of characters).
pub uninterp spec fn uppercase(s: Seq<char>) -> Seq<char>;

/// Whether `char::is_numeric` holds of a character (Unicode general
/// categories Nd, Nl and No).
pub uninterp spec fn char_numeric(c: char) -> bool;

/// Whether `char::is_alphabetic` holds of a character (Unicode derived
/// property Alphabetic).
pub uninterp spec fn char_alphabetic(c: char) -> bool;

/// Whether `char::is_whitespace` holds of a character (Unicode property
/// White_Space).
pub uninterp spec fn char_whitespace(c: char) -> bool;

/// Whether a character is ASCII.
pub open spec fn is_ascii_char(c: char) -> bool {
    (c as int) < 128
}

/// Whether every character of a text is ASCII.
pub open spec fn all_ascii(s: Seq<char>) -> bool {
    forall|i: int| 0 <= i < s.len() ==> is_ascii_char(#[trigger] s[i])
}

/// The ASCII upper-case form of a character: `a`..`z` become `A`..`Z`, all
/// other characters stay.
pub open spec fn ascii_upper(c: char) -> char {
    if 'a' <= c && c <= 'z' {
        ((c as int) - 32) as char
    } else {
        c
    }
}

/// Whether a number is a Unicode scalar value, the values a `char` can hold.
pub open spec fn is_scalar(v: int) -> bool {
    (0 <= v && v <= 0xD7FF) || (0xE000 <= v && v <= 0x10FFFF)
}

broadcast use vstd::string::group_string_axioms;

/// The characters of a string slice, in order.
pub fn chars_of(s: &str) -> (v: Vec<char>)
    ensures
        v@ == s@,
{
    let mut v: Vec<char> = Vec::new();
    for c in it: s.chars()
        invariant
            v@ == it.seq().take(it.index() as int),
            it.seq() == s@,
    {
        v.push(c);
    }
    v
}

/// A string made of the given characters (`String::from_iter`). Claims that
/// the string holds exactly those characters.
#[verifier::external_body]
pub(crate) fn string_of(v: &[char]) -> (s: String)
    ensures
        s@ == v@,
{
    String::from_iter(v.iter())
}

/// `str::to_uppercase`. Claims that the result is the upper-case mapping of
/// the argument, named by `uppercase`, and, as std documents, that on an
/// ASCII text it maps `a`..`z` to `A`..`Z` and keeps every other character
/// (so that upper-casing the result again gives the result back).
#[verifier::external_body]
pub(crate) fn to_uppercase(s: &str) -> (r: String)
    ensures
        r@ == uppercase(s@),
        all_ascii(s@) ==> r@ == s@.map_values(|c: char| ascii_upper(c)),
        all_ascii(s@) ==> uppercase(r@) == r@,
{
    s.to_uppercase()
}

/// `char::is_numeric`, named by `char_numeric`. Claims too that among ASCII
/// characters exactly the digits `0`..`9` are numeric.
#[verifier::external_body]
pub(crate) fn is_numeric(c: char) -> (b: bool)
    ensures
        b == char_numeric(c),
        is_ascii_char(c) ==> (b <==> ('0' <= c && c <= '9')),
{
    c.is_numeric()
}

/// `char::is_alphabetic`, named by `char_alphabetic`. Claims too that among
/// ASCII characters exactly the letters `A`..`Z` and `a`..`z` are alphabetic.
#[verifier::external_body]
pub(crate) fn is_alphabetic(c: char) -> (b: bool)
    ensures
        b == char_alphabetic(c),
        is_ascii_char(c) ==> (b <==> (('A' <= c && c <= 'Z') || ('a' <= c && c <= 'z'))),
{
    c.is_alphabetic()
}

/// `char::is_whitespace`, named by `char_whitespace`. Claims too that among
/// ASCII characters exactly the space and the controls tab to carriage
/// return (9 to 13) are whitespace.
#[verifier::external_body]
pub(crate) fn is_whitespace(c: char) -> (b: bool)
    ensures
        b == char_whitespace(c),
        is_ascii_char(c) ==> (b <==> (c == ' ' || (9 <= (c as int) && (c as int) <= 13))),
{
    c.is_whitespace()
}

/// `char::from_u32`. Claims what its documentation says: it returns the
/// character with that code exactly when the number is a Unicode scalar value.
#[verifier::external_body]
pub(crate) fn char_from_u32(v: u32) -> (r: Option<char>)
    ensures
        r is Some <==> is_scalar(v as int),
        r matches Some(c) ==> c as u32 == v,
{
    char::from_u32(v)
}

} // verus!
