//! Conversions between strings and character vectors.
//!
//! The lexer and the formatter work over `Vec<char>`; these two wrappers
//! cross between that form and `String` at the edges.

use vstd::prelude::*;

verus! {

/// Relies on `str::chars`: the characters of a string are its view.
#[verifier::external_body]
pub fn str_chars(s: &str) -> (r: Vec<char>)
    ensures
        r@ == s@,
{
    s.chars().collect()
}

/// Relies on `String::from_iter` over characters.
#[verifier::external_body]
pub fn chars_string(v: &Vec<char>) -> (r: String)
    ensures
        r@ == v@,
{
    v.iter().collect()
}

} // verus!
