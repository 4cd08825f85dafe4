//! The boundary to code that is not verified here: the `regex` crate and two
//! functions of the standard library.
//!
//! Every function in this module has a contract that is trusted, not proved.
//! Regular-expression syntax and matching, and the Unicode tables behind
//! `char::is_alphanumeric`, are not modelled: their results are named by
//! uninterpreted functions, and the contracts only tie those names to what
//! the outside code computes.

use vstd::prelude::*;

verus! {

/// Whether `regex::Regex::new` accepts the text `expr`.
pub uninterp spec fn regex_valid(expr: Seq<char>) -> bool;

/// Whether `regex::Regex::new` accepts the text `expr` and the compiled
/// expression then matches somewhere in `text`, by `Regex::is_match`.
pub uninterp spec fn regex_finds(expr: Seq<char>, text: Seq<char>) -> bool;

/// Whether the text is a regular expression that compiles.
///
/// Trusted: calls `regex::Regex::new` and reports whether it returned `Ok`.
/// The contract only gives that outcome its name.
#[verifier::external_body]
pub(crate) fn regex_compiles(expr: &str) -> (ok: bool)
    ensures
        ok == regex_valid(expr@),
{
    regex::Regex::new(expr).is_ok()
}

/// Whether the regular expression `expr` matches somewhere in `text`; `false`
/// where `expr` does not compile.
///
/// Trusted: compiles `expr` with `regex::Regex::new` and, on success, calls
/// `Regex::is_match` on `text`. The contract only gives that outcome its
/// name.
#[verifier::external_body]
pub(crate) fn regex_is_match(expr: &str, text: &str) -> (hit: bool)
    ensures
        hit == regex_finds(expr@, text@),
{
    match regex::Regex::new(expr) {
        Ok(re) => re.is_match(text),
        Err(_) => false,
    }
}

/// Appends one character to a string.
///
/// Trusted: calls `String::push`, which the standard library documents as
/// appending the given character to the end of the string.
#[verifier::external_body]
pub(crate) fn push_char(s: &mut String, c: char)
    ensures
        final(s)@ == old(s)@.push(c),
{
    s.push(c);
}

/// Whether the standard library counts the character as alphanumeric:
/// `char::is_alphanumeric`, which goes by the Unicode character database.
pub uninterp spec fn is_alphanumeric(c: char) -> bool;

/// Whether a character is alphanumeric.
///
/// Trusted: calls `char::is_alphanumeric`. The contract only gives its
/// result a name.
#[verifier::external_body]
pub(crate) fn is_alphanumeric_char(c: char) -> (b: bool)
    ensures
        b == is_alphanumeric(c),
{
    c.is_alphanumeric()
}

} // verus!
