//! Case- and normalization-insensitive comparison of a path's final component.

use crate::paths::{file_name, file_name_of};
use crate::text::{seq_contains, str_contains};
use unicode_normalization::UnicodeNormalization;
use vstd::prelude::*;

verus! {

/// The canonical decomposition (NFD) of the text, as `unicode_normalization` computes it.
pub uninterp spec fn nfd_of(s: Seq<char>) -> Seq<char>;

/// The text as `str::to_lowercase` lowers it.
pub uninterp spec fn lower_of(s: Seq<char>) -> Seq<char>;

/// Relies on `UnicodeNormalization::nfd` of unicode_normalization: canonical decomposition.
#[verifier::external_body]
fn decompose(s: &str) -> (r: String)
    ensures
        r@ == nfd_of(s@),
{
    s.nfd().collect::<String>()
}

/// Relies on `str::to_lowercase`: the lowercase mapping of each character.
#[verifier::external_body]
fn lowercase(s: &str) -> (r: String)
    ensures
        r@ == lower_of(s@),
{
    s.to_lowercase()
}

/// The form in which names are compared: decomposed, then lowercased.
pub open spec fn normalized(s: Seq<char>) -> Seq<char> {
    lower_of(nfd_of(s))
}

/// The final component of `path`, normalized, contains `needle`, normalized.
pub open spec fn contains_ignore_case(path: Seq<char>, needle: Seq<char>) -> bool {
    match file_name_of(path) {
        Some(name) => seq_contains(normalized(name), normalized(needle)),
        None => false,
    }
}

/// The final component of `path`, normalized, equals `value`, normalized.
pub open spec fn equals_ignore_case(path: Seq<char>, value: Seq<char>) -> bool {
    match file_name_of(path) {
        Some(name) => normalized(name) == normalized(value),
        None => false,
    }
}

/// Normalize and lowercase a string for comparison on a case- and
/// normalization-insensitive filesystem.
pub fn normalize_lowercase(s: &str) -> (r: String)
    ensures
        r@ == normalized(s@),
{
    let decomposed = decompose(s);
    lowercase(decomposed.as_str())
}

/// Whether the final component of `path` contains `needle`, ignoring case and normalization.
pub fn path_contains_ignore_case(path: &str, needle: &str) -> (r: bool)
    ensures
        r == contains_ignore_case(path@, needle@),
{
    match file_name(path) {
        Some(name) => {
            let n = normalize_lowercase(name.as_str());
            let m = normalize_lowercase(needle);
            str_contains(n.as_str(), m.as_str())
        },
        None => false,
    }
}

/// Whether the final component of `path` equals `value`, ignoring case and normalization.
pub fn path_equals_ignore_case(path: &str, value: &str) -> (r: bool)
    ensures
        r == equals_ignore_case(path@, value@),
{
    match file_name(path) {
        Some(name) => {
            let n = normalize_lowercase(name.as_str());
            let m = normalize_lowercase(value);
            n == m
        },
        None => false,
    }
}

} // verus!
