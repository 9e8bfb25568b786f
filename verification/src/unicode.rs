//! Unicode operations the schema depends on: NFKC normalization, full
//! lowercasing, and the alphanumeric property.
//!
//! Each is named by an uninterpreted function: the result is a function of
//! the input characters alone, which is all the validation rules rely on.

use vstd::prelude::*;

use unicode_normalization::UnicodeNormalization;

verus! {

/// The NFKC normalization of a character sequence.
pub uninterp spec fn nfkc(s: Seq<char>) -> Seq<char>;

/// The Unicode lowercase form of a character sequence.
pub uninterp spec fn lower(s: Seq<char>) -> Seq<char>;

/// Whether a character is alphanumeric.
pub uninterp spec fn alnum(c: char) -> bool;

/// Normalize a string to NFKC form.
///
/// Relies on `unicode_normalization`'s `nfkc` iterator: the result depends
/// on the input characters alone.
#[verifier::external_body]
pub(crate) fn nfkc_str(s: &str) -> (r: String)
    ensures
        r@ == nfkc(s@),
{
    s.nfkc().collect()
}

/// Relies on `str::to_lowercase`: the result depends on the input
/// characters alone.
pub assume_specification[ str::to_lowercase ](s: &str) -> (r: String)
    ensures
        r@ == lower(s@),
;

/// Relies on `char::is_alphanumeric`: a property of the character alone.
pub assume_specification[ char::is_alphanumeric ](c: char) -> (r: bool)
    ensures
        r == alnum(c),
;

} // verus!
