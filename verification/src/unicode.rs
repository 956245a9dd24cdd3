//! Trusted names for the two Unicode character classes the scanner relies
//! on. Both are pure functions of the character alone, so each gets an
//! uninterpreted name, and the standard library's classifier is assumed to
//! return that name's value. Everything the scanner claims about identifiers
//! is stated over these names.

use vstd::prelude::*;

verus! {

/// What `char::is_alphabetic` returns for `c`.
pub uninterp spec fn char_alphabetic(c: char) -> bool;

/// What `char::is_alphanumeric` returns for `c`.
pub uninterp spec fn char_alphanumeric(c: char) -> bool;

/// Relies on `char::is_alphabetic`: whether `c` is a Unicode letter, a
/// property of the character alone.
pub assume_specification[ char::is_alphabetic ](c: char) -> (b: bool)
    ensures
        b == char_alphabetic(c),
;

/// Relies on `char::is_alphanumeric`: whether `c` is a Unicode letter or
/// digit, a property of the character alone.
pub assume_specification[ char::is_alphanumeric ](c: char) -> (b: bool)
    ensures
        b == char_alphanumeric(c),
;

} // verus!
