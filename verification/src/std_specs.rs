//! Contracts for the functions of the standard library that this crate calls and for which
//! none is given elsewhere. Nothing here is proved: each states what the standard library
//! documents.
use vstd::prelude::*;

verus! {

/// Whether `c` has the Unicode property `Alphabetic`, as `char::is_alphabetic` reports it.
pub uninterp spec fn alphabetic(c: char) -> bool;

/// `char::is_alphabetic` reports whether the character has the Unicode property `Alphabetic`.
/// The contract gives that answer its name, [`alphabetic`], and claims nothing more of it.
pub assume_specification[ char::is_alphabetic ](c: char) -> (r: bool)
    ensures
        r == alphabetic(c),
;

/// `String::push` appends the character to the end of the string and leaves the rest as it was.
pub assume_specification[ std::string::String::push ](s: &mut std::string::String, c: char)
    ensures
        final(s)@ == old(s)@.push(c),
;

} // verus!
