//! Character classes that drive token classification.
//!
//! Each class has a `spec` definition over the character's code point and an
//! executable counterpart proved equivalent to it.

use vstd::prelude::*;

verus! {

/// The Unicode white-space code points (the `White_Space` property).
pub open spec fn spec_is_whitespace(c: char) -> bool {
    let u = c as u32;
    (0x09 <= u && u <= 0x0d) || u == 0x20 || u == 0x85 || u == 0xa0 || u == 0x1680 || (0x2000 <= u
        && u <= 0x200a) || u == 0x2028 || u == 0x2029 || u == 0x202f || u == 0x205f || u == 0x3000
}

/// A character that may begin an identifier: an underscore or an ASCII letter.
pub open spec fn spec_is_identifier_start(c: char) -> bool {
    let u = c as u32;
    u == 0x5f || (0x41 <= u && u <= 0x5a) || (0x61 <= u && u <= 0x7a)
}

/// A character that may continue an identifier: an identifier start or an
/// ASCII digit, so digits may follow but not begin an identifier.
pub open spec fn spec_is_identifier_continue(c: char) -> bool {
    spec_is_identifier_start(c) || spec_is_integer(c)
}

/// A character that may begin or continue an integer literal: an ASCII digit.
pub open spec fn spec_is_integer(c: char) -> bool {
    let u = c as u32;
    0x30 <= u && u <= 0x39
}

/// Whether `c` is white space.
#[verifier::when_used_as_spec(spec_is_whitespace)]
pub fn is_whitespace(c: char) -> (r: bool)
    ensures
        r == spec_is_whitespace(c),
{
    let u = c as u32;
    (0x09 <= u && u <= 0x0d) || u == 0x20 || u == 0x85 || u == 0xa0 || u == 0x1680 || (0x2000 <= u
        && u <= 0x200a) || u == 0x2028 || u == 0x2029 || u == 0x202f || u == 0x205f || u == 0x3000
}

/// Whether `c` may begin an identifier.
#[verifier::when_used_as_spec(spec_is_identifier_start)]
pub fn is_identifier_start(c: char) -> (r: bool)
    ensures
        r == spec_is_identifier_start(c),
{
    let u = c as u32;
    u == 0x5f || (0x41 <= u && u <= 0x5a) || (0x61 <= u && u <= 0x7a)
}

/// Whether `c` may continue an identifier.
#[verifier::when_used_as_spec(spec_is_identifier_continue)]
pub fn is_identifier_continue(c: char) -> (r: bool)
    ensures
        r == spec_is_identifier_continue(c),
{
    is_identifier_start(c) || is_integer(c)
}

/// Whether `c` is an ASCII digit.
#[verifier::when_used_as_spec(spec_is_integer)]
pub fn is_integer(c: char) -> (r: bool)
    ensures
        r == spec_is_integer(c),
{
    let u = c as u32;
    0x30 <= u && u <= 0x39
}

} // verus!
