//! Contracts for the few std operations that vstd leaves unspecified.

use vstd::prelude::*;

verus! {

/// Calls `Vec::shrink_to_fit`, which only releases spare capacity: the
/// contents stay as they are.
#[verifier::external_body]
pub fn vec_shrink_to_fit<T>(v: &mut Vec<T>)
    ensures
        final(v)@ == old(v)@,
{
    v.shrink_to_fit();
}

/// Calls `String::push`, which appends one character at the end.
#[verifier::external_body]
pub fn string_push(s: &mut String, c: char)
    ensures
        final(s)@ == old(s)@.push(c),
{
    s.push(c);
}

} // verus!
