//! Character-level helpers on strings.

use vstd::prelude::*;

verus! {

/// Appends a character; a wrapper of `String::push`, whose documentation
/// says that it appends the given char to the end of the string.
#[verifier::external_body]
pub(crate) fn push_char(s: &mut String, c: char)
    ensures
        final(s)@ == old(s)@.push(c),
{
    s.push(c);
}

} // verus!
