//! The character rules for user names and free text.

use vstd::prelude::*;
use validator::ValidationError;

verus! {

/// A field validation failure of the `validator` crate.
#[verifier::external_type_specification]
#[verifier::external_body]
pub struct ExValidationError(ValidationError);

/// A wrapper of `ValidationError::new`, which builds a failure with the
/// given code and neither message nor parameters. The failure's fields are
/// not visible here, so nothing about the value is stated.
#[verifier::external_body]
fn validation_error(code: &'static str) -> ValidationError {
    ValidationError::new(code)
}

/// The characters a user name may hold: `a` to `z`, `0` to `9` and `_`.
pub open spec fn is_username_char(c: char) -> bool {
    ('a' <= c && c <= 'z') || ('0' <= c && c <= '9') || c == '_'
}

/// Whether `c` is a control character: Unicode's general category Cc, the
/// code points U+0000 to U+001F and U+007F to U+009F.
pub open spec fn spec_is_control(c: char) -> bool {
    (c as u32) <= 0x1f || (0x7f <= (c as u32) && (c as u32) <= 0x9f)
}

/// A wrapper of `char::is_control`, documented as true for the general
/// category Cc, which holds exactly the code points of `spec_is_control`.
#[verifier::external_body]
fn is_control(c: char) -> (b: bool)
    ensures
        b == spec_is_control(c),
{
    c.is_control()
}

/// A user name may hold `a` to `z`, `0` to `9` and `_` only.
pub open spec fn username_chars_ok(s: Seq<char>) -> bool {
    forall|i: int| 0 <= i < s.len() ==> is_username_char(#[trigger] s[i])
}

/// The characters allowed in a user name are exactly the 26 lower-case
/// ASCII letters (code points 97 to 122), the ten ASCII digits (48 to 57)
/// and the underscore (95); anything else, such as `.`, `-`, a space or an
/// upper-case letter, is refused.
pub proof fn lemma_username_char_set()
    ensures
        forall|c: char|
            #[trigger] is_username_char(c) <==> ((97 <= c as int <= 122) || (48 <= c as int <= 57) || c as int
                == 95),
        !is_username_char('.') && !is_username_char('-') && !is_username_char(' ') && !is_username_char('A'),
{
}

/// Text may hold no control characters.
pub open spec fn no_control_chars(s: Seq<char>) -> bool {
    forall|i: int| 0 <= i < s.len() ==> !spec_is_control(#[trigger] s[i])
}

/// Accepts names made of `a` to `z`, `0` to `9` and `_`; refuses others
/// with a failure of code `chars`.
pub fn validate_username_chars(value: &str) -> (r: Result<(), ValidationError>)
    ensures
        r is Ok <==> username_chars_ok(value@),
        r is Ok <==> forall|i: int|
            0 <= i < value@.len() ==> {
                let code = #[trigger] value@[i] as int;
                (97 <= code <= 122) || (48 <= code <= 57) || code == 95
            },
{
    proof {
        lemma_username_char_set();
    }
    for c in it: value.chars()
        invariant
            it.seq() == value@,
            forall|j: int| 0 <= j < it.index() ==> is_username_char(#[trigger] value@[j]),
    {
        if !(('a' <= c && c <= 'z') || ('0' <= c && c <= '9') || c == '_') {
            return Err(validation_error("chars"));
        }
    }
    Ok(())
}

/// Accepts text without control characters; refuses other text with a
/// failure of code `chars`.
pub fn validate_non_control_chars(value: &str) -> (r: Result<(), ValidationError>)
    ensures
        r is Ok <==> no_control_chars(value@),
{
    for c in it: value.chars()
        invariant
            it.seq() == value@,
            forall|j: int| 0 <= j < it.index() ==> !spec_is_control(#[trigger] value@[j]),
    {
        if is_control(c) {
            return Err(validation_error("chars"));
        }
    }
    Ok(())
}

} // verus!
