//! Password checking and the character rules for credentials.
use vstd::prelude::*;

use crate::text::str_eq_check;

verus! {

/// Why a password check failed.
#[derive(Debug, Clone, Copy, PartialEq, Eq, Structural)]
pub enum PasswordError {
    /// The password does not match the stored one.
    Other,
}

/// Whether the character counts as alphanumeric.  Relies on
/// `char::is_alphanumeric`: membership in the Unicode letter and number
/// categories is a function of the character alone.
pub uninterp spec fn char_alphanumeric(c: char) -> bool;

pub assume_specification[ char::is_alphanumeric ](c: char) -> (r: bool)
    ensures
        r == char_alphanumeric(c),
;

/// The four ASCII punctuation ranges, as the standard library defines them.
pub open spec fn ascii_punctuation(c: char) -> bool {
    ||| 0x21 <= c as int <= 0x2f
    ||| 0x3a <= c as int <= 0x40
    ||| 0x5b <= c as int <= 0x60
    ||| 0x7b <= c as int <= 0x7e
}

pub assume_specification[ char::is_ascii_punctuation ](c: &char) -> (r: bool)
    ensures
        r == ascii_punctuation(*c),
;

/// The characters a password may hold.
pub open spec fn valid_char(c: char) -> bool {
    char_alphanumeric(c) || ascii_punctuation(c)
}

/// Is the character acceptable in a password: alphanumeric or ASCII
/// punctuation?
pub fn is_valid_char(c: char) -> (r: bool)
    ensures
        r == valid_char(c),
{
    c.is_alphanumeric() || c.is_ascii_punctuation()
}

/// Checks a password against the stored expected one: accepted exactly when
/// the two agree character for character.
pub fn verify_password(password: &str, expected: &str) -> (r: Result<(), PasswordError>)
    ensures
        r is Ok <==> password@ == expected@,
{
    if str_eq_check(password, expected) {
        Ok(())
    } else {
        Err(PasswordError::Other)
    }
}

} // verus!
