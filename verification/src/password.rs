//! The password policy checked before registration: at least five
//! characters, at least one digit, at least one character that is neither
//! a letter nor a digit.

use vstd::prelude::*;
use crate::dates::is_digit_char;

verus! {

/// What `char::is_alphanumeric` answers for a character; a property of
/// the character alone.
pub uninterp spec fn alphanumeric_char(c: char) -> bool;

/// Relies on char::is_alphanumeric: whether the character is in Unicode's
/// alphabetic class or is a numeric character.
#[verifier::external_body]
fn char_is_alphanumeric(c: char) -> (b: bool)
    ensures
        b == alphanumeric_char(c),
{
    c.is_alphanumeric()
}

/// The policy: five or more characters, one of them a decimal digit, one
/// of them no letter or digit.
pub open spec fn password_ok(p: Seq<char>) -> bool {
    &&& p.len() >= 5
    &&& exists|a: int| 0 <= a < p.len() && is_digit_char(#[trigger] p[a])
    &&& exists|a: int| 0 <= a < p.len() && !alphanumeric_char(#[trigger] p[a])
}

/// Decides the password policy.
pub fn is_password_valid(password: &str) -> (b: bool)
    ensures
        b == password_ok(password@),
{
    let n = password.unicode_len();
    let mut has_number = false;
    let mut has_symbol = false;
    let mut i: usize = 0;
    while i < n
        invariant
            i <= n,
            n == password@.len(),
            has_number == exists|a: int| 0 <= a < i && is_digit_char(#[trigger] password@[a]),
            has_symbol == exists|a: int|
                0 <= a < i && !alphanumeric_char(#[trigger] password@[a]),
        decreases n - i,
    {
        let c = password.get_char(i);
        if '0' <= c && c <= '9' {
            has_number = true;
            proof {
                assert(is_digit_char(password@[i as int]));
            }
        }
        if !char_is_alphanumeric(c) {
            has_symbol = true;
        }
        i = i + 1;
    }
    has_number && has_symbol && n >= 5
}

} // verus!
