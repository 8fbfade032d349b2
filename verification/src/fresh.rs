//! Identifiers that nobody can guess.

use vstd::prelude::*;
use vstd::string::*;
use crate::text::joined;

verus! {

pub open spec fn is_hex_digit(c: char) -> bool {
    '0' <= c <= '9' || 'a' <= c <= 'f'
}

pub open spec fn is_hyphen_place(i: int) -> bool {
    i == 8 || i == 13 || i == 18 || i == 23
}

/// The text of a random UUID: 36 characters, hyphens in their places, lower-case
/// hexadecimal digits in the others, version 4 and the RFC variant.
pub open spec fn is_random_uuid(s: Seq<char>) -> bool {
    &&& s.len() == 36
    &&& forall|i: int|
        0 <= i < 36 ==> if is_hyphen_place(i) {
            (#[trigger] s[i]) == '-'
        } else {
            is_hex_digit(s[i])
        }
    &&& s[14] == '4'
    &&& s[19] == '8' || s[19] == '9' || s[19] == 'a' || s[19] == 'b'
}

/// Calls `uuid::Uuid::new_v4`, and `to_string` of what it returns: some random
/// UUID in its hyphenated form. Which one it is, and that no two are the same, is
/// not said: both rest on chance. The call panics where the operating system has
/// no random numbers to give.
#[verifier::external_body]
fn random_uuid() -> (s: String)
    ensures
        is_random_uuid(s@),
{
    uuid::Uuid::new_v4().to_string()
}

/// The secret that a caller has to present.
pub fn fresh_token() -> (s: String)
    ensures
        is_random_uuid(s@),
{
    random_uuid()
}

/// The id of a lease.
pub open spec fn is_runtime_id(s: Seq<char>) -> bool {
    exists|u: Seq<char>| is_random_uuid(u) && s == "rt-"@ + u
}

pub fn fresh_runtime_id() -> (s: String)
    ensures
        is_runtime_id(s@),
{
    let u = random_uuid();
    joined("rt-", u.as_str())
}

} // verus!
