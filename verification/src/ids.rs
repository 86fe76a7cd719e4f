//! Random ids, and whether a text is one.

use vstd::prelude::*;

verus! {

/// Whether a character is a hexadecimal digit in lower case.
pub open spec fn is_lower_hex(c: char) -> bool {
    '0' <= c <= '9' || 'a' <= c <= 'f'
}

/// `uuid::Uuid::new_v4`, written in its simple form: 32 hexadecimal digits in
/// lower case, without hyphens. Which digits they are is chance. It fails only
/// where the system has no random numbers to give.
#[verifier::external_body]
pub(crate) fn random_id() -> (r: String)
    ensures
        r@.len() == 32,
        forall|i: int| 0 <= i < 32 ==> is_lower_hex(#[trigger] r@[i]),
{
    uuid::Uuid::new_v4().simple().to_string()
}

/// Whether `uuid` reads a text as an id.
pub uninterp spec fn reads_as_uuid(s: Seq<char>) -> bool;

/// `uuid::Uuid::parse_str`: whether it takes the text.
#[verifier::external_body]
pub(crate) fn is_uuid(s: &str) -> (r: bool)
    ensures
        r == reads_as_uuid(s@),
{
    uuid::Uuid::parse_str(s).is_ok()
}

} // verus!
