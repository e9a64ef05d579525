//! Fresh identities for matches and clients.

use vstd::prelude::*;

verus! {

/// A lower-case hexadecimal digit.
pub open spec fn is_lower_hex(c: char) -> bool {
    ('0' <= c <= '9') || ('a' <= c <= 'f')
}

/// The shape of a drawn identity: 32 lower-case hexadecimal digits, the
/// thirteenth of them the version digit 4.
pub open spec fn is_identity(s: Seq<char>) -> bool {
    &&& s.len() == 32
    &&& forall|i: int| 0 <= i < 32 ==> is_lower_hex(#[trigger] s[i])
    &&& s[12] == '4'
}

/// Draws a random identity.
///
/// Trusted: calls `uuid::Uuid::new_v4`, takes the `simple()` form of the
/// result and writes it with `to_string()`. The contract claims what that
/// form looks like for a version 4 identifier, 32 lower-case hexadecimal
/// digits with the version digit in its place, and nothing about which
/// identity is drawn: two calls may or may not give the same one. The call
/// needs the random source of the operating system and does not return where
/// that source fails.
#[verifier::external_body]
pub(crate) fn new_identity() -> (id: String)
    ensures
        is_identity(id@),
{
    uuid::Uuid::new_v4().simple().to_string()
}

} // verus!
