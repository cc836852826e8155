//! The caller identifier and what the store relies on from it.

use candid::Principal;
use vstd::prelude::*;

verus! {

/// `candid::Principal`, the identifier of a caller. The store never looks
/// inside one: it carries principals around and compares them.
#[verifier::external_type_specification]
#[verifier::external_body]
pub struct ExPrincipal(candid::Principal);

/// Compares two principals with `Principal`'s own `==`.
///
/// Trusted: `Principal` derives `PartialEq` over its length and its byte
/// buffer, so `==` holds exactly when the two values are the same principal.
#[verifier::external_body]
pub(crate) fn same_principal(a: &Principal, b: &Principal) -> (same: bool)
    ensures
        same == (*a == *b),
{
    a == b
}

/// Hands back the caller it is given, whoever that is: no principal is
/// rejected, the anonymous one included.
pub fn whoami(caller: Principal) -> (id: Principal)
    ensures
        id == caller,
{
    caller
}

} // verus!
