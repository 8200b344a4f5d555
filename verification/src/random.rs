//! Random bytes from the system.

use vstd::prelude::*;

verus! {

/// Why the system gives no random bytes.
#[verifier::external_type_specification]
#[verifier::external_body]
pub struct ExRandomError(getrandom::Error);

/// `getrandom::fill` on `N` bytes. Nothing is claimed of the bytes, nor of when
/// the system gives none.
#[verifier::external_body]
pub(crate) fn random_bytes<const N: usize>() -> (result: Result<[u8; N], getrandom::Error>) {
    let mut bytes = [0u8; N];
    getrandom::fill(&mut bytes).map(|_| bytes)
}

} // verus!
