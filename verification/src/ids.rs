//! Names of candidates, transfers, checks and paths.

use vstd::prelude::*;

use crate::bytes::{be_bytes, be_value, push_be, read_be};

verus! {

/// Sixteen bytes that name something, as a number: the order of the numbers is
/// that of the bytes.
#[derive(Debug, Clone, Copy, PartialEq, Eq, Structural, Hash)]
pub struct Id {
    pub value: u128,
}

impl Id {
    /// The name with these bytes.
    pub fn from_bytes(bytes: [u8; 16]) -> (id: Self)
        ensures
            id.value == be_value(bytes@),
    {
        let value: u128 = read_be(&bytes, 0, 16);
        assert(bytes@.subrange(0, 16) =~= bytes@);
        Id { value }
    }

    /// The bytes of the name.
    pub fn octets(self) -> (bytes: Vec<u8>)
        ensures
            bytes@ == be_bytes(self.value as nat, 16),
    {
        let mut bytes: Vec<u8> = Vec::new();
        push_be(&mut bytes, self.value, 16);
        assert(bytes@ =~= be_bytes(self.value as nat, 16));
        bytes
    }
}

/// Names a candidate.
pub type CandidateId = Id;

/// Names a transfer.
pub type TransferId = Id;

/// Names one check of a path.
pub type TransactionId = Id;

/// Names a path.
pub type PathId = Id;

/// Names a relay.
pub type RelayId = Id;

/// Thirty-two bytes that only those who may check a path know.
#[derive(Debug, Clone, Copy, PartialEq, Eq, Structural, Hash)]
pub struct CheckToken {
    pub high: u128,
    pub low: u128,
}

impl CheckToken {
    /// The token with these bytes.
    pub fn from_bytes(bytes: [u8; 32]) -> (token: Self)
        ensures
            token.high == be_value(bytes@.subrange(0, 16)),
            token.low == be_value(bytes@.subrange(16, 32)),
    {
        CheckToken { high: read_be(&bytes, 0, 16), low: read_be(&bytes, 16, 16) }
    }
}

} // verus!
