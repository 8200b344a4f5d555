//! What the client says to the server.

use vstd::prelude::*;

use crate::ids::{Id, TransferId};
use crate::network_probe::Candidate;
use crate::transfer_client::manifest::Digest;
use crate::transfer_client::resume::PairingId;
use crate::transfer_client::ticket_format::TransferRole;

verus! {

/// A message to the server. `C` is the code that two sides find each other by.
#[derive(Debug)]
pub enum Request<C> {
    CreatePairing { instance: Id, ttl_seconds: u32, key: [u8; 32] },
    JoinPairing { code: C, instance: Id, key: [u8; 32] },
    OfferReady {
        transfer_id: TransferId,
        manifest_digest: Digest,
        file_count: u64,
        total_size: u64,
        sender_display_name: String,
    },
    AcceptOffer { transfer_id: TransferId, accepted: bool, policy: String },
    CandidateList { transfer_id: TransferId, candidates: Vec<Candidate>, digest: [u8; 32] },
    ResumeTransfer {
        pairing_id: PairingId,
        transfer_id: TransferId,
        role: TransferRole,
        instance: Id,
        ticket: Vec<u8>,
    },
    Cancel { transfer_id: TransferId, reason_code: u16 },
}

} // verus!
