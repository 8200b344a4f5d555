//! Checks of whether candidates can be reached.

use vstd::prelude::*;

use crate::duration::{Duration, NANOS_PER_MILLI};
use crate::ids::{CandidateId, CheckToken, TransactionId, TransferId};
use crate::net::SocketAddr;
use crate::network_probe::candidate::{Candidate, CandidateKind};
use crate::network_probe::error::ProbeError;

verus! {

/// How often to try again by default.
pub const DEFAULT_PROBE_RETRIES: usize = 2;

/// How many samples to take by default.
pub const DEFAULT_SAMPLE_COUNT: usize = 3;

/// The size of a packet that is known to pass, by default.
pub const DEFAULT_MTU_SAMPLE: usize = 1200;

/// The most bytes of a datagram, by default.
pub const MAX_PROBE_DATAGRAM: usize = 1472;

/// The longest wait for answers by default.
pub fn default_probe_timeout() -> (timeout: Duration)
    ensures
        timeout@ == 500 * NANOS_PER_MILLI as nat,
{
    Duration::from_millis(500)
}

/// How to check.
#[derive(Debug, Clone, Copy, PartialEq, Eq, Structural)]
pub struct ProbeConfig {
    pub timeout: Duration,
    pub retries: usize,
    pub samples: usize,
    pub max_candidates: usize,
    pub max_datagram_size: usize,
    /// The most bytes of a datagram of a check: a cautious sample of what a path
    /// that answers carries, not a search for the most it carries.
    pub mtu_sample_size: usize,
}

impl Default for ProbeConfig {
    fn default() -> (config: Self)
        ensures
            config.timeout@ == 500 * NANOS_PER_MILLI as nat,
            config.retries == DEFAULT_PROBE_RETRIES,
            config.samples == DEFAULT_SAMPLE_COUNT,
            config.max_candidates == 16,
            config.max_datagram_size == MAX_PROBE_DATAGRAM,
            config.mtu_sample_size == DEFAULT_MTU_SAMPLE,
            config.problem() is None,
    {
        ProbeConfig {
            timeout: default_probe_timeout(),
            retries: DEFAULT_PROBE_RETRIES,
            samples: DEFAULT_SAMPLE_COUNT,
            max_candidates: 16,
            max_datagram_size: MAX_PROBE_DATAGRAM,
            mtu_sample_size: DEFAULT_MTU_SAMPLE,
        }
    }
}

impl ProbeConfig {
    /// The first field that makes checks impossible.
    pub open spec fn problem(self) -> Option<&'static str> {
        if self.timeout@ == 0 {
            Some("timeout")
        } else if self.samples == 0 {
            Some("samples")
        } else if self.max_candidates == 0 {
            Some("max_candidates")
        } else if !(64 <= self.max_datagram_size <= 65_507) {
            Some("max_datagram_size")
        } else if self.mtu_sample_size < 64 || self.mtu_sample_size > self.max_datagram_size {
            Some("mtu_sample_size")
        } else {
            None
        }
    }

    /// Whether checks are possible, and if not, because of which field.
    pub fn validate(&self) -> (result: Result<(), ProbeError>)
        ensures
            match result {
                Ok(()) => self.problem() is None,
                Err(error) => self.problem() is Some && error == ProbeError::InvalidConfig(
                    self.problem()->0,
                ),
            },
    {
        if self.timeout.is_zero() {
            return Err(ProbeError::InvalidConfig("timeout"));
        }
        if self.samples == 0 {
            return Err(ProbeError::InvalidConfig("samples"));
        }
        if self.max_candidates == 0 {
            return Err(ProbeError::InvalidConfig("max_candidates"));
        }
        if self.max_datagram_size < 64 || self.max_datagram_size > 65_507 {
            return Err(ProbeError::InvalidConfig("max_datagram_size"));
        }
        if self.mtu_sample_size < 64 || self.mtu_sample_size > self.max_datagram_size {
            return Err(ProbeError::InvalidConfig("mtu_sample_size"));
        }
        Ok(())
    }

    /// How many times each candidate is asked.
    pub open spec fn spec_rounds(self) -> int {
        let tries = if self.retries == usize::MAX {
            usize::MAX as int
        } else {
            self.retries + 1
        };
        if self.samples as int >= tries {
            self.samples as int
        } else {
            tries
        }
    }

    /// How many times each candidate is asked.
    pub fn rounds(&self) -> (rounds: usize)
        ensures
            rounds == self.spec_rounds(),
    {
        let tries: usize = self.retries.saturating_add(1);
        if self.samples >= tries {
            self.samples
        } else {
            tries
        }
    }

    /// The bytes that a path which answers is taken to carry.
    pub open spec fn spec_mtu(self) -> u16 {
        if self.mtu_sample_size <= u16::MAX {
            self.mtu_sample_size as u16
        } else {
            u16::MAX
        }
    }

    /// The bytes that a path which answers is taken to carry.
    pub fn mtu(&self) -> (mtu: u16)
        ensures
            mtu == self.spec_mtu(),
    {
        if self.mtu_sample_size <= u16::MAX as usize {
            self.mtu_sample_size as u16
        } else {
            u16::MAX
        }
    }
}

/// A candidate that may be checked, and its address.
#[derive(Debug, Clone, Copy, PartialEq, Eq, Structural)]
pub struct AuthorizedCandidate {
    pub id: CandidateId,
    pub address: SocketAddr,
}

/// Who may check what, and until when.
#[derive(Debug, Clone)]
pub struct CheckAuthorization {
    transfer_id: TransferId,
    check_token: CheckToken,
    expires_at_millis: u64,
    candidates: Vec<AuthorizedCandidate>,
}

/// Whether nobody can be at an address.
pub open spec fn is_nowhere(address: SocketAddr) -> bool {
    address.spec_ip().spec_is_unspecified() || address.spec_port() == 0
}

/// The candidates with addresses among the first `count`.
pub open spec fn with_addresses(candidates: Seq<Candidate>, count: int) -> Seq<AuthorizedCandidate>
    decreases count,
{
    if count <= 0 {
        Seq::empty()
    } else {
        let before = with_addresses(candidates, count - 1);
        match candidates[count - 1].address {
            Some(address) => before.push(
                AuthorizedCandidate { id: candidates[count - 1].id, address },
            ),
            None => before,
        }
    }
}

/// Whether a candidate has an address at which nobody can be.
pub open spec fn is_misplaced(candidate: Candidate) -> bool {
    candidate.address is Some && is_nowhere(candidate.address->0)
}

/// `at` is the first misplaced candidate.
pub open spec fn first_misplaced(candidates: Seq<Candidate>, at: int) -> bool {
    &&& 0 <= at < candidates.len()
    &&& is_misplaced(candidates[at])
    &&& forall|i: int| 0 <= i < at ==> !is_misplaced(#[trigger] candidates[i])
}

impl CheckAuthorization {
    /// The transfer that is checked.
    pub closed spec fn spec_transfer_id(self) -> TransferId {
        self.transfer_id
    }

    /// The token of a check.
    pub closed spec fn spec_check_token(self) -> CheckToken {
        self.check_token
    }

    /// When checks are no longer allowed.
    pub closed spec fn spec_expires_at_millis(self) -> u64 {
        self.expires_at_millis
    }

    /// The candidates that may be checked.
    pub closed spec fn spec_candidates(self) -> Seq<AuthorizedCandidate> {
        self.candidates@
    }

    /// Whether a candidate may be checked.
    pub open spec fn names(self, id: CandidateId) -> bool {
        exists|i: int|
            0 <= i < self.spec_candidates().len() && (#[trigger] self.spec_candidates()[i]).id == id
    }

    /// Allows checks of the candidates that have an address. Fails at the first
    /// with an address at which nobody can be, and if there are none.
    pub fn new(
        transfer_id: TransferId,
        check_token: CheckToken,
        expires_at_millis: u64,
        candidates: &[Candidate],
    ) -> (result: Result<Self, ProbeError>)
        ensures
            match result {
                Ok(authorization) => {
                    &&& forall|i: int|
                        0 <= i < candidates@.len() ==> !is_misplaced(#[trigger] candidates@[i])
                    &&& authorization.spec_candidates() == with_addresses(
                        candidates@,
                        candidates@.len() as int,
                    )
                    &&& authorization.spec_candidates().len() > 0
                    &&& authorization.spec_transfer_id() == transfer_id
                    &&& authorization.spec_check_token() == check_token
                    &&& authorization.spec_expires_at_millis() == expires_at_millis
                },
                Err(error) => {
                    ||| exists|at: int| #[trigger]
                        first_misplaced(candidates@, at) && error == ProbeError::InvalidCandidate(
                            candidates@[at].id,
                        )
                    ||| {
                        &&& error == ProbeError::NoCandidates
                        &&& forall|i: int|
                            0 <= i < candidates@.len() ==> (#[trigger] candidates@[i]).address
                                is None
                    }
                },
            },
    {
        let mut authorized: Vec<AuthorizedCandidate> = Vec::new();
        let mut index: usize = 0;
        while index < candidates.len()
            invariant
                index <= candidates@.len(),
                authorized@ == with_addresses(candidates@, index as int),
                forall|i: int| 0 <= i < index ==> !is_misplaced(#[trigger] candidates@[i]),
                authorized@.len() == 0 ==> forall|i: int|
                    0 <= i < index ==> (#[trigger] candidates@[i]).address is None,
                authorized@.len() > 0 ==> exists|i: int|
                    0 <= i < index && (#[trigger] candidates@[i]).address is Some,
            decreases candidates@.len() - index,
        {
            let candidate = candidates[index];
            match candidate.address {
                Some(address) => {
                    if address.ip().is_unspecified() || address.port() == 0 {
                        assert(first_misplaced(candidates@, index as int));
                        return Err(ProbeError::InvalidCandidate(candidate.id));
                    }
                    authorized.push(AuthorizedCandidate { id: candidate.id, address });
                    assert(candidates@[index as int].address is Some);
                },
                None => {},
            }
            index = index + 1;
        }
        if authorized.len() == 0 {
            return Err(ProbeError::NoCandidates);
        }
        Ok(
            CheckAuthorization {
                transfer_id,
                check_token,
                expires_at_millis,
                candidates: authorized,
            },
        )
    }

    /// The transfer that is checked.
    pub fn transfer_id(&self) -> (id: TransferId)
        ensures
            id == self.spec_transfer_id(),
    {
        self.transfer_id
    }

    /// The token of a check.
    pub fn check_token(&self) -> (token: CheckToken)
        ensures
            token == self.spec_check_token(),
    {
        self.check_token
    }

    /// When checks are no longer allowed.
    pub fn expires_at_millis(&self) -> (millis: u64)
        ensures
            millis == self.spec_expires_at_millis(),
    {
        self.expires_at_millis
    }

    /// Whether checks are no longer allowed.
    pub fn is_expired(&self, now_millis: u64) -> (expired: bool)
        ensures
            expired == (now_millis >= self.spec_expires_at_millis()),
    {
        now_millis >= self.expires_at_millis
    }

    /// Whether a check of a candidate from this address is allowed now.
    pub open spec fn spec_permits(
        self,
        candidate_id: CandidateId,
        source: SocketAddr,
        now_millis: u64,
    ) -> bool {
        &&& now_millis < self.spec_expires_at_millis()
        &&& self.names(candidate_id)
        &&& !is_nowhere(source)
        &&& !source.spec_ip().spec_is_multicast()
    }

    /// Whether a check of a candidate from this address is allowed now.
    pub fn permits(&self, candidate_id: CandidateId, source: SocketAddr, now_millis: u64) -> (yes:
        bool)
        ensures
            yes == self.spec_permits(candidate_id, source, now_millis),
    {
        !self.is_expired(now_millis) && self.has(candidate_id) && !source.ip().is_unspecified()
            && !source.ip().is_multicast() && source.port() != 0
    }

    /// Whether a candidate may be checked.
    fn has(&self, candidate_id: CandidateId) -> (yes: bool)
        ensures
            yes == self.names(candidate_id),
    {
        let mut index: usize = 0;
        while index < self.candidates.len()
            invariant
                index <= self.candidates@.len(),
                forall|i: int|
                    0 <= i < index ==> (#[trigger] self.spec_candidates()[i]).id != candidate_id,
            decreases self.candidates@.len() - index,
        {
            if self.candidates[index].id == candidate_id {
                assert(self.spec_candidates()[index as int].id == candidate_id);
                return true;
            }
            index = index + 1;
        }
        false
    }
}

/// What the checks of a candidate tell.
#[derive(Debug, Clone, Copy, PartialEq, Eq, Structural)]
pub struct CheckResult {
    pub candidate: Candidate,
    pub sent: u32,
    pub received: u32,
    pub rtt_millis: Option<u64>,
    pub mtu: u16,
    pub observed_address: Option<SocketAddr>,
}

impl CheckResult {
    /// Whether an answer came.
    pub fn succeeded(&self) -> (yes: bool)
        ensures
            yes == (self.received > 0),
    {
        self.received > 0
    }

    /// The share of the checks that got no answer, in percent; all of them if there
    /// were none.
    pub open spec fn spec_loss_percent(self) -> u8 {
        if self.sent == 0 {
            100
        } else if self.received >= self.sent {
            0
        } else {
            (((self.sent - self.received) * 100) / (self.sent as int)) as u8
        }
    }

    /// The share of the checks that got no answer, in percent.
    pub fn loss_percent(&self) -> (percent: u8)
        ensures
            percent == self.spec_loss_percent(),
            percent <= 100,
    {
        if self.sent == 0 {
            return 100;
        }
        let lost: u32 = self.sent.saturating_sub(self.received);
        let share: u64 = lost as u64 * 100 / self.sent as u64;
        assert(share <= 100) by (nonlinear_arith)
            requires
                share == (lost * 100) / (self.sent as int),
                0 <= lost <= self.sent,
                self.sent > 0,
        ;
        assert(lost == 0 ==> share == 0) by (nonlinear_arith)
            requires
                share == (lost * 100) / (self.sent as int),
                self.sent > 0,
        ;
        share as u8
    }
}

/// A message of a check.
#[derive(Debug, Clone, Copy, PartialEq, Eq, Structural)]
pub enum PathCheck {
    Request {
        transfer_id: TransferId,
        transaction_id: TransactionId,
        check_token: CheckToken,
        candidate_id: CandidateId,
        send_timestamp_millis: u64,
    },
    Response {
        transfer_id: TransferId,
        transaction_id: TransactionId,
        check_token: CheckToken,
        candidate_id: CandidateId,
        observed_address: SocketAddr,
        receive_timestamp_millis: u64,
    },
}

/// Whether a message asks for a check that is allowed.
pub open spec fn is_allowed(
    authorization: CheckAuthorization,
    message: Option<PathCheck>,
    source: SocketAddr,
    now_millis: u64,
) -> bool {
    &&& message is Some
    &&& message->0 is Request
    &&& message->0->Request_transfer_id == authorization.spec_transfer_id()
    &&& message->0->Request_check_token == authorization.spec_check_token()
    &&& authorization.spec_permits(message->0->Request_candidate_id, source, now_millis)
}

/// The answer to a request that came from an address.
pub open spec fn answer_to(
    request: PathCheck,
    source: SocketAddr,
    answered_millis: u64,
) -> PathCheck {
    PathCheck::Response {
        transfer_id: request->Request_transfer_id,
        transaction_id: request->Request_transaction_id,
        check_token: request->Request_check_token,
        candidate_id: request->Request_candidate_id,
        observed_address: source,
        receive_timestamp_millis: answered_millis,
    }
}

/// What a request that came from an address tells of it.
pub open spec fn told_by(
    request: PathCheck,
    source: SocketAddr,
    config: ProbeConfig,
) -> CheckResult {
    CheckResult {
        candidate: Candidate {
            id: request->Request_candidate_id,
            kind: CandidateKind::PeerReflexive,
            address: Some(source),
            priority: 0,
            interface_index: None,
        },
        sent: 1,
        received: 1,
        rtt_millis: None,
        mtu: config.spec_mtu(),
        observed_address: Some(source),
    }
}

/// Answers a message that came from an address, if it asks for a check that is
/// allowed at `now_millis`. If it is not, the answer depends on whether checks are
/// still allowed at `later_millis`.
pub fn respond(
    config: &ProbeConfig,
    authorization: &CheckAuthorization,
    message: Option<PathCheck>,
    source: SocketAddr,
    now_millis: u64,
    later_millis: u64,
) -> (result: Result<(PathCheck, CheckResult), ProbeError>)
    ensures
        match result {
            Ok((response, told)) => {
                &&& is_allowed(*authorization, message, source, now_millis)
                &&& response == answer_to(message->0, source, later_millis)
                &&& told == told_by(message->0, source, *config)
            },
            Err(error) => {
                &&& !is_allowed(*authorization, message, source, now_millis)
                &&& error == if message is Some && message->0 is Request && later_millis
                    >= authorization.spec_expires_at_millis() {
                    ProbeError::AuthorizationExpired
                } else {
                    ProbeError::UnauthorizedCheck
                }
            },
        },
{
    match message {
        Some(
            PathCheck::Request { transfer_id, transaction_id, check_token, candidate_id, .. },
        ) => {
            if !(transfer_id == authorization.transfer_id) || !(check_token
                == authorization.check_token) || !authorization.permits(
                candidate_id,
                source,
                now_millis,
            ) {
                if authorization.is_expired(later_millis) {
                    return Err(ProbeError::AuthorizationExpired);
                }
                return Err(ProbeError::UnauthorizedCheck);
            }
            let response = PathCheck::Response {
                transfer_id,
                transaction_id,
                check_token,
                candidate_id,
                observed_address: source,
                receive_timestamp_millis: later_millis,
            };
            let candidate = Candidate {
                id: candidate_id,
                kind: CandidateKind::PeerReflexive,
                address: Some(source),
                priority: 0,
                interface_index: None,
            };
            let told = CheckResult {
                candidate,
                sent: 1,
                received: 1,
                rtt_millis: None,
                mtu: config.mtu(),
                observed_address: Some(source),
            };
            Ok((response, told))
        },
        _ => Err(ProbeError::UnauthorizedCheck),
    }
}

} // verus!
