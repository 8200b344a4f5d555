//! The course of the checks of several candidates.

use std::collections::HashMap;

use vstd::prelude::*;

use crate::duration::{Duration, MAX_NANOS, NANOS_PER_MILLI};
use crate::ids::{CheckToken, Id, TransactionId, TransferId};
use crate::net::SocketAddr;
use crate::network_probe::candidate::Candidate;
use crate::network_probe::check::{CheckResult, PathCheck, ProbeConfig};
use crate::network_probe::error::ProbeError;
use crate::random::random_bytes;

verus! {

broadcast use vstd::std_specs::hash::group_hash_axioms;

/// A candidate that has an address, by its place among all.
#[derive(Debug, Clone, Copy, PartialEq, Eq, Structural)]
pub struct Usable {
    pub index: usize,
    pub address: SocketAddr,
}

/// A request that has no answer yet: whom it went to, and when.
#[derive(Debug, Clone, Copy, PartialEq, Eq, Structural)]
pub struct PendingProbe {
    pub index: usize,
    pub started: Duration,
}

/// What to do next.
#[derive(Debug, Clone, Copy, PartialEq, Eq, Structural)]
pub enum ProbeAction {
    /// Send this request, and say when it is sent.
    Send { address: SocketAddr, request: PathCheck },
    /// Wait until then for a datagram.
    Wait { deadline: Duration },
    /// Take the results.
    Done,
}

/// The course of the checks: each round every candidate with an address is sent a
/// request, and then answers are awaited.
pub struct ProbeRun {
    config: ProbeConfig,
    transfer_id: TransferId,
    check_token: CheckToken,
    results: Vec<CheckResult>,
    usable: Vec<Usable>,
    round: usize,
    position: usize,
    sending: Option<TransactionId>,
    deadline: Duration,
    pending: HashMap<u128, PendingProbe>,
}

/// What is known of the course of the checks.
#[verifier::ext_equal]
pub struct ProbeRunView {
    pub config: ProbeConfig,
    pub transfer_id: TransferId,
    pub check_token: CheckToken,
    pub results: Seq<CheckResult>,
    pub usable: Seq<Usable>,
    /// How many rounds are over.
    pub round: int,
    /// How many requests of this round are sent.
    pub position: int,
    /// The request that is about to be sent.
    pub sending: Option<TransactionId>,
    /// Until when this round waits for answers.
    pub deadline: Duration,
    /// The requests of this round that have no answer yet.
    pub pending: Map<u128, PendingProbe>,
}

/// The candidates with addresses among the first `count`.
pub open spec fn usable_of(candidates: Seq<Candidate>, count: int) -> Seq<Usable>
    decreases count,
{
    if count <= 0 {
        Seq::empty()
    } else {
        let before = usable_of(candidates, count - 1);
        match candidates[count - 1].address {
            Some(address) => before.push(Usable { index: (count - 1) as usize, address }),
            None => before,
        }
    }
}

/// What is known of a candidate before any check.
pub open spec fn unchecked(candidate: Candidate) -> CheckResult {
    CheckResult {
        candidate,
        sent: 0,
        received: 0,
        rtt_millis: None,
        mtu: 0,
        observed_address: None,
    }
}

/// Why the checks of these candidates cannot start.
pub open spec fn probe_problem(config: ProbeConfig, candidates: Seq<Candidate>) -> Option<
    ProbeError,
> {
    if config.problem() is Some {
        Some(ProbeError::InvalidConfig(config.problem()->0))
    } else if candidates.len() == 0 {
        Some(ProbeError::NoCandidates)
    } else if candidates.len() > config.max_candidates {
        Some(ProbeError::InvalidConfig("candidate count"))
    } else if usable_of(candidates, candidates.len() as int).len() == 0 {
        Some(ProbeError::NoCandidates)
    } else {
        None
    }
}

/// The smaller of two numbers, one of which may be missing.
pub open spec fn shortest(known: Option<u64>, new: u64) -> u64 {
    match known {
        Some(known) => if known < new {
            known
        } else {
            new
        },
        None => new,
    }
}

/// The milliseconds from one time to another, none if it is earlier.
pub open spec fn millis_between(from: Duration, to: Duration) -> int {
    if to@ >= from@ {
        (to@ - from@) / (NANOS_PER_MILLI as int)
    } else {
        0
    }
}

impl ProbeRunView {
    /// What holds at all times. In particular no candidate has given more answers
    /// than it was sent requests.
    pub open spec fn is_valid(self) -> bool {
        &&& self.config.problem() is None
        &&& self.usable.len() > 0
        &&& 0 <= self.round <= self.config.spec_rounds()
        &&& 0 <= self.position <= self.usable.len()
        &&& self.round == self.config.spec_rounds() ==> self.position == 0
        &&& self.position == 0 ==> self.pending == Map::<u128, PendingProbe>::empty()
        &&& self.position == self.usable.len() ==> !self.pending.is_empty()
        &&& self.sending is Some ==> self.position < self.usable.len() && self.round
            < self.config.spec_rounds()
        &&& forall|i: int|
            0 <= i < self.usable.len() ==> (#[trigger] self.usable[i]).index < self.results.len()
                && self.results[self.usable[i].index as int].candidate.address == Some(
                self.usable[i].address,
            )
        &&& forall|i: int, j: int|
            0 <= i < j < self.usable.len() ==> (#[trigger] self.usable[i]).index < (
            #[trigger] self.usable[j]).index
        &&& forall|i: int|
            0 <= i < self.results.len() ==> (#[trigger] self.results[i]).received
                <= self.results[i].sent
        &&& forall|id: u128| #[trigger]
            self.pending.dom().contains(id) ==> self.was_asked(self.pending[id].index)
                && (self.results[self.pending[id].index as int].sent == u32::MAX
                || self.results[self.pending[id].index as int].received
                < self.results[self.pending[id].index as int].sent)
        &&& forall|id: u128, other: u128| #[trigger]
            self.pending.dom().contains(id) && #[trigger] self.pending.dom().contains(other) && id
                != other ==> self.pending[id].index != self.pending[other].index
    }

    /// Whether a candidate was sent its request of this round.
    pub open spec fn was_asked(self, index: usize) -> bool {
        exists|k: int| 0 <= k < self.position && (#[trigger] self.usable[k]).index == index
    }

    /// The state after a round.
    pub open spec fn round_over(self) -> ProbeRunView {
        ProbeRunView {
            round: self.round + 1,
            position: 0,
            sending: None,
            pending: Map::empty(),
            ..self
        }
    }

    /// The state after the request was sent.
    pub open spec fn after_sent(self, now: Duration, deadline: Duration) -> ProbeRunView {
        let index = self.usable[self.position].index;
        let result = self.results[index as int];
        ProbeRunView {
            results: self.results.update(
                index as int,
                CheckResult {
                    sent: if result.sent < u32::MAX {
                        (result.sent + 1) as u32
                    } else {
                        u32::MAX
                    },
                    ..result
                },
            ),
            pending: self.pending.insert(
                self.sending->0.value,
                PendingProbe { index, started: now },
            ),
            sending: None,
            position: self.position + 1,
            deadline,
            ..self
        }
    }

    /// Whether a message answers a request of this round.
    pub open spec fn is_answered_by(self, message: Option<PathCheck>) -> bool {
        &&& message is Some
        &&& message->0 is Response
        &&& self.pending.dom().contains(message->0->Response_transaction_id.value)
        &&& message->0->Response_transfer_id == self.transfer_id
        &&& message->0->Response_check_token == self.check_token
        &&& message->0->Response_candidate_id == self.results[self.pending[message->0->Response_transaction_id.value].index as int].candidate.id
    }

    /// The state after an answer.
    pub open spec fn after_answer(self, message: PathCheck, now: Duration) -> ProbeRunView {
        let id = message->Response_transaction_id.value;
        let asked = self.pending[id];
        let result = self.results[asked.index as int];
        let noted = ProbeRunView {
            results: self.results.update(
                asked.index as int,
                CheckResult {
                    received: if result.received < u32::MAX {
                        (result.received + 1) as u32
                    } else {
                        u32::MAX
                    },
                    rtt_millis: Some(
                        shortest(result.rtt_millis, millis_between(asked.started, now) as u64),
                    ),
                    mtu: self.config.spec_mtu(),
                    observed_address: Some(message->Response_observed_address),
                    ..result
                },
            ),
            pending: self.pending.remove(id),
            ..self
        };
        if noted.pending.is_empty() && self.position == self.usable.len() {
            noted.round_over()
        } else {
            noted
        }
    }
}

impl View for ProbeRun {
    type V = ProbeRunView;

    closed spec fn view(&self) -> ProbeRunView {
        ProbeRunView {
            config: self.config,
            transfer_id: self.transfer_id,
            check_token: self.check_token,
            results: self.results@,
            usable: self.usable@,
            round: self.round as int,
            position: self.position as int,
            sending: self.sending,
            deadline: self.deadline,
            pending: self.pending@,
        }
    }
}

impl ProbeRun {
    /// What holds at all times.
    pub open spec fn is_valid(&self) -> bool {
        self@.is_valid()
    }

    /// Starts the checks of these candidates.
    pub fn start(
        config: ProbeConfig,
        transfer_id: TransferId,
        check_token: CheckToken,
        candidates: &[Candidate],
    ) -> (result: Result<Self, ProbeError>)
        ensures
            match result {
                Ok(run) => {
                    &&& probe_problem(config, candidates@) is None
                    &&& run.is_valid()
                    &&& run@.config == config
                    &&& run@.transfer_id == transfer_id
                    &&& run@.check_token == check_token
                    &&& run@.results == candidates@.map_values(|c: Candidate| unchecked(c))
                    &&& run@.usable == usable_of(candidates@, candidates@.len() as int)
                    &&& run@.round == 0
                    &&& run@.position == 0
                    &&& run@.sending is None
                },
                Err(error) => probe_problem(config, candidates@) == Some(error),
            },
    {
        match config.validate() {
            Ok(()) => {},
            Err(error) => {
                return Err(error);
            },
        }
        if candidates.len() == 0 {
            return Err(ProbeError::NoCandidates);
        }
        if candidates.len() > config.max_candidates {
            return Err(ProbeError::InvalidConfig("candidate count"));
        }
        let mut results: Vec<CheckResult> = Vec::new();
        let mut usable: Vec<Usable> = Vec::new();
        let mut index: usize = 0;
        while index < candidates.len()
            invariant
                index <= candidates@.len(),
                results@.len() == index,
                forall|i: int| 0 <= i < index ==> results@[i] == unchecked(#[trigger] candidates@[i]),
                usable@ == usable_of(candidates@, index as int),
                forall|i: int|
                    0 <= i < usable@.len() ==> (#[trigger] usable@[i]).index < index
                        && candidates@[usable@[i].index as int].address == Some(usable@[i].address),
                forall|i: int, j: int|
                    0 <= i < j < usable@.len() ==> (#[trigger] usable@[i]).index < (
                    #[trigger] usable@[j]).index,
            decreases candidates@.len() - index,
        {
            let candidate = candidates[index];
            results.push(
                CheckResult {
                    candidate,
                    sent: 0,
                    received: 0,
                    rtt_millis: None,
                    mtu: 0,
                    observed_address: None,
                },
            );
            match candidate.address {
                Some(address) => usable.push(Usable { index, address }),
                None => {},
            }
            index = index + 1;
        }
        if usable.len() == 0 {
            return Err(ProbeError::NoCandidates);
        }
        let run = ProbeRun {
            config,
            transfer_id,
            check_token,
            results,
            usable,
            round: 0,
            position: 0,
            sending: None,
            deadline: Duration::zero(),
            pending: HashMap::new(),
        };
        assert(run@.results =~= candidates@.map_values(|c: Candidate| unchecked(c)));
        Ok(run)
    }

    /// What to do next. A request is given a new random name.
    pub fn next(&mut self, now_millis: u64) -> (result: Result<ProbeAction, ProbeError>)
        requires
            old(self).is_valid(),
        ensures
            final(self).is_valid(),
            match result {
                Ok(ProbeAction::Done) => {
                    &&& old(self)@.round == old(self)@.config.spec_rounds()
                    &&& final(self)@ == old(self)@
                },
                Ok(ProbeAction::Send { address, request }) => {
                    &&& old(self)@.round < old(self)@.config.spec_rounds()
                    &&& old(self)@.position < old(self)@.usable.len()
                    &&& address == old(self)@.usable[old(self)@.position].address
                    &&& final(self)@.sending is Some
                    &&& request == (PathCheck::Request {
                        transfer_id: old(self)@.transfer_id,
                        transaction_id: final(self)@.sending->0,
                        check_token: old(self)@.check_token,
                        candidate_id: old(self)@.results[old(self)@.usable[old(self)@.position].index as int].candidate.id,
                        send_timestamp_millis: now_millis,
                    })
                    &&& final(self)@ == (ProbeRunView {
                        sending: final(self)@.sending,
                        ..old(self)@
                    })
                },
                Ok(ProbeAction::Wait { deadline }) => {
                    &&& old(self)@.round < old(self)@.config.spec_rounds()
                    &&& old(self)@.position == old(self)@.usable.len()
                    &&& deadline == old(self)@.deadline
                    &&& final(self)@ == old(self)@
                },
                Err(error) => {
                    &&& old(self)@.round < old(self)@.config.spec_rounds()
                    &&& old(self)@.position < old(self)@.usable.len()
                    &&& error == ProbeError::RandomnessUnavailable
                    &&& final(self)@ == old(self)@
                },
            },
    {
        if self.round == self.config.rounds() {
            return Ok(ProbeAction::Done);
        }
        if self.position == self.usable.len() {
            return Ok(ProbeAction::Wait { deadline: self.deadline });
        }
        let transaction_id = match random_bytes::<16>() {
            Ok(bytes) => Id::from_bytes(bytes),
            Err(_) => {
                return Err(ProbeError::RandomnessUnavailable);
            },
        };
        let target = self.usable[self.position];
        let request = PathCheck::Request {
            transfer_id: self.transfer_id,
            transaction_id,
            check_token: self.check_token,
            candidate_id: self.results[target.index].candidate.id,
            send_timestamp_millis: now_millis,
        };
        self.sending = Some(transaction_id);
        Ok(ProbeAction::Send { address: target.address, request })
    }

    /// Whether a datagram is small enough to be sent.
    pub fn check_datagram(&self, len: usize) -> (result: Result<(), ProbeError>)
        ensures
            match result {
                Ok(()) => len <= self@.config.max_datagram_size,
                Err(error) => len > self@.config.max_datagram_size && error
                    == ProbeError::InvalidConfig("encoded probe datagram"),
            },
    {
        if len > self.config.max_datagram_size {
            return Err(ProbeError::InvalidConfig("encoded probe datagram"));
        }
        Ok(())
    }

    /// The request was sent.
    pub fn sent(&mut self, now: Duration)
        requires
            old(self).is_valid(),
            old(self)@.sending is Some,
            now@ + old(self)@.config.timeout@ <= MAX_NANOS,
        ensures
            final(self).is_valid(),
            final(self)@.deadline@ == now@ + old(self)@.config.timeout@,
            final(self)@ == old(self)@.after_sent(now, final(self)@.deadline),
    {
        let ghost before = self@;
        let id: TransactionId = match self.sending {
            Some(id) => id,
            None => {
                return ;
            },
        };
        let total: usize = self.usable.len();
        assert(self.position < total);
        let target = self.usable[self.position];
        let result = self.results[target.index];
        let sent: u32 = result.sent.saturating_add(1);
        self.results.set(target.index, CheckResult { sent, ..result });
        self.pending.insert(id.value, PendingProbe { index: target.index, started: now });
        self.sending = None;
        self.position = self.position + 1;
        self.deadline = match now.checked_add(self.config.timeout) {
            Some(deadline) => deadline,
            None => self.deadline,
        };
        proof {
            lemma_sent(before, now, self.deadline);
            assert(self@ =~= before.after_sent(now, self.deadline));
        }
    }

    /// A datagram came, with this message of a check if with one. Says whether it
    /// answers a request.
    pub fn received(&mut self, message: Option<PathCheck>, now: Duration) -> (answer: bool)
        requires
            old(self).is_valid(),
        ensures
            final(self).is_valid(),
            answer == old(self)@.is_answered_by(message),
            final(self)@ == if answer {
                old(self)@.after_answer(message->0, now)
            } else {
                old(self)@
            },
    {
        let ghost before = self@;
        match message {
            Some(
                PathCheck::Response {
                    transfer_id,
                    transaction_id,
                    check_token,
                    candidate_id,
                    observed_address,
                    ..
                },
            ) => {
                let asked: PendingProbe = match self.pending.get(&transaction_id.value) {
                    Some(asked) => *asked,
                    None => {
                        return false;
                    },
                };
                assert(before.was_asked(asked.index));
                let result = self.results[asked.index];
                if !(transfer_id == self.transfer_id) || !(check_token == self.check_token) || !(
                candidate_id == result.candidate.id) {
                    return false;
                }
                self.pending.remove(&transaction_id.value);
                let millis: u64 = truncated(now.saturating_sub(asked.started).as_millis());
                let rtt: u64 = match result.rtt_millis {
                    Some(known) => if known < millis {
                        known
                    } else {
                        millis
                    },
                    None => millis,
                };
                self.results.set(
                    asked.index,
                    CheckResult {
                        received: result.received.saturating_add(1),
                        rtt_millis: Some(rtt),
                        mtu: self.config.mtu(),
                        observed_address: Some(observed_address),
                        ..result
                    },
                );
                if self.pending.is_empty() && self.position == self.usable.len() {
                    self.end_round();
                }
                proof {
                    lemma_answered(before, message->0, now);
                    assert(self@ =~= before.after_answer(message->0, now));
                }
                true
            },
            _ => false,
        }
    }

    /// No datagram came until the deadline, or none can come: the round is over.
    pub fn gave_up(&mut self)
        requires
            old(self).is_valid(),
            old(self)@.position == old(self)@.usable.len(),
        ensures
            final(self).is_valid(),
            final(self)@ == old(self)@.round_over(),
    {
        self.end_round();
    }

    /// Ends the round.
    fn end_round(&mut self)
        requires
            old(self)@.round < usize::MAX,
        ensures
            final(self)@ == old(self)@.round_over(),
    {
        self.round = self.round + 1;
        self.position = 0;
        self.sending = None;
        self.pending.clear();
        assert(self@.pending =~= Map::<u128, PendingProbe>::empty());
    }

    /// What the checks have told.
    pub fn results(self) -> (results: Vec<CheckResult>)
        ensures
            results@ == self@.results,
    {
        self.results
    }
}

/// The low half of a number.
fn truncated(number: u128) -> (half: u64)
    ensures
        half == number as u64,
{
    #[verifier::truncate]
    (number as u64)
}

/// Sending keeps what holds at all times.
proof fn lemma_sent(before: ProbeRunView, now: Duration, deadline: Duration)
    requires
        before.is_valid(),
        before.sending is Some,
    ensures
        before.after_sent(now, deadline).is_valid(),
{
    let after = before.after_sent(now, deadline);
    let index = before.usable[before.position].index;
    assert(after.pending.dom().contains(before.sending->0.value));
    assert(after.usable[before.position].index == index);
    assert(after.was_asked(index));
    assert forall|id: u128| #[trigger] after.pending.dom().contains(id) implies after.was_asked(
        after.pending[id].index,
    ) by {
        if id != before.sending->0.value {
            assert(before.was_asked(before.pending[id].index));
            let k = choose|k: int|
                0 <= k < before.position && (#[trigger] before.usable[k]).index
                    == before.pending[id].index;
            assert(after.usable[k].index == after.pending[id].index);
        }
    }
    assert forall|id: u128| #[trigger] before.pending.dom().contains(id) implies before.pending[id].index
        != index by {
        let k = choose|k: int|
            0 <= k < before.position && (#[trigger] before.usable[k]).index
                == before.pending[id].index;
        assert(before.was_asked(before.pending[id].index));
        assert(before.usable[k].index < before.usable[before.position].index);
    }
}

/// An answer keeps what holds at all times.
proof fn lemma_answered(before: ProbeRunView, message: PathCheck, now: Duration)
    requires
        before.is_valid(),
        before.is_answered_by(Some(message)),
    ensures
        before.after_answer(message, now).is_valid(),
{
}

} // verus!
