//! Which of the checked paths to take.

use vstd::prelude::*;

use crate::ids::{CandidateId, Id, PathId, RelayId};
use crate::net::SocketAddr;
use crate::network_probe::candidate::{path_priority, spec_path_priority, CandidateKind, PathKind};
use crate::network_probe::check::CheckResult;
use crate::network_probe::error::SelectionError;
use crate::random::random_bytes;

verus! {

/// What makes a path better or worse.
#[derive(Debug, Clone, Copy, PartialEq, Eq, Structural)]
pub struct PathSelectionConfig {
    pub address_family_bonus: i64,
    pub rtt_penalty_per_millis: i64,
    pub loss_penalty_per_percent: i64,
    pub mtu_penalty_per_100_bytes: i64,
    pub minimum_mtu: u16,
}

impl Default for PathSelectionConfig {
    fn default() -> (config: Self)
        ensures
            config == (PathSelectionConfig {
                address_family_bonus: 4,
                rtt_penalty_per_millis: 1,
                loss_penalty_per_percent: 8,
                mtu_penalty_per_100_bytes: 2,
                minimum_mtu: 576,
            }),
    {
        PathSelectionConfig {
            address_family_bonus: 4,
            rtt_penalty_per_millis: 1,
            loss_penalty_per_percent: 8,
            mtu_penalty_per_100_bytes: 2,
            minimum_mtu: 576,
        }
    }
}

/// A path that was chosen.
#[derive(Debug, Clone, Copy, PartialEq, Eq, Structural)]
pub struct SelectedPath {
    pub path_id: PathId,
    pub candidate_id: CandidateId,
    pub address: SocketAddr,
    pub kind: PathKind,
    pub rtt_millis: u64,
    pub loss_percent: u8,
    pub mtu: u16,
    pub score: i64,
}

/// A path over a relay.
#[derive(Debug, Clone, PartialEq, Eq)]
pub struct RelayPath {
    pub relay_id: RelayId,
    pub relay_ticket: Vec<u8>,
}

/// Which way to go.
#[derive(Debug, Clone, PartialEq, Eq)]
pub enum PathDecision {
    Direct(SelectedPath),
    Relay(RelayPath),
}

/// What a path to a candidate goes over.
pub open spec fn spec_path_kind(kind: CandidateKind) -> PathKind {
    match kind {
        CandidateKind::Host => PathKind::Host,
        CandidateKind::RoutedLan => PathKind::RoutedLan,
        CandidateKind::ServerReflexive => PathKind::ReflexiveDirect,
        CandidateKind::PeerReflexive => PathKind::ReflexiveDirect,
        CandidateKind::Relay => PathKind::Relay,
    }
}

/// What a path to a candidate goes over.
pub fn path_kind(kind: CandidateKind) -> (path: PathKind)
    ensures
        path == spec_path_kind(kind),
{
    match kind {
        CandidateKind::Host => PathKind::Host,
        CandidateKind::RoutedLan => PathKind::RoutedLan,
        CandidateKind::ServerReflexive => PathKind::ReflexiveDirect,
        CandidateKind::PeerReflexive => PathKind::ReflexiveDirect,
        CandidateKind::Relay => PathKind::Relay,
    }
}

/// Whether a direct path to the candidate can be taken.
pub open spec fn is_eligible(result: CheckResult, config: PathSelectionConfig) -> bool {
    &&& result.received > 0
    &&& result.mtu >= config.minimum_mtu
    &&& result.candidate.address is Some
    &&& result.rtt_millis is Some
    &&& spec_path_kind(result.candidate.kind) != PathKind::Relay
}

/// What is in favour of a path.
pub open spec fn merit(result: CheckResult, config: PathSelectionConfig) -> int {
    result.candidate.priority + spec_path_priority(spec_path_kind(result.candidate.kind)) + if
        result.candidate.address is Some && result.candidate.address->0 is V6 {
        config.address_family_bonus as int
    } else {
        0
    }
}

/// What is against a path because of the time that an answer takes.
pub open spec fn delay_penalty(result: CheckResult, config: PathSelectionConfig) -> int {
    (if result.rtt_millis->0 <= i64::MAX {
        result.rtt_millis->0 as int
    } else {
        i64::MAX as int
    }) * config.rtt_penalty_per_millis
}

/// What is against a path because of what it loses.
pub open spec fn loss_penalty(result: CheckResult, config: PathSelectionConfig) -> int {
    result.spec_loss_percent() * config.loss_penalty_per_percent
}

/// What is against a path because of how little fits in a packet.
pub open spec fn size_penalty(result: CheckResult, config: PathSelectionConfig) -> int {
    (if result.mtu < 1200 {
        (1200 - result.mtu) / 100
    } else {
        0
    }) * config.mtu_penalty_per_100_bytes
}

/// How good a path is.
pub open spec fn spec_score(result: CheckResult, config: PathSelectionConfig) -> int {
    merit(result, config) - delay_penalty(result, config) - loss_penalty(result, config)
        - size_penalty(result, config)
}

/// Whether a number can be held.
pub open spec fn is_held(number: int) -> bool {
    i64::MIN <= number <= i64::MAX
}

/// Whether the score of a path can be computed: each number on the way can be
/// held.
pub open spec fn is_scored(result: CheckResult, config: PathSelectionConfig) -> bool {
    &&& is_held(merit(result, config))
    &&& is_held(delay_penalty(result, config))
    &&& is_held(merit(result, config) - delay_penalty(result, config))
    &&& is_held(loss_penalty(result, config))
    &&& is_held(
        merit(result, config) - delay_penalty(result, config) - loss_penalty(result, config),
    )
    &&& is_held(size_penalty(result, config))
    &&& is_held(spec_score(result, config))
}

/// Whether the score of each path that can be taken can be computed.
pub open spec fn all_scored(results: Seq<CheckResult>, config: PathSelectionConfig) -> bool {
    forall|i: int|
        0 <= i < results.len() && is_eligible(#[trigger] results[i], config) ==> is_scored(
            results[i],
            config,
        )
}

/// Whether a path is better than another one.
pub open spec fn is_better(
    result: CheckResult,
    other: CheckResult,
    config: PathSelectionConfig,
) -> bool {
    spec_score(result, config) > spec_score(other, config) || (spec_score(result, config)
        == spec_score(other, config) && result.candidate.id.value < other.candidate.id.value)
}

/// `best` is the best path that can be taken, and the first of those.
pub open spec fn is_best(
    results: Seq<CheckResult>,
    config: PathSelectionConfig,
    best: int,
) -> bool {
    &&& 0 <= best < results.len()
    &&& is_eligible(results[best], config)
    &&& forall|i: int|
        0 <= i < results.len() && is_eligible(#[trigger] results[i], config) ==> !is_better(
            results[i],
            results[best],
            config,
        ) && (i < best ==> is_better(results[best], results[i], config))
}

/// Whether no path can be taken.
pub open spec fn none_eligible(results: Seq<CheckResult>, config: PathSelectionConfig) -> bool {
    forall|i: int| 0 <= i < results.len() ==> !is_eligible(#[trigger] results[i], config)
}

/// The path to a candidate under this name.
pub open spec fn path_to(
    result: CheckResult,
    config: PathSelectionConfig,
    path_id: PathId,
) -> SelectedPath {
    SelectedPath {
        path_id,
        candidate_id: result.candidate.id,
        address: result.candidate.address->0,
        kind: spec_path_kind(result.candidate.kind),
        rtt_millis: result.rtt_millis->0,
        loss_percent: result.spec_loss_percent(),
        mtu: result.mtu,
        score: spec_score(result, config) as i64,
    }
}

/// Whether a number can be held.
fn held(number: i128) -> (yes: bool)
    ensures
        yes == is_held(number as int),
{
    i64::MIN as i128 <= number && number <= i64::MAX as i128
}

/// The numbers that make up a score.
struct Parts {
    merit: i128,
    delay: i128,
    loss: i128,
    size: i128,
}

/// The numbers that make up a score.
fn parts(result: &CheckResult, rtt: u64, config: PathSelectionConfig) -> (parts: Parts)
    requires
        result.rtt_millis == Some(rtt),
    ensures
        parts.merit == merit(*result, config),
        parts.delay == delay_penalty(*result, config),
        parts.loss == loss_penalty(*result, config),
        parts.size == size_penalty(*result, config),
        -0x1_0000_0000_0000_0000 <= parts.merit <= 0x1_0000_0000_0000_0000,
        -0x4000_0000_0000_0000_0000_0000_0000_0000 <= parts.delay
            <= 0x4000_0000_0000_0000_0000_0000_0000_0000,
        -0x1_0000_0000_0000_0000_0000 <= parts.loss <= 0x1_0000_0000_0000_0000_0000,
        -0x1_0000_0000_0000_0000_0000 <= parts.size <= 0x1_0000_0000_0000_0000_0000,
{
    let kind = path_kind(result.candidate.kind);
    let bonus: i64 = match result.candidate.address {
        Some(SocketAddr::V6 { .. }) => config.address_family_bonus,
        _ => 0,
    };
    let merit: i128 = result.candidate.priority as i128 + path_priority(kind) as i128
        + bonus as i128;
    let time: i64 = if rtt <= i64::MAX as u64 {
        rtt as i64
    } else {
        i64::MAX
    };
    let delay_unit: i64 = config.rtt_penalty_per_millis;
    let loss_share: u8 = result.loss_percent();
    let loss_unit: i64 = config.loss_penalty_per_percent;
    let short: u16 = 1200u16.saturating_sub(result.mtu) / 100;
    let size_unit: i64 = config.mtu_penalty_per_100_bytes;
    assert(-0x4000_0000_0000_0000_0000_0000_0000_0000 <= time * delay_unit
        <= 0x4000_0000_0000_0000_0000_0000_0000_0000) by (nonlinear_arith)
        requires
            0 <= time <= 0x7fff_ffff_ffff_ffff,
            -0x8000_0000_0000_0000 <= delay_unit <= 0x7fff_ffff_ffff_ffff,
    ;
    assert(-0x1_0000_0000_0000_0000_0000 <= loss_share * loss_unit
        <= 0x1_0000_0000_0000_0000_0000) by (nonlinear_arith)
        requires
            0 <= loss_share <= 255,
            -0x8000_0000_0000_0000 <= loss_unit <= 0x7fff_ffff_ffff_ffff,
    ;
    assert(-0x1_0000_0000_0000_0000_0000 <= short * size_unit <= 0x1_0000_0000_0000_0000_0000)
        by (nonlinear_arith)
        requires
            0 <= short <= 12,
            -0x8000_0000_0000_0000 <= size_unit <= 0x7fff_ffff_ffff_ffff,
    ;
    Parts {
        merit,
        delay: time as i128 * delay_unit as i128,
        loss: loss_share as i128 * loss_unit as i128,
        size: short as i128 * size_unit as i128,
    }
}

/// How good a path is that can be taken, if that can be computed.
pub fn score(result: &CheckResult, config: PathSelectionConfig) -> (score: Option<i64>)
    requires
        is_eligible(*result, config),
    ensures
        match score {
            Some(score) => is_scored(*result, config) && score == spec_score(*result, config),
            None => !is_scored(*result, config),
        },
{
    let rtt: u64 = match result.rtt_millis {
        Some(rtt) => rtt,
        None => 0,
    };
    let parts = parts(result, rtt, config);
    if !held(parts.merit) || !held(parts.delay) || !held(parts.loss) || !held(parts.size) {
        return None;
    }
    let after_delay: i128 = parts.merit - parts.delay;
    if !held(after_delay) {
        return None;
    }
    let after_loss: i128 = after_delay - parts.loss;
    if !held(after_loss) {
        return None;
    }
    let score: i128 = after_loss - parts.size;
    if !held(score) {
        return None;
    }
    Some(score as i64)
}

/// Whether a direct path to the candidate can be taken.
pub fn eligible(result: &CheckResult, config: PathSelectionConfig) -> (yes: bool)
    ensures
        yes == is_eligible(*result, config),
{
    result.succeeded() && result.mtu >= config.minimum_mtu && result.candidate.address.is_some()
        && result.rtt_millis.is_some() && !(path_kind(result.candidate.kind) == PathKind::Relay)
}

/// Whether the score of each path that can be taken can be computed.
pub fn can_score(results: &[CheckResult], config: PathSelectionConfig) -> (yes: bool)
    ensures
        yes == all_scored(results@, config),
{
    let mut index: usize = 0;
    while index < results.len()
        invariant
            index <= results@.len(),
            forall|i: int|
                0 <= i < index && is_eligible(#[trigger] results@[i], config) ==> is_scored(
                    results@[i],
                    config,
                ),
        decreases results@.len() - index,
    {
        if eligible(&results[index], config) && score(&results[index], config).is_none() {
            assert(is_eligible(results@[index as int], config));
            return false;
        }
        index = index + 1;
    }
    true
}

/// The best path that can be taken.
pub fn best_result(results: &[CheckResult], config: PathSelectionConfig) -> (best: Option<usize>)
    requires
        all_scored(results@, config),
    ensures
        match best {
            Some(best) => is_best(results@, config, best as int),
            None => none_eligible(results@, config),
        },
{
    let mut best: Option<usize> = None;
    let mut top: i64 = 0;
    let mut index: usize = 0;
    while index < results.len()
        invariant
            index <= results@.len(),
            all_scored(results@, config),
            match best {
                Some(best) => {
                    &&& best < index
                    &&& is_best(results@.subrange(0, index as int), config, best as int)
                    &&& top == spec_score(results@[best as int], config)
                },
                None => none_eligible(results@.subrange(0, index as int), config),
            },
        decreases results@.len() - index,
    {
        let ghost before = results@.subrange(0, index as int);
        let ghost after = results@.subrange(0, index + 1);
        assert forall|i: int| 0 <= i < index implies #[trigger] after[i] == before[i] by {}
        assert(after[index as int] == results@[index as int]);
        if eligible(&results[index], config) {
            match score(&results[index], config) {
                Some(score) => match best {
                    Some(known) => {
                        if score > top || (score == top && results[index].candidate.id.value
                            < results[known].candidate.id.value) {
                            best = Some(index);
                            top = score;
                        }
                        assert(before[known as int] == results@[known as int]);
                        assert(is_best(after, config, best->0 as int));
                    },
                    None => {
                        best = Some(index);
                        top = score;
                        assert(is_best(after, config, index as int));
                    },
                },
                None => {},
            }
        }
        index = index + 1;
    }
    assert(results@.subrange(0, index as int) =~= results@);
    best
}

/// The path to a candidate under this name.
pub fn selected_path(
    result: &CheckResult,
    config: PathSelectionConfig,
    path_id: PathId,
) -> (path: SelectedPath)
    requires
        is_eligible(*result, config),
        is_scored(*result, config),
    ensures
        path == path_to(*result, config, path_id),
{
    let address = result.candidate.address.unwrap();
    let rtt_millis: u64 = result.rtt_millis.unwrap();
    let score: i64 = score(result, config).unwrap();
    SelectedPath {
        path_id,
        candidate_id: result.candidate.id,
        address,
        kind: path_kind(result.candidate.kind),
        rtt_millis,
        loss_percent: result.loss_percent(),
        mtu: result.mtu,
        score,
    }
}

/// The best direct path, under a new random name.
pub fn select_best(results: &[CheckResult], config: PathSelectionConfig) -> (selected: Result<
    SelectedPath,
    SelectionError,
>)
    requires
        all_scored(results@, config),
    ensures
        is_selection(results@, config, selected),
{
    match best_result(results, config) {
        None => Err(SelectionError::NoSuccessfulDirectPath),
        Some(best) => match random_bytes::<16>() {
            Ok(bytes) => {
                let path = selected_path(&results[best], config, Id::from_bytes(bytes));
                assert(is_best(results@, config, best as int));
                Ok(path)
            },
            Err(_) => {
                assert(is_best(results@, config, best as int));
                Err(SelectionError::RandomnessUnavailable)
            },
        },
    }
}

/// What may be selected: the best path under some name, or nothing because there
/// is none or because there is no name for it.
pub open spec fn is_selection(
    results: Seq<CheckResult>,
    config: PathSelectionConfig,
    selected: Result<SelectedPath, SelectionError>,
) -> bool {
    match selected {
        Ok(path) => exists|best: int| #[trigger]
            is_best(results, config, best) && path == path_to(results[best], config, path.path_id),
        Err(SelectionError::NoSuccessfulDirectPath) => none_eligible(results, config),
        Err(SelectionError::RandomnessUnavailable) => exists|best: int| #[trigger]
            is_best(results, config, best),
    }
}

/// Which way to go when this was selected: the selected path, else the relay,
/// unless only direct paths will do.
pub fn decide(
    selected: Result<SelectedPath, SelectionError>,
    relay: Option<RelayPath>,
    direct_only: bool,
) -> (decision: Result<PathDecision, SelectionError>)
    ensures
        decision == decided(selected, relay, direct_only),
{
    match selected {
        Ok(path) => Ok(PathDecision::Direct(path)),
        Err(error) => {
            if direct_only {
                return Err(error);
            }
            match relay {
                Some(relay) => Ok(PathDecision::Relay(relay)),
                None => Err(error),
            }
        },
    }
}

/// Which way to go when this was selected.
pub open spec fn decided(
    selected: Result<SelectedPath, SelectionError>,
    relay: Option<RelayPath>,
    direct_only: bool,
) -> Result<PathDecision, SelectionError> {
    match selected {
        Ok(path) => Ok(PathDecision::Direct(path)),
        Err(error) => match relay {
            Some(relay) => if direct_only {
                Err(error)
            } else {
                Ok(PathDecision::Relay(relay))
            },
            None => Err(error),
        },
    }
}

/// The best direct path, else the relay, unless only direct paths will do.
pub fn choose_path(
    results: &[CheckResult],
    config: PathSelectionConfig,
    relay: Option<RelayPath>,
    direct_only: bool,
) -> (decision: Result<PathDecision, SelectionError>)
    requires
        all_scored(results@, config),
    ensures
        exists|selected: Result<SelectedPath, SelectionError>| #[trigger]
            is_selection(results@, config, selected) && decision == decided(
                selected,
                relay,
                direct_only,
            ),
{
    let selected = select_best(results, config);
    assert(is_selection(results@, config, selected));
    decide(selected, relay, direct_only)
}

/// There is only one best path.
pub proof fn law_one_path_is_best(
    results: Seq<CheckResult>,
    config: PathSelectionConfig,
    one: int,
    other: int,
)
    requires
        is_best(results, config, one),
        is_best(results, config, other),
    ensures
        one == other,
{
}

/// A direct path that can be taken is preferred to a relay: a relay is only taken
/// where no direct path can be, or where no name can be drawn for it.
pub proof fn law_direct_before_relay(
    results: Seq<CheckResult>,
    config: PathSelectionConfig,
    selected: Result<SelectedPath, SelectionError>,
    relay: Option<RelayPath>,
    direct_only: bool,
)
    requires
        is_selection(results, config, selected),
        decided(selected, relay, direct_only) matches Ok(decision) && decision is Relay,
    ensures
        !direct_only,
        relay == Some(decided(selected, relay, direct_only)->Ok_0->Relay_0),
        none_eligible(results, config) || selected == Err::<SelectedPath, SelectionError>(
            SelectionError::RandomnessUnavailable,
        ),
{
}

} // verus!
