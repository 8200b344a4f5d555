//! What checking addresses and choosing a path come to.

use vstd::prelude::*;

use crate::ids::PathId;
use crate::net::{optional_before, IpAddr};
use crate::network_probe::candidate::{
    all_pairs, pair_candidates, pair_of, pairs_with, path_priority, same_subnet, Candidate,
    CandidateKind, CandidatePair, PathKind,
};
use crate::network_probe::check::CheckResult;
use crate::network_probe::error::SelectionError;
use crate::network_probe::selection::{
    all_scored, choose_path, decide, eligible, is_eligible, path_kind, score, select_best,
    selected_path, PathDecision, PathSelectionConfig, RelayPath, SelectedPath,
};
use crate::sort::{put_in_order, Ranked};

verus! {

/// Whether a check tells of a direct path that can be taken: it was answered, it
/// has an address and a round-trip time, its datagrams are large enough, and it
/// does not go through a relay.
pub open spec fn is_direct_path(result: CheckResult, config: PathSelectionConfig) -> bool {
    &&& result.received >= 1
    &&& result.candidate.address is Some
    &&& result.rtt_millis is Some
    &&& result.mtu >= config.minimum_mtu
    &&& result.candidate.kind != CandidateKind::Relay
}

/// Whether a path of this kind can lead to a candidate of that kind.
pub open spec fn leads_to(path: PathKind, candidate: CandidateKind) -> bool {
    &&& path == PathKind::Relay <==> candidate == CandidateKind::Relay
    &&& path == PathKind::ReflexiveDirect <==> candidate == CandidateKind::ServerReflexive
        || candidate == CandidateKind::PeerReflexive
    &&& path == PathKind::Host <==> candidate == CandidateKind::Host
    &&& path == PathKind::RoutedLan <==> candidate == CandidateKind::RoutedLan
}

/// A path goes through a relay exactly if its candidate does, and an address that
/// another host has seen is reached directly.
pub proof fn law_path_kind_follows_the_candidate(kind: CandidateKind, path: PathKind)
    requires
        call_ensures(path_kind, (kind,), path),
    ensures
        leads_to(path, kind),
{
}

/// A path can be taken exactly if its check was answered, it has an address and a
/// round-trip time, its datagrams are large enough, and no relay is on it.
pub proof fn law_answered_direct_path_can_be_taken(
    result: &CheckResult,
    config: PathSelectionConfig,
    yes: bool,
)
    requires
        call_ensures(eligible, (result, config), yes),
    ensures
        yes == is_direct_path(*result, config),
{
}

/// Where some check tells of a direct path that can be taken, one is found, unless
/// there is no name for it; where none does, none is.
pub proof fn law_direct_path_is_found(
    results: &[CheckResult],
    config: PathSelectionConfig,
    selected: Result<SelectedPath, SelectionError>,
)
    requires
        all_scored(results@, config),
        call_ensures(select_best, (results, config), selected),
    ensures
        selected == Err::<SelectedPath, SelectionError>(SelectionError::NoSuccessfulDirectPath)
            <==> forall|i: int|
            0 <= i < results@.len() ==> !is_direct_path(#[trigger] results@[i], config),
{
    assert forall|i: int| 0 <= i < results@.len() implies is_direct_path(
        #[trigger] results@[i],
        config,
    ) == is_eligible(results@[i], config) by {
    }
}

/// The path that is selected is one that was checked: its candidate, address,
/// round-trip time and datagram size are those of one of the results, and it does
/// not go through a relay.
pub proof fn law_selected_path_was_checked(
    results: &[CheckResult],
    config: PathSelectionConfig,
    path: SelectedPath,
)
    requires
        all_scored(results@, config),
        call_ensures(select_best, (results, config), Ok::<SelectedPath, SelectionError>(path)),
    ensures
        path.kind != PathKind::Relay,
        path.mtu >= config.minimum_mtu,
        exists|i: int|
            {
                &&& 0 <= i < results@.len()
                &&& is_direct_path(#[trigger] results@[i], config)
                &&& path.candidate_id == results@[i].candidate.id
                &&& Some(path.address) == results@[i].candidate.address
                &&& Some(path.rtt_millis) == results@[i].rtt_millis
                &&& path.mtu == results@[i].mtu
                &&& leads_to(path.kind, results@[i].candidate.kind)
            },
{
}

/// No checked path scores higher than the one that is selected, and of those that
/// score the same it is the one whose candidate has the lowest number.
pub proof fn law_selected_path_scores_highest(
    results: &[CheckResult],
    config: PathSelectionConfig,
    path: SelectedPath,
    other: int,
    other_score: i64,
)
    requires
        all_scored(results@, config),
        call_ensures(select_best, (results, config), Ok::<SelectedPath, SelectionError>(path)),
        0 <= other < results@.len(),
        is_direct_path(results@[other], config),
        call_ensures(score, (&results@[other], config), Some(other_score)),
    ensures
        path.score >= other_score,
        path.score == other_score ==> path.candidate_id.value
            <= results@[other].candidate.id.value,
{
    assert(is_eligible(results@[other], config));
}

/// What is told of a path is what its check told, and its score is the one that
/// the check gives.
pub proof fn law_path_is_as_it_was_checked(
    result: &CheckResult,
    config: PathSelectionConfig,
    path_id: PathId,
    path: SelectedPath,
    its_score: Option<i64>,
    loss: u8,
)
    requires
        is_direct_path(*result, config),
        call_ensures(score, (result, config), its_score),
        its_score is Some,
        call_ensures(CheckResult::loss_percent, (result,), loss),
        call_ensures(selected_path, (result, config, path_id), path),
    ensures
        path.path_id == path_id,
        path.candidate_id == result.candidate.id,
        Some(path.address) == result.candidate.address,
        Some(path.rtt_millis) == result.rtt_millis,
        path.mtu == result.mtu,
        path.loss_percent == loss,
        Some(path.score) == its_score,
        leads_to(path.kind, result.candidate.kind),
{
}

/// Of two paths that differ in nothing else, the one whose candidate is preferred
/// by so much scores that much higher, the slower one loses its price for each
/// millisecond, the one that loses more loses its price for each percent, and the
/// one over IPv6 gains the bonus.
pub proof fn law_score_weighs_each_side(
    result: &CheckResult,
    other: &CheckResult,
    config: PathSelectionConfig,
    first: i64,
    second: i64,
    first_loss: u8,
    second_loss: u8,
)
    requires
        is_direct_path(*result, config),
        is_direct_path(*other, config),
        result.rtt_millis->0 <= i64::MAX,
        other.rtt_millis->0 <= i64::MAX,
        result.candidate.kind == other.candidate.kind,
        result.mtu == other.mtu || (result.mtu >= 1200 && other.mtu >= 1200),
        call_ensures(score, (result, config), Some(first)),
        call_ensures(score, (other, config), Some(second)),
        call_ensures(CheckResult::loss_percent, (result,), first_loss),
        call_ensures(CheckResult::loss_percent, (other,), second_loss),
    ensures
        first - second == (result.candidate.priority - other.candidate.priority) + (
        other.rtt_millis->0 - result.rtt_millis->0) * config.rtt_penalty_per_millis + (second_loss
            - first_loss) * config.loss_penalty_per_percent + (if result.candidate.address->0 is V6 {
            config.address_family_bonus as int
        } else {
            0
        }) - (if other.candidate.address->0 is V6 {
            config.address_family_bonus as int
        } else {
            0
        }),
{
    let rtt: int = config.rtt_penalty_per_millis as int;
    let price: int = config.loss_penalty_per_percent as int;
    let left: int = result.rtt_millis->0 as int;
    let right: int = other.rtt_millis->0 as int;
    let lost: int = first_loss as int;
    let also: int = second_loss as int;
    assert((right - left) * rtt == right * rtt - left * rtt) by (nonlinear_arith);
    assert((also - lost) * price == also * price - lost * price) by (nonlinear_arith);
}

/// Of two paths that differ only in the kind of their candidates, the one to this
/// host's own network scores ten more than the one through a routed network, and
/// thirty more than the one to an address that another host has seen.
pub proof fn law_nearer_path_scores_higher(
    result: &CheckResult,
    other: &CheckResult,
    config: PathSelectionConfig,
    first: i64,
    second: i64,
)
    requires
        is_direct_path(*result, config),
        result.candidate.kind == CandidateKind::Host,
        is_direct_path(*other, config),
        *other == (CheckResult {
            candidate: Candidate { kind: other.candidate.kind, ..result.candidate },
            ..*result
        }),
        call_ensures(score, (result, config), Some(first)),
        call_ensures(score, (other, config), Some(second)),
    ensures
        other.candidate.kind == CandidateKind::Host ==> first == second,
        other.candidate.kind == CandidateKind::RoutedLan ==> first == second + 10,
        other.candidate.kind == CandidateKind::ServerReflexive ==> first == second + 30,
        other.candidate.kind == CandidateKind::PeerReflexive ==> first == second + 30,
{
}

/// Small datagrams cost the price for each hundred bytes that they lack.
pub proof fn law_small_datagrams_cost(
    result: &CheckResult,
    other: &CheckResult,
    config: PathSelectionConfig,
    hundreds: int,
    first: i64,
    second: i64,
)
    requires
        is_direct_path(*result, config),
        is_direct_path(*other, config),
        *other == (CheckResult { mtu: other.mtu, ..*result }),
        0 <= hundreds <= 12,
        result.mtu >= 1200,
        1200 - 100 * hundreds - 100 < other.mtu <= 1200 - 100 * hundreds,
        call_ensures(score, (result, config), Some(first)),
        call_ensures(score, (other, config), Some(second)),
    ensures
        first - second == hundreds * config.mtu_penalty_per_100_bytes,
{
    assert((1200 - other.mtu) / 100 == hundreds);
    if hundreds == 0 {
        assert(0 * config.mtu_penalty_per_100_bytes == 0) by (nonlinear_arith);
    }
}

/// The nearer a path, the more it is worth; a relay is worth least.
pub proof fn law_nearer_kinds_are_worth_more(host: u32, routed: u32, reflexive: u32, relay: u32)
    requires
        call_ensures(path_priority, (PathKind::Host,), host),
        call_ensures(path_priority, (PathKind::RoutedLan,), routed),
        call_ensures(path_priority, (PathKind::ReflexiveDirect,), reflexive),
        call_ensures(path_priority, (PathKind::Relay,), relay),
    ensures
        host > routed > reflexive > relay > 0,
        host == routed + 10 == reflexive + 30 == relay + 90,
{
}

/// A direct path is taken wherever there is one. A relay is taken only where it is
/// not forbidden, and it is the one that was offered.
pub proof fn law_relay_is_the_last_resort(
    selected: Result<SelectedPath, SelectionError>,
    relay: Option<RelayPath>,
    direct_only: bool,
    decision: Result<PathDecision, SelectionError>,
)
    requires
        call_ensures(decide, (selected, relay, direct_only), decision),
    ensures
        selected is Ok ==> decision is Ok && decision->Ok_0 == PathDecision::Direct(selected->Ok_0),
        decision is Ok && decision->Ok_0 is Direct ==> selected is Ok,
        decision is Ok && decision->Ok_0 is Relay ==> {
            &&& selected is Err
            &&& !direct_only
            &&& relay == Some(decision->Ok_0->Relay_0)
        },
        selected is Err && relay is Some && !direct_only ==> decision is Ok,
        decision is Err ==> selected is Err && decision->Err_0 == selected->Err_0 && (direct_only
            || relay is None),
{
}

/// Choosing a path out of checks: a direct path is one of those that were checked,
/// and a relay is taken only if it was offered and is not forbidden; with no direct
/// path the offered relay is taken.
pub proof fn law_chosen_path_was_checked_or_offered(
    results: &[CheckResult],
    config: PathSelectionConfig,
    relay: Option<RelayPath>,
    direct_only: bool,
    decision: Result<PathDecision, SelectionError>,
)
    requires
        all_scored(results@, config),
        call_ensures(choose_path, (results, config, relay, direct_only), decision),
    ensures
        direct_only ==> !(decision is Ok && decision->Ok_0 is Relay),
        decision is Ok && decision->Ok_0 is Relay ==> relay == Some(decision->Ok_0->Relay_0),
        decision is Ok && decision->Ok_0 is Direct ==> exists|i: int|
            {
                &&& 0 <= i < results@.len()
                &&& is_direct_path(#[trigger] results@[i], config)
                &&& decision->Ok_0->Direct_0.candidate_id == results@[i].candidate.id
                &&& Some(decision->Ok_0->Direct_0.address) == results@[i].candidate.address
                &&& leads_to(decision->Ok_0->Direct_0.kind, results@[i].candidate.kind)
            },
        decision == Err::<PathDecision, SelectionError>(SelectionError::NoSuccessfulDirectPath)
            ==> forall|i: int|
            0 <= i < results@.len() ==> !is_direct_path(#[trigger] results@[i], config),
        (forall|i: int| 0 <= i < results@.len() ==> !is_direct_path(#[trigger] results@[i], config))
            && relay is Some && !direct_only ==> decision is Ok && decision->Ok_0
            == PathDecision::Relay(relay->0),
{
    assert forall|i: int| 0 <= i < results@.len() implies is_direct_path(
        #[trigger] results@[i],
        config,
    ) == is_eligible(results@[i], config) by {
    }
}

/// The percentage of the checks that got no answer, rounded down.
pub proof fn law_loss_is_the_share_without_answer(result: &CheckResult, percent: u8)
    requires
        call_ensures(CheckResult::loss_percent, (result,), percent),
    ensures
        result.sent == 0 ==> percent == 100,
        0 < result.sent <= result.received ==> percent == 0,
        result.received < result.sent ==> percent * result.sent <= 100 * (result.sent
            - result.received) < (percent + 1) * result.sent,
{
    if result.received < result.sent {
        let lost: int = (result.sent - result.received) * 100;
        let sent: int = result.sent as int;
        let share: int = lost / sent;
        assert(0 <= share <= 100 && share * sent <= lost < (share + 1) * sent) by (nonlinear_arith)
            requires
                share == lost / sent,
                sent > 0,
                0 <= lost <= 100 * sent,
        ;
    }
}

/// Two addresses of version four are in one network exactly if their first three
/// bytes agree.
pub proof fn law_networks_have_three_bytes_in_common(
    first: (u8, u8, u8, u8),
    second: (u8, u8, u8, u8),
    left: IpAddr,
    right: IpAddr,
    same: bool,
)
    requires
        call_ensures(IpAddr::v4, (first.0, first.1, first.2, first.3), left),
        call_ensures(IpAddr::v4, (second.0, second.1, second.2, second.3), right),
        call_ensures(same_subnet, (left, right), same),
    ensures
        same <==> first.0 == second.0 && first.1 == second.1 && first.2 == second.2,
{
}

/// Two addresses of version six are in one network exactly if their upper halves
/// agree; addresses of different versions never are.
pub proof fn law_wide_networks_have_eight_bytes_in_common(
    upper: u64,
    lower: u64,
    other_upper: u64,
    other_lower: u64,
    narrow: u32,
    same: bool,
    mixed: bool,
)
    requires
        call_ensures(
            same_subnet,
            (
                IpAddr::V6((upper * 0x1_0000_0000_0000_0000 + lower) as u128),
                IpAddr::V6((other_upper * 0x1_0000_0000_0000_0000 + other_lower) as u128),
            ),
            same,
        ),
        call_ensures(
            same_subnet,
            (
                IpAddr::V6((upper * 0x1_0000_0000_0000_0000 + lower) as u128),
                IpAddr::V4(narrow),
            ),
            mixed,
        ),
    ensures
        same <==> upper == other_upper,
        !mixed,
{
}

/// What a pair of two candidates must be: through a relay if either is, else
/// direct to a seen address if either is one, else near if the two are in one
/// network, and worth as much as the two and its kind together.
pub open spec fn is_pair_of(
    pair: CandidatePair,
    local: Candidate,
    remote: Candidate,
    near: bool,
) -> bool {
    &&& pair.local == local
    &&& pair.remote == remote
    &&& pair.kind == PathKind::Relay <==> local.kind == CandidateKind::Relay || remote.kind
        == CandidateKind::Relay
    &&& pair.kind == PathKind::ReflexiveDirect <==> pair.kind != PathKind::Relay && (local.kind
        == CandidateKind::ServerReflexive || local.kind == CandidateKind::PeerReflexive
        || remote.kind == CandidateKind::ServerReflexive || remote.kind
        == CandidateKind::PeerReflexive)
    &&& pair.kind == PathKind::Host ==> near
    &&& pair.kind == PathKind::RoutedLan ==> !near
    &&& pair.priority == local.priority + remote.priority + match pair.kind {
        PathKind::Host => 100int,
        PathKind::RoutedLan => 90,
        PathKind::ReflexiveDirect => 70,
        PathKind::Relay => 10,
    }
}

/// The pairs of one candidate are pairs of it with the others.
proof fn lemma_pairs_with(local: Candidate, remote: Seq<Candidate>, count: int, at: int)
    requires
        0 <= count <= remote.len(),
        0 <= at < pairs_with(local, remote, count).len(),
    ensures
        exists|j: int|
            0 <= j < count && pair_of(local, #[trigger] remote[j]) == Some(
                pairs_with(local, remote, count)[at],
            ),
    decreases count,
{
    if count > 0 {
        let before = pairs_with(local, remote, count - 1);
        if at < before.len() {
            lemma_pairs_with(local, remote, count - 1, at);
            let j = choose|j: int|
                0 <= j < count - 1 && pair_of(local, #[trigger] remote[j]) == Some(before[at]);
            assert(pair_of(local, remote[j]) == Some(pairs_with(local, remote, count)[at]));
        } else {
            assert(pair_of(local, remote[count - 1]) == Some(
                pairs_with(local, remote, count)[at],
            ));
        }
    }
}

/// All pairs are pairs of a candidate here with one there.
proof fn lemma_all_pairs(local: Seq<Candidate>, remote: Seq<Candidate>, count: int, at: int)
    requires
        0 <= count <= local.len(),
        0 <= at < all_pairs(local, remote, count).len(),
    ensures
        exists|i: int, j: int|
            0 <= i < count && 0 <= j < remote.len() && pair_of(
                #[trigger] local[i],
                #[trigger] remote[j],
            ) == Some(all_pairs(local, remote, count)[at]),
    decreases count,
{
    if count > 0 {
        let before = all_pairs(local, remote, count - 1);
        let new = pairs_with(local[count - 1], remote, remote.len() as int);
        if at < before.len() {
            lemma_all_pairs(local, remote, count - 1, at);
            assert(all_pairs(local, remote, count)[at] == before[at]);
        } else {
            lemma_pairs_with(local[count - 1], remote, remote.len() as int, at - before.len());
            assert(all_pairs(local, remote, count)[at] == new[at - before.len()]);
        }
    }
}

/// Each candidate here is paired with each one there.
proof fn lemma_paired_with(local: Candidate, remote: Seq<Candidate>, count: int, j: int) -> (at: int)
    requires
        0 <= j < count <= remote.len(),
        pair_of(local, remote[j]) is Some,
    ensures
        0 <= at < pairs_with(local, remote, count).len(),
        pair_of(local, remote[j]) == Some(pairs_with(local, remote, count)[at]),
    decreases count,
{
    if j == count - 1 {
        pairs_with(local, remote, count).len() - 1
    } else {
        lemma_paired_with(local, remote, count - 1, j)
    }
}

/// Every two candidates with addresses are among all pairs.
proof fn lemma_paired(
    local: Seq<Candidate>,
    remote: Seq<Candidate>,
    count: int,
    i: int,
    j: int,
) -> (at: int)
    requires
        0 <= i < count <= local.len(),
        0 <= j < remote.len(),
        pair_of(local[i], remote[j]) is Some,
    ensures
        0 <= at < all_pairs(local, remote, count).len(),
        pair_of(local[i], remote[j]) == Some(all_pairs(local, remote, count)[at]),
    decreases count,
{
    if i == count - 1 {
        let at = lemma_paired_with(local[i], remote, remote.len() as int, j);
        all_pairs(local, remote, count - 1).len() + at
    } else {
        lemma_paired(local, remote, count - 1, i, j)
    }
}

/// Each pair is one of a candidate here with one there, both with addresses; its
/// kind and worth are those of the two. No more are given than asked for, and the
/// most worthy come first; among those worth the same the addresses decide.
pub proof fn law_pairs_are_of_both_sides(
    local: &[Candidate],
    remote: &[Candidate],
    max_pairs: usize,
    pairs: Vec<CandidatePair>,
    at: int,
    near: bool,
)
    requires
        call_ensures(pair_candidates, (local, remote, max_pairs), pairs),
        0 <= at < pairs@.len(),
        pairs@[at].local.address is Some && pairs@[at].remote.address is Some ==> call_ensures(
            same_subnet,
            (pairs@[at].local.address->0.spec_ip(), pairs@[at].remote.address->0.spec_ip()),
            near,
        ),
    ensures
        pairs@.len() <= max_pairs,
        pairs@[at].local.address is Some,
        pairs@[at].remote.address is Some,
        exists|i: int, j: int|
            0 <= i < local@.len() && 0 <= j < remote@.len() && is_pair_of(
                pairs@[at],
                #[trigger] local@[i],
                #[trigger] remote@[j],
                near,
            ),
        forall|later: int|
            at <= later < pairs@.len() ==> {
                &&& pairs@[at].priority >= (#[trigger] pairs@[later]).priority
                &&& pairs@[at].priority == pairs@[later].priority ==> !optional_before(
                    pairs@[later].remote.address,
                    pairs@[at].remote.address,
                )
            },
{
    let all = all_pairs(local@, remote@, local@.len() as int);
    let (sorted, places) = choose|sorted: Seq<CandidatePair>, places: Seq<int>| #[trigger]
        put_in_order(all, sorted, places) && pairs@ == sorted.subrange(
            0,
            if max_pairs < sorted.len() {
                max_pairs as int
            } else {
                sorted.len() as int
            },
        );
    assert(pairs@[at] == all[places[at]]);
    lemma_all_pairs(local@, remote@, local@.len() as int, places[at]);
    let (i, j) = choose|i: int, j: int|
        0 <= i < local@.len() && 0 <= j < remote@.len() && pair_of(
            #[trigger] local@[i],
            #[trigger] remote@[j],
        ) == Some(all[places[at]]);
    assert(is_pair_of(pairs@[at], local@[i], remote@[j], near));
    assert forall|later: int| at <= later < pairs@.len() implies {
        &&& pairs@[at].priority >= (#[trigger] pairs@[later]).priority
        &&& pairs@[at].priority == pairs@[later].priority ==> !optional_before(
            pairs@[later].remote.address,
            pairs@[at].remote.address,
        )
    } by {
        if at < later {
            assert(!sorted[later].goes_ahead(sorted[at])) by {
                assert(places[at] != places[later]);
            }
        }
    }
}

/// Every two candidates with addresses are paired, unless as many pairs as asked
/// for are given and each of them is worth as much.
pub proof fn law_every_two_candidates_are_paired(
    local: &[Candidate],
    remote: &[Candidate],
    max_pairs: usize,
    pairs: Vec<CandidatePair>,
    i: int,
    j: int,
)
    requires
        call_ensures(pair_candidates, (local, remote, max_pairs), pairs),
        0 <= i < local@.len(),
        0 <= j < remote@.len(),
        local@[i].address is Some,
        remote@[j].address is Some,
    ensures
        pairs@.len() == max_pairs || exists|at: int|
            0 <= at < pairs@.len() && (#[trigger] pairs@[at]).local == local@[i]
                && pairs@[at].remote == remote@[j],
{
    let all = all_pairs(local@, remote@, local@.len() as int);
    let (sorted, places) = choose|sorted: Seq<CandidatePair>, places: Seq<int>| #[trigger]
        put_in_order(all, sorted, places) && pairs@ == sorted.subrange(
            0,
            if max_pairs < sorted.len() {
                max_pairs as int
            } else {
                sorted.len() as int
            },
        );
    let at = lemma_paired(local@, remote@, local@.len() as int, i, j);
    if pairs@.len() != max_pairs {
        assert(pairs@ =~= sorted);
        lemma_place_of(all, sorted, places, at);
        let place = choose|place: int| 0 <= place < places.len() && #[trigger] places[place] == at;
        assert(pairs@[place] == all[at]);
    }
}

/// Every item that was put in order has a place.
proof fn lemma_place_of(
    before: Seq<CandidatePair>,
    after: Seq<CandidatePair>,
    places: Seq<int>,
    at: int,
)
    requires
        put_in_order(before, after, places),
        0 <= at < before.len(),
    ensures
        exists|place: int| 0 <= place < places.len() && #[trigger] places[place] == at,
{
    if forall|place: int| 0 <= place < places.len() ==> #[trigger] places[place] != at {
        let room = vstd::set_lib::set_int_range(0, before.len() as int).remove(at);
        vstd::set_lib::lemma_int_range(0, before.len() as int);
        let taken = places.to_set();
        assert(places.no_duplicates()) by {
            assert forall|i: int, j: int|
                0 <= i < places.len() && 0 <= j < places.len() && i != j implies places[i]
                != places[j] by {
                if i < j {
                    assert(places[i] != places[j]);
                } else {
                    assert(places[j] != places[i]);
                }
            }
        }
        places.unique_seq_to_set();
        assert(taken.subset_of(room)) by {
            assert forall|place: int| taken.contains(place) implies room.contains(place) by {
                let i = choose|i: int| 0 <= i < places.len() && places[i] == place;
                assert(0 <= places[i] < before.len());
            }
        }
        vstd::set_lib::lemma_len_subset(taken, room);
    }
}

} // verus!
