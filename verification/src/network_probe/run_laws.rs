//! What asking and answering checks come to, and which addresses a host offers.

use vstd::prelude::*;

use crate::duration::{Duration, MAX_NANOS, NANOS_PER_MILLI};
use crate::ids::{CandidateId, CheckToken, TransferId};
use crate::net::{IpAddr, SocketAddr};
use crate::network_probe::candidate::{Candidate, CandidateKind, KindCodes};
use crate::network_probe::check::{
    respond, with_addresses, CheckAuthorization, CheckResult, PathCheck, ProbeConfig,
};
use crate::network_probe::error::ProbeError;
use crate::network_probe::interface::{
    arrange, has_default, hosts_of, is_kept, is_listed, Host, NetworkInterface, NetworkRoute,
    NetworkSnapshot,
};
use crate::network_probe::run::{ProbeAction, ProbeRun};
use crate::sort::{put_in_order, Ranked};

verus! {

/// The authorized candidates are those with addresses.
proof fn lemma_with_addresses(candidates: Seq<Candidate>, count: int, id: CandidateId)
    requires
        0 <= count <= candidates.len(),
    ensures
        (exists|k: int|
            0 <= k < with_addresses(candidates, count).len() && (
            #[trigger] with_addresses(candidates, count)[k]).id == id) <==> (exists|i: int|
            0 <= i < count && (#[trigger] candidates[i]).id == id && candidates[i].address is Some),
    decreases count,
{
    if count > 0 {
        lemma_with_addresses(candidates, count - 1, id);
        let before = with_addresses(candidates, count - 1);
        let after = with_addresses(candidates, count);
        if exists|k: int| 0 <= k < after.len() && (#[trigger] after[k]).id == id {
            let k = choose|k: int| 0 <= k < after.len() && (#[trigger] after[k]).id == id;
            if k < before.len() {
                assert(before[k].id == id);
            } else {
                assert(candidates[count - 1].id == id);
            }
        }
        if exists|i: int|
            0 <= i < count && (#[trigger] candidates[i]).id == id && candidates[i].address is Some {
            let i = choose|i: int|
                0 <= i < count && (#[trigger] candidates[i]).id == id && candidates[i].address
                    is Some;
            if i == count - 1 {
                assert(after[after.len() - 1].id == id);
            } else {
                let k = choose|k: int| 0 <= k < before.len() && (#[trigger] before[k]).id == id;
                assert(after[k].id == id);
            }
        }
    }
}

/// A check is permitted exactly if it is of one of the candidates with an address
/// that the authorization was made for, comes before the end, and from an address
/// that can be answered.
pub proof fn law_authorized_candidates_are_permitted(
    transfer_id: TransferId,
    check_token: CheckToken,
    expires_at_millis: u64,
    candidates: &[Candidate],
    authorization: CheckAuthorization,
    id: CandidateId,
    source: SocketAddr,
    ip: IpAddr,
    port: u16,
    unspecified: bool,
    multicast: bool,
    now_millis: u64,
    yes: bool,
)
    requires
        call_ensures(
            CheckAuthorization::new,
            (transfer_id, check_token, expires_at_millis, candidates),
            Ok::<CheckAuthorization, ProbeError>(authorization),
        ),
        call_ensures(SocketAddr::ip, (source,), ip),
        call_ensures(SocketAddr::port, (source,), port),
        call_ensures(IpAddr::is_unspecified, (ip,), unspecified),
        call_ensures(IpAddr::is_multicast, (ip,), multicast),
        call_ensures(CheckAuthorization::permits, (&authorization, id, source, now_millis), yes),
    ensures
        yes <==> {
            &&& now_millis < expires_at_millis
            &&& exists|i: int|
                0 <= i < candidates@.len() && (#[trigger] candidates@[i]).id == id
                    && candidates@[i].address is Some
            &&& port != 0
            &&& !unspecified
            &&& !multicast
        },
{
    lemma_with_addresses(candidates@, candidates@.len() as int, id);
}

/// A request is answered exactly if it is of the transfer, carries its token and
/// is permitted. The answer is for the one that asked: it tells them their own
/// numbers and the address they were seen at.
pub proof fn law_request_of_the_transfer_is_answered(
    config: &ProbeConfig,
    authorization: &CheckAuthorization,
    transfer_id: TransferId,
    check_token: CheckToken,
    request: PathCheck,
    source: SocketAddr,
    now_millis: u64,
    later_millis: u64,
    permitted: bool,
    result: Result<(PathCheck, CheckResult), ProbeError>,
)
    requires
        request is Request,
        call_ensures(CheckAuthorization::transfer_id, (authorization,), transfer_id),
        call_ensures(CheckAuthorization::check_token, (authorization,), check_token),
        call_ensures(
            CheckAuthorization::permits,
            (authorization, request->Request_candidate_id, source, now_millis),
            permitted,
        ),
        call_ensures(
            respond,
            (config, authorization, Some(request), source, now_millis, later_millis),
            result,
        ),
    ensures
        result is Ok <==> permitted && request->Request_transfer_id == transfer_id
            && request->Request_check_token == check_token,
        result is Ok ==> {
            let (response, told) = result->Ok_0;
            &&& response is Response
            &&& response->Response_transfer_id == request->Request_transfer_id
            &&& response->Response_transaction_id == request->Request_transaction_id
            &&& response->Response_check_token == request->Request_check_token
            &&& response->Response_candidate_id == request->Request_candidate_id
            &&& response->Response_observed_address == source
            &&& response->Response_receive_timestamp_millis == later_millis
            &&& told.candidate.address == Some(source)
            &&& told.candidate.id == request->Request_candidate_id
            &&& told.candidate.kind == CandidateKind::PeerReflexive
            &&& told.observed_address == Some(source)
            &&& told.received == 1
            &&& told.sent == 1
            &&& told.rtt_millis is None
        },
{
}

/// What is not a request is never answered.
pub proof fn law_only_requests_are_answered(
    config: &ProbeConfig,
    authorization: &CheckAuthorization,
    message: Option<PathCheck>,
    source: SocketAddr,
    now_millis: u64,
    later_millis: u64,
    result: Result<(PathCheck, CheckResult), ProbeError>,
)
    requires
        message is None || message->0 is Response,
        call_ensures(
            respond,
            (config, authorization, message, source, now_millis, later_millis),
            result,
        ),
    ensures
        result is Err,
{
}

/// A request that a run asks for, once it was sent and the other side has answered
/// it, is counted as sent and as answered, for the candidate it was sent to, with
/// no more time than went by in between.
pub proof fn law_answered_request_is_counted(
    asking: &mut ProbeRun,
    now_millis: u64,
    address: SocketAddr,
    request: PathCheck,
    sending: &mut ProbeRun,
    now: Duration,
    config: &ProbeConfig,
    authorization: &CheckAuthorization,
    source: SocketAddr,
    there_millis: u64,
    there_later: u64,
    response: PathCheck,
    told: CheckResult,
    hearing: &mut ProbeRun,
    later: Duration,
    answer: bool,
)
    requires
        old(asking).is_valid(),
        call_ensures(
            ProbeRun::next,
            (asking, now_millis),
            Ok::<ProbeAction, ProbeError>(ProbeAction::Send { address, request }),
        ),
        *old(sending) == *final(asking),
        now@ + old(sending)@.config.timeout@ <= MAX_NANOS,
        call_ensures(ProbeRun::sent, (sending, now), ()),
        call_ensures(
            respond,
            (config, authorization, Some(request), source, there_millis, there_later),
            Ok::<(PathCheck, CheckResult), ProbeError>((response, told)),
        ),
        *old(hearing) == *final(sending),
        later@ >= now@,
        call_ensures(ProbeRun::received, (hearing, Some(response), later), answer),
    ensures
        answer,
        exists|i: int|
            {
                let before = old(asking)@.results[i];
                let between = #[trigger] final(sending)@.results[i];
                let after = final(hearing)@.results[i];
                &&& 0 <= i < old(asking)@.results.len()
                &&& before.candidate.address == Some(address)
                &&& after.candidate == before.candidate
                &&& before.sent < u32::MAX ==> between.sent == before.sent + 1
                &&& between.received == before.received
                &&& after.sent == between.sent
                &&& before.received < u32::MAX ==> after.received == before.received + 1
                &&& after.observed_address == Some(source)
                &&& after.rtt_millis is Some
                &&& later@ - now@ < 0x1_0000_0000_0000_0000 * NANOS_PER_MILLI as int ==> {
                    &&& after.rtt_millis->0 * NANOS_PER_MILLI <= later@ - now@
                    &&& before.rtt_millis is Some ==> after.rtt_millis->0 <= before.rtt_millis->0
                    &&& before.rtt_millis is None ==> later@ - now@ < (after.rtt_millis->0 + 1)
                        * NANOS_PER_MILLI
                }
                &&& forall|other: int|
                    0 <= other < old(asking)@.results.len() && other != i
                        ==> #[trigger] final(hearing)@.results[other]
                        == old(asking)@.results[other]
            },
{
    let i = old(asking)@.usable[old(asking)@.position].index as int;
    let between = final(sending)@.results[i];
    let millis: int = (later@ - now@) / (NANOS_PER_MILLI as int);
    assert(final(sending)@.pending.dom().contains(
        response->Response_transaction_id.value,
    ));
    assert(answer);
    assert(between.candidate == old(asking)@.results[i].candidate);
    if later@ - now@ < 0x1_0000_0000_0000_0000 * NANOS_PER_MILLI as int {
        assert(0 <= millis < 0x1_0000_0000_0000_0000);
        assert(millis as u64 == millis);
    }
}

/// What is no answer to a pending request of the run changes nothing: a message of
/// another transfer, with another token, to an unknown request or no response.
pub proof fn law_strange_answer_changes_nothing(
    run: &mut ProbeRun,
    message: Option<PathCheck>,
    now: Duration,
    answer: bool,
)
    requires
        old(run).is_valid(),
        message is None || message->0 is Request || message->0->Response_transfer_id
            != old(run)@.transfer_id || message->0->Response_check_token != old(run)@.check_token
            || !old(run)@.pending.dom().contains(message->0->Response_transaction_id.value),
        call_ensures(ProbeRun::received, (run, message, now), answer),
    ensures
        !answer,
        final(run)@ == old(run)@,
{
}

/// A run asks nothing at the start and ends after as many rounds as samples are
/// asked for, or one more than there are retries, whichever is more.
pub proof fn law_run_has_enough_rounds(config: &ProbeConfig, rounds: usize)
    requires
        call_ensures(ProbeConfig::rounds, (config,), rounds),
    ensures
        rounds >= config.samples,
        config.retries < usize::MAX ==> rounds > config.retries,
        rounds == config.samples || rounds == config.retries + 1 || config.retries == usize::MAX,
{
}

/// A run starts with every candidate unasked, and gives back one result for each,
/// in their order.
pub proof fn law_run_tells_of_every_candidate(
    config: ProbeConfig,
    transfer_id: TransferId,
    check_token: CheckToken,
    candidates: &[Candidate],
    run: ProbeRun,
    results: Vec<CheckResult>,
)
    requires
        call_ensures(
            ProbeRun::start,
            (config, transfer_id, check_token, candidates),
            Ok::<ProbeRun, ProbeError>(run),
        ),
        call_ensures(ProbeRun::results, (run,), results),
    ensures
        0 < candidates@.len() <= config.max_candidates,
        results@.len() == candidates@.len(),
        forall|i: int|
            0 <= i < results@.len() ==> {
                &&& (#[trigger] results@[i]).candidate == candidates@[i]
                &&& results@[i].sent == 0
                &&& results@[i].received == 0
                &&& results@[i].rtt_millis is None
                &&& results@[i].observed_address is None
            },
{
}

/// A run is not started without candidates, nor with more than are allowed, nor with
/// settings that do not pass; else it is, unless none of them can be asked.
pub proof fn law_run_needs_candidates(
    config: ProbeConfig,
    checked: Result<(), ProbeError>,
    transfer_id: TransferId,
    check_token: CheckToken,
    candidates: &[Candidate],
    result: Result<ProbeRun, ProbeError>,
)
    requires
        call_ensures(ProbeConfig::validate, (&config,), checked),
        call_ensures(ProbeRun::start, (config, transfer_id, check_token, candidates), result),
    ensures
        checked is Err ==> result is Err && result->Err_0 == checked->Err_0,
        checked is Ok && candidates@.len() == 0 ==> result is Err && result->Err_0
            == ProbeError::NoCandidates,
        checked is Ok && candidates@.len() > config.max_candidates ==> result is Err
            && result->Err_0 is InvalidConfig,
        checked is Ok && 0 < candidates@.len() <= config.max_candidates && result is Err
            ==> result->Err_0 == ProbeError::NoCandidates,
{
}

/// A round that was given up is over: what was counted stays, and no answer is
/// waited for.
pub proof fn law_given_up_round_is_over(run: &mut ProbeRun)
    requires
        old(run).is_valid(),
        old(run)@.position == old(run)@.usable.len(),
        call_ensures(ProbeRun::gave_up, (run,), ()),
    ensures
        final(run)@.results == old(run)@.results,
        final(run)@.round == old(run)@.round + 1,
        forall|id: u128| !(#[trigger] final(run)@.pending.dom().contains(id)),
{
}

/// A configuration is good exactly if it waits, asks and takes something, and its
/// datagrams can be sent and hold the sample.
pub proof fn law_probe_config_is_usable(config: &ProbeConfig, result: Result<(), ProbeError>)
    requires
        call_ensures(ProbeConfig::validate, (config,), result),
    ensures
        result is Ok <==> {
            &&& config.timeout@ > 0
            &&& config.samples > 0
            &&& config.max_candidates > 0
            &&& 64 <= config.mtu_sample_size <= config.max_datagram_size <= 65_507
        },
        result is Err ==> result->Err_0 is InvalidConfig,
{
}

/// Whether some default route leads over an interface.
pub open spec fn leads_everywhere(routes: Seq<NetworkRoute>, index: u32) -> bool {
    exists|r: int|
        0 <= r < routes.len() && (#[trigger] routes[r]).interface_index == Some(index)
            && routes[r].is_default && (routes[r].destination == IpAddr::V4(0)
            || routes[r].destination == IpAddr::V6(0))
}

/// Whether the address of an interface, with a port, is this one.
pub open spec fn has_address(interface: NetworkInterface, port: u16, address: SocketAddr) -> bool {
    match address {
        SocketAddr::V4 { ip, port: its } => interface.address == IpAddr::V4(ip) && its == port,
        SocketAddr::V6 { ip, port: its, flowinfo, scope_id } => interface.address == IpAddr::V6(ip)
            && its == port && flowinfo == 0 && scope_id == 0,
    }
}

/// Whether a host is the address, with the port, of an interface that is up and not
/// a loopback, and is preferred if a default route leads over it.
pub open spec fn is_host_of(
    host: Host,
    interface: NetworkInterface,
    routes: Seq<NetworkRoute>,
    port: u16,
) -> bool {
    &&& interface.is_up
    &&& !interface.is_loopback
    &&& has_address(interface, port, host.address)
    &&& host.interface_index == interface.index
    &&& host.priority == if leads_everywhere(routes, interface.index) {
        100int
    } else {
        90
    }
}

/// Each host is the address of an interface.
proof fn lemma_host_has_interface(
    interfaces: Seq<NetworkInterface>,
    routes: Seq<NetworkRoute>,
    port: u16,
    count: int,
    k: int,
)
    requires
        0 <= count <= interfaces.len(),
        0 <= k < hosts_of(interfaces, routes, port, count).len(),
    ensures
        exists|i: int|
            0 <= i < count && is_host_of(
                hosts_of(interfaces, routes, port, count)[k],
                #[trigger] interfaces[i],
                routes,
                port,
            ),
    decreases count,
{
    if count > 0 {
        let before = hosts_of(interfaces, routes, port, count - 1);
        let after = hosts_of(interfaces, routes, port, count);
        if k < before.len() {
            lemma_host_has_interface(interfaces, routes, port, count - 1, k);
            assert(after[k] == before[k]);
        } else {
            let interface = interfaces[count - 1];
            assert(after[k].address == SocketAddr::spec_new(interface.address, port));
            assert(has_address(interface, port, after[k].address));
            assert(has_default(routes, interface.index) == leads_everywhere(
                routes,
                interface.index,
            ));
            assert(is_host_of(after[k], interface, routes, port));
        }
    }
}

/// Each interface that is up and not a loopback has its address among the hosts.
proof fn lemma_interface_has_host(
    interfaces: Seq<NetworkInterface>,
    routes: Seq<NetworkRoute>,
    port: u16,
    count: int,
    i: int,
) -> (k: int)
    requires
        0 <= i < count <= interfaces.len(),
        interfaces[i].is_up,
        !interfaces[i].is_loopback,
    ensures
        0 <= k < hosts_of(interfaces, routes, port, count).len(),
        has_address(interfaces[i], port, hosts_of(interfaces, routes, port, count)[k].address),
    decreases count,
{
    let before = hosts_of(interfaces, routes, port, count - 1);
    let after = hosts_of(interfaces, routes, port, count);
    let address = SocketAddr::spec_new(interfaces[count - 1].address, port);
    if i < count - 1 {
        let k = lemma_interface_has_host(interfaces, routes, port, count - 1, i);
        assert(after[k] == before[k]);
        k
    } else if is_listed(before, address) {
        let k = choose|k: int| 0 <= k < before.len() && (#[trigger] before[k]).address == address;
        assert(after[k] == before[k]);
        k
    } else {
        assert(after[after.len() - 1].address == address);
        after.len() - 1
    }
}

/// No address is among the hosts twice.
proof fn lemma_hosts_differ(
    interfaces: Seq<NetworkInterface>,
    routes: Seq<NetworkRoute>,
    port: u16,
    count: int,
    k: int,
    l: int,
)
    requires
        0 <= count <= interfaces.len(),
        0 <= k < l < hosts_of(interfaces, routes, port, count).len(),
    ensures
        hosts_of(interfaces, routes, port, count)[k].address != hosts_of(
            interfaces,
            routes,
            port,
            count,
        )[l].address,
    decreases count,
{
    if count > 0 {
        let before = hosts_of(interfaces, routes, port, count - 1);
        let after = hosts_of(interfaces, routes, port, count);
        assert(after[k] == before[k]);
        if l < before.len() {
            assert(after[l] == before[l]);
            lemma_hosts_differ(interfaces, routes, port, count - 1, k, l);
        }
    }
}

/// Every candidate is the address, with the port, of an interface that is up and
/// not a loopback. One over which a default route leads comes before one over
/// which none does.
pub proof fn law_candidates_are_addresses_of_interfaces(
    interfaces: Vec<NetworkInterface>,
    routes: Vec<NetworkRoute>,
    snapshot: NetworkSnapshot,
    port: u16,
    max_candidates: usize,
    candidates: Vec<Candidate>,
    at: int,
)
    requires
        call_ensures(NetworkSnapshot::new, (interfaces, routes), snapshot),
        call_ensures(
            NetworkSnapshot::candidates,
            (&snapshot, port, max_candidates),
            Ok::<Vec<Candidate>, ProbeError>(candidates),
        ),
        0 <= at < candidates@.len(),
    ensures
        0 < candidates@.len() <= max_candidates,
        candidates@[at].kind == CandidateKind::Host,
        candidates@[at].address is Some,
        exists|i: int|
            {
                &&& 0 <= i < interfaces@.len()
                &&& (#[trigger] interfaces@[i]).is_up
                &&& !interfaces@[i].is_loopback
                &&& has_address(interfaces@[i], port, candidates@[at].address->0)
                &&& candidates@[at].interface_index == Some(interfaces@[i].index)
                &&& candidates@[at].priority == if leads_everywhere(
                    routes@,
                    interfaces@[i].index,
                ) {
                    100int
                } else {
                    90
                }
            },
        forall|later: int|
            at < later < candidates@.len() ==> {
                &&& candidates@[at].priority >= (#[trigger] candidates@[later]).priority
                &&& candidates@[at].address != candidates@[later].address
            },
{
    let hosts = hosts_of(interfaces@, routes@, port, interfaces@.len() as int);
    let (sorted, places) = choose|sorted: Seq<Host>, places: Seq<int>| #[trigger]
        put_in_order(hosts, sorted, places) && {
            &&& candidates@.len() == if max_candidates < sorted.len() {
                max_candidates as int
            } else {
                sorted.len() as int
            }
            &&& forall|i: int|
                0 <= i < candidates@.len() ==> (#[trigger] candidates@[i]).address == Some(
                    sorted[i].address,
                ) && candidates@[i].priority == sorted[i].priority
                    && candidates@[i].interface_index == Some(sorted[i].interface_index)
        };
    assert(sorted[at] == hosts[places[at]]);
    lemma_host_has_interface(interfaces@, routes@, port, interfaces@.len() as int, places[at]);
    let i = choose|i: int|
        0 <= i < interfaces@.len() && is_host_of(
            sorted[at],
            #[trigger] interfaces@[i],
            routes@,
            port,
        );
    assert(interfaces@[i].is_up);
    assert forall|later: int| at < later < candidates@.len() implies {
        &&& candidates@[at].priority >= (#[trigger] candidates@[later]).priority
        &&& candidates@[at].address != candidates@[later].address
    } by {
        assert(places[at] != places[later]);
        assert(!sorted[later].goes_ahead(sorted[at]));
        assert(sorted[later] == hosts[places[later]]);
        let all: int = interfaces@.len() as int;
        if places[at] < places[later] {
            lemma_hosts_differ(interfaces@, routes@, port, all, places[at], places[later]);
        } else {
            lemma_hosts_differ(interfaces@, routes@, port, all, places[later], places[at]);
        }
    }
}

/// Every interface that is up and not a loopback is among the hosts, and with a
/// port and room for one there is no lack of candidates.
pub proof fn law_every_interface_is_offered(
    interfaces: Vec<NetworkInterface>,
    routes: Vec<NetworkRoute>,
    snapshot: NetworkSnapshot,
    port: u16,
    max_candidates: usize,
    hosts: Vec<Host>,
    result: Result<Vec<Candidate>, ProbeError>,
    i: int,
)
    requires
        call_ensures(NetworkSnapshot::new, (interfaces, routes), snapshot),
        call_ensures(NetworkSnapshot::hosts, (&snapshot, port), hosts),
        call_ensures(NetworkSnapshot::candidates, (&snapshot, port, max_candidates), result),
        0 <= i < interfaces@.len(),
        interfaces@[i].is_up,
        !interfaces@[i].is_loopback,
    ensures
        exists|k: int|
            0 <= k < hosts@.len() && has_address(
                interfaces@[i],
                port,
                (#[trigger] hosts@[k]).address,
            ),
        port > 0 && max_candidates > 0 ==> result is Ok || result->Err_0
            == ProbeError::RandomnessUnavailable,
{
    let k = lemma_interface_has_host(interfaces@, routes@, port, interfaces@.len() as int, i);
    assert(has_address(interfaces@[i], port, hosts@[k].address));
}

/// Each kind of candidate has its own code.
pub proof fn law_each_kind_has_its_code(
    codes: KindCodes,
    host: u8,
    routed: u8,
    server: u8,
    peer: u8,
    relay: u8,
)
    requires
        call_ensures(KindCodes::code, (codes, CandidateKind::Host), host),
        call_ensures(KindCodes::code, (codes, CandidateKind::RoutedLan), routed),
        call_ensures(KindCodes::code, (codes, CandidateKind::ServerReflexive), server),
        call_ensures(KindCodes::code, (codes, CandidateKind::PeerReflexive), peer),
        call_ensures(KindCodes::code, (codes, CandidateKind::Relay), relay),
    ensures
        codes == (KindCodes {
            host,
            routed_lan: routed,
            server_reflexive: server,
            peer_reflexive: peer,
            relay,
        }),
{
}

/// The size of datagrams that a check tells is the size that it was made with.
pub proof fn law_checks_tell_the_size_they_were_made_with(config: &ProbeConfig, mtu: u16)
    requires
        call_ensures(ProbeConfig::mtu, (config,), mtu),
    ensures
        config.mtu_sample_size <= 65_535 ==> mtu == config.mtu_sample_size,
        config.mtu_sample_size > 65_535 ==> mtu == 65_535,
{
}

/// Interfaces are arranged by number, and by address where they have the same one;
/// of each number and address there is one, and none is left out.
pub proof fn law_interfaces_are_arranged(
    interfaces: &[NetworkInterface],
    places: Vec<usize>,
    first: int,
    second: int,
    any: int,
)
    requires
        call_ensures(arrange, (interfaces,), places),
        0 <= first < second < places@.len(),
        0 <= any < interfaces@.len(),
    ensures
        ({
            let one = interfaces@[places@[first] as int];
            let other = interfaces@[places@[second] as int];
            &&& one.index <= other.index
            &&& one.index == other.index ==> one.address != other.address
            &&& one.index == other.index && one.address is V6 ==> other.address is V6
            &&& one.index == other.index && one.address is V4 && other.address is V4
                ==> one.address->V4_0 < other.address->V4_0
            &&& one.index == other.index && one.address is V6 && other.address is V6
                ==> one.address->V6_0 < other.address->V6_0
        }),
        exists|k: int|
            {
                &&& 0 <= k < places@.len()
                &&& interfaces@[#[trigger] places@[k] as int].index == interfaces@[any].index
                &&& interfaces@[places@[k] as int].address == interfaces@[any].address
            },
{
    assert(is_kept(interfaces@, places@, any));
}

} // verus!
