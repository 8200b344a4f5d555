//! Addresses at which a side may be reached, and how they pair up.

use vstd::prelude::*;

use crate::bytes::{append_bytes, be_bytes, push_be};
use crate::ids::{CandidateId, CheckToken, TransferId};
use crate::net::{
    address_bytes, encode_addr, is_optional_before, optional_before, IpAddr, SocketAddr,
};
use crate::network_probe::error::ProbeError;
use crate::reliable_core::lesser;
use crate::sort::{law_order_is_the_same_from_any_start, put_in_order, sort, Ranked};

verus! {

/// The BLAKE3 hash of a message.
pub uninterp spec fn blake3_hash(message: Seq<u8>) -> [u8; 32];

/// `blake3::hash`: the hash depends on the message alone.
#[verifier::external_body]
fn hash_of(message: &[u8]) -> (hash: [u8; 32])
    ensures
        hash@ == blake3_hash(message@)@,
{
    *blake3::hash(message).as_bytes()
}

/// How an address came to be known.
#[derive(Debug, Clone, Copy, PartialEq, Eq, Structural, Hash)]
pub enum CandidateKind {
    Host,
    RoutedLan,
    ServerReflexive,
    PeerReflexive,
    Relay,
}

/// The bytes that stand for the kinds of candidates.
#[derive(Debug, Clone, Copy, PartialEq, Eq, Structural)]
pub struct KindCodes {
    pub host: u8,
    pub routed_lan: u8,
    pub server_reflexive: u8,
    pub peer_reflexive: u8,
    pub relay: u8,
}

impl KindCodes {
    /// The byte that stands for a kind.
    pub open spec fn spec_code(self, kind: CandidateKind) -> u8 {
        match kind {
            CandidateKind::Host => self.host,
            CandidateKind::RoutedLan => self.routed_lan,
            CandidateKind::ServerReflexive => self.server_reflexive,
            CandidateKind::PeerReflexive => self.peer_reflexive,
            CandidateKind::Relay => self.relay,
        }
    }

    /// The byte that stands for a kind.
    pub fn code(self, kind: CandidateKind) -> (code: u8)
        ensures
            code == self.spec_code(kind),
    {
        match kind {
            CandidateKind::Host => self.host,
            CandidateKind::RoutedLan => self.routed_lan,
            CandidateKind::ServerReflexive => self.server_reflexive,
            CandidateKind::PeerReflexive => self.peer_reflexive,
            CandidateKind::Relay => self.relay,
        }
    }
}

/// An address at which a side may be reached.
#[derive(Debug, Clone, Copy, PartialEq, Eq, Structural)]
pub struct Candidate {
    pub id: CandidateId,
    pub kind: CandidateKind,
    pub address: Option<SocketAddr>,
    pub priority: u16,
    pub interface_index: Option<u32>,
}

impl Ranked for Candidate {
    open spec fn goes_ahead(self, other: Self) -> bool {
        self.id.value < other.id.value
    }

    proof fn lemma_order(first: Self, second: Self, third: Self) {
    }

    fn is_ahead(&self, other: &Self) -> (ahead: bool) {
        self.id.value < other.id.value
    }
}

/// What a path goes over.
#[derive(Debug, Clone, Copy, PartialEq, Eq, Structural, Hash)]
pub enum PathKind {
    Host,
    RoutedLan,
    ReflexiveDirect,
    Relay,
}

/// What a path over this is worth.
pub open spec fn spec_path_priority(kind: PathKind) -> u32 {
    match kind {
        PathKind::Host => 100,
        PathKind::RoutedLan => 90,
        PathKind::ReflexiveDirect => 70,
        PathKind::Relay => 10,
    }
}

/// What a path over this is worth.
pub fn path_priority(kind: PathKind) -> (priority: u32)
    ensures
        priority == spec_path_priority(kind),
{
    match kind {
        PathKind::Host => 100,
        PathKind::RoutedLan => 90,
        PathKind::ReflexiveDirect => 70,
        PathKind::Relay => 10,
    }
}

/// A candidate of each side.
#[derive(Debug, Clone, Copy, PartialEq, Eq, Structural)]
pub struct CandidatePair {
    pub local: Candidate,
    pub remote: Candidate,
    pub kind: PathKind,
    pub priority: u32,
}

impl Ranked for CandidatePair {
    open spec fn goes_ahead(self, other: Self) -> bool {
        self.priority > other.priority || (self.priority == other.priority && (optional_before(
            self.remote.address,
            other.remote.address,
        ) || (self.remote.address == other.remote.address && optional_before(
            self.local.address,
            other.local.address,
        ))))
    }

    proof fn lemma_order(first: Self, second: Self, third: Self) {
    }

    fn is_ahead(&self, other: &Self) -> (ahead: bool) {
        self.priority > other.priority || (self.priority == other.priority && (is_optional_before(
            self.remote.address,
            other.remote.address,
        ) || (self.remote.address == other.remote.address && is_optional_before(
            self.local.address,
            other.local.address,
        ))))
    }
}

/// Whether two hosts are in one network: they share the first three of four
/// bytes, or the first eight of sixteen.
pub open spec fn spec_same_subnet(left: IpAddr, right: IpAddr) -> bool {
    match (left, right) {
        (IpAddr::V4(left), IpAddr::V4(right)) => left / 0x100 == right / 0x100,
        (IpAddr::V6(left), IpAddr::V6(right)) => left / 0x1_0000_0000_0000_0000 == right
            / 0x1_0000_0000_0000_0000,
        _ => false,
    }
}

/// Whether two hosts are in one network.
pub fn same_subnet(left: IpAddr, right: IpAddr) -> (same: bool)
    ensures
        same == spec_same_subnet(left, right),
{
    match (left, right) {
        (IpAddr::V4(left), IpAddr::V4(right)) => left / 0x100 == right / 0x100,
        (IpAddr::V6(left), IpAddr::V6(right)) => left / 0x1_0000_0000_0000_0000 == right
            / 0x1_0000_0000_0000_0000,
        _ => false,
    }
}

/// Whether a candidate was seen from outside.
pub open spec fn is_reflexive(kind: CandidateKind) -> bool {
    kind == CandidateKind::ServerReflexive || kind == CandidateKind::PeerReflexive
}

/// What the path between two candidates goes over.
pub open spec fn spec_pair_kind(local: Candidate, remote: Candidate) -> PathKind {
    if local.kind == CandidateKind::Relay || remote.kind == CandidateKind::Relay {
        PathKind::Relay
    } else if is_reflexive(local.kind) || is_reflexive(remote.kind) {
        PathKind::ReflexiveDirect
    } else if spec_same_subnet(local.address->0.spec_ip(), remote.address->0.spec_ip()) {
        PathKind::Host
    } else {
        PathKind::RoutedLan
    }
}

/// The pair of two candidates, if both have an address.
pub open spec fn pair_of(local: Candidate, remote: Candidate) -> Option<CandidatePair> {
    if local.address is None || remote.address is None {
        None
    } else {
        let kind = spec_pair_kind(local, remote);
        Some(
            CandidatePair {
                local,
                remote,
                kind,
                priority: (local.priority + remote.priority + spec_path_priority(kind)) as u32,
            },
        )
    }
}

/// The pairs of one candidate with the first `count` of the other side.
pub open spec fn pairs_with(local: Candidate, remote: Seq<Candidate>, count: int) -> Seq<
    CandidatePair,
>
    decreases count,
{
    if count <= 0 {
        Seq::empty()
    } else {
        let before = pairs_with(local, remote, count - 1);
        match pair_of(local, remote[count - 1]) {
            Some(pair) => before.push(pair),
            None => before,
        }
    }
}

/// The pairs of the first `count` candidates with those of the other side.
pub open spec fn all_pairs(local: Seq<Candidate>, remote: Seq<Candidate>, count: int) -> Seq<
    CandidatePair,
>
    decreases count,
{
    if count <= 0 {
        Seq::empty()
    } else {
        all_pairs(local, remote, count - 1) + pairs_with(
            local[count - 1],
            remote,
            remote.len() as int,
        )
    }
}

/// `best` are the first of all pairs in order, at most `max_pairs`.
pub open spec fn best_pairs(
    local: Seq<Candidate>,
    remote: Seq<Candidate>,
    max_pairs: usize,
    best: Seq<CandidatePair>,
) -> bool {
    let all = all_pairs(local, remote, local.len() as int);
    exists|sorted: Seq<CandidatePair>, places: Seq<int>| #[trigger]
        put_in_order(all, sorted, places) && best == sorted.subrange(
            0,
            lesser(max_pairs as int, sorted.len() as int),
        )
}

/// The pairs of the candidates of both sides that have addresses, the best first.
pub fn pair_candidates(local: &[Candidate], remote: &[Candidate], max_pairs: usize) -> (pairs: Vec<
    CandidatePair,
>)
    ensures
        best_pairs(local@, remote@, max_pairs, pairs@),
{
    let mut all: Vec<CandidatePair> = Vec::new();
    let mut index: usize = 0;
    while index < local.len()
        invariant
            index <= local@.len(),
            all@ == all_pairs(local@, remote@, index as int),
        decreases local@.len() - index,
    {
        let ghost before = all@;
        let mut other: usize = 0;
        assert(all@ =~= before + pairs_with(local@[index as int], remote@, 0));
        while other < remote.len()
            invariant
                index < local@.len(),
                other <= remote@.len(),
                all@ == before + pairs_with(local@[index as int], remote@, other as int),
            decreases remote@.len() - other,
        {
            match pair(local[index], remote[other]) {
                Some(pair) => all.push(pair),
                None => {},
            }
            other = other + 1;
            assert(all@ =~= before + pairs_with(local@[index as int], remote@, other as int));
        }
        index = index + 1;
    }
    let mut pairs: Vec<CandidatePair> = sort(&all);
    let ghost sorted = pairs@;
    if pairs.len() > max_pairs {
        pairs.truncate(max_pairs);
    }
    proof {
        let places = choose|places: Seq<int>| #[trigger] put_in_order(all@, sorted, places);
        assert(put_in_order(all@, sorted, places));
        assert(pairs@ =~= sorted.subrange(0, lesser(max_pairs as int, sorted.len() as int)));
    }
    pairs
}

/// The pair of two candidates, if both have an address.
fn pair(local: Candidate, remote: Candidate) -> (pair: Option<CandidatePair>)
    ensures
        pair == pair_of(local, remote),
{
    match (local.address, remote.address) {
        (Some(local_address), Some(remote_address)) => {
            let kind = pair_kind(local, remote, local_address, remote_address);
            let priority: u32 = (local.priority as u32).saturating_add(
                remote.priority as u32,
            ).saturating_add(path_priority(kind));
            Some(CandidatePair { local, remote, kind, priority })
        },
        _ => None,
    }
}

/// What the path between two candidates goes over.
fn pair_kind(
    local: Candidate,
    remote: Candidate,
    local_address: SocketAddr,
    remote_address: SocketAddr,
) -> (kind: PathKind)
    requires
        local.address == Some(local_address),
        remote.address == Some(remote_address),
    ensures
        kind == spec_pair_kind(local, remote),
{
    if local.kind == CandidateKind::Relay || remote.kind == CandidateKind::Relay {
        return PathKind::Relay;
    }
    if local.kind == CandidateKind::ServerReflexive || local.kind == CandidateKind::PeerReflexive
        || remote.kind == CandidateKind::ServerReflexive || remote.kind
        == CandidateKind::PeerReflexive {
        return PathKind::ReflexiveDirect;
    }
    if same_subnet(local_address.ip(), remote_address.ip()) {
        PathKind::Host
    } else {
        PathKind::RoutedLan
    }
}

/// The bytes with which what is hashed begins.
pub open spec fn digest_label() -> Seq<u8> {
    seq![
        0x75, 0x64, 0x70, 0x2d, 0x74, 0x72, 0x61, 0x6e, 0x73, 0x66, 0x65, 0x72, 0x2d,
        0x63, 0x61, 0x6e, 0x64, 0x69, 0x64, 0x61, 0x74, 0x65, 0x73, 0x2d, 0x76, 0x31,
        0x00,
    ]
}

/// The bytes of a candidate as they are hashed.
pub open spec fn candidate_bytes(candidate: Candidate, codes: KindCodes) -> Seq<u8> {
    be_bytes(candidate.id.value as nat, 16) + seq![codes.spec_code(candidate.kind)] + (
    match candidate.address {
        None => seq![0u8],
        Some(address) => address_bytes(address),
    }) + be_bytes(candidate.priority as nat, 2) + be_bytes(
        match candidate.interface_index {
            Some(index) => index as nat,
            None => u32::MAX as nat,
        },
        4,
    )
}

/// The bytes of the first `count` candidates.
pub open spec fn candidates_bytes(
    candidates: Seq<Candidate>,
    codes: KindCodes,
    count: int,
) -> Seq<u8>
    decreases count,
{
    if count <= 0 {
        Seq::empty()
    } else {
        candidates_bytes(candidates, codes, count - 1) + candidate_bytes(
            candidates[count - 1],
            codes,
        )
    }
}

/// What is hashed of candidates that are in order.
pub open spec fn digest_message(sorted: Seq<Candidate>, codes: KindCodes) -> Seq<u8> {
    digest_label() + candidates_bytes(sorted, codes, sorted.len() as int)
}

/// The digest of candidates, whatever the order they are in.
pub open spec fn is_digest(candidates: Seq<Candidate>, codes: KindCodes, digest: Seq<u8>) -> bool {
    exists|sorted: Seq<Candidate>, places: Seq<int>| #[trigger]
        put_in_order(candidates, sorted, places) && digest == blake3_hash(
            digest_message(sorted, codes),
        )@
}

/// The digest of candidates: they are hashed in the order of their names.
pub fn candidate_digest(candidates: &Vec<Candidate>, codes: KindCodes) -> (digest: [u8; 32])
    ensures
        is_digest(candidates@, codes, digest@),
{
    let sorted: Vec<Candidate> = sort(candidates);
    let message = digest_bytes(&sorted, codes);
    let digest = hash_of(&message);
    proof {
        let places = choose|places: Seq<int>| #[trigger]
            put_in_order(candidates@, sorted@, places);
        assert(put_in_order(candidates@, sorted@, places));
    }
    digest
}

/// What is hashed of candidates that are in order.
pub fn digest_bytes(sorted: &Vec<Candidate>, codes: KindCodes) -> (message: Vec<u8>)
    ensures
        message@ == digest_message(sorted@, codes),
{
    let mut message: Vec<u8> = vec![
        0x75, 0x64, 0x70, 0x2d, 0x74, 0x72, 0x61, 0x6e, 0x73, 0x66, 0x65, 0x72, 0x2d,
        0x63, 0x61, 0x6e, 0x64, 0x69, 0x64, 0x61, 0x74, 0x65, 0x73, 0x2d, 0x76, 0x31,
        0x00,
    ];
    assert(message@ =~= digest_label());
    assert(message@ =~= digest_label() + candidates_bytes(sorted@, codes, 0));
    let mut index: usize = 0;
    while index < sorted.len()
        invariant
            index <= sorted@.len(),
            message@ == digest_label() + candidates_bytes(sorted@, codes, index as int),
        decreases sorted@.len() - index,
    {
        let candidate = sorted[index];
        let ghost before = message@;
        let id: Vec<u8> = candidate.id.octets();
        append_bytes(&mut message, &id);
        message.push(codes.code(candidate.kind));
        match candidate.address {
            None => message.push(0),
            Some(address) => encode_addr(&mut message, address),
        }
        push_be(&mut message, candidate.priority as u128, 2);
        let interface: u32 = match candidate.interface_index {
            Some(index) => index,
            None => u32::MAX,
        };
        push_be(&mut message, interface as u128, 4);
        index = index + 1;
        assert(message@ =~= before + candidate_bytes(candidate, codes));
        assert(message@ =~= digest_label() + candidates_bytes(sorted@, codes, index as int));
    }
    message
}

/// The digest of candidates with different names does not depend on the order
/// they are in.
pub proof fn law_digest_ignores_the_order(
    one: Seq<Candidate>,
    other: Seq<Candidate>,
    codes: KindCodes,
    one_digest: Seq<u8>,
    other_digest: Seq<u8>,
)
    requires
        one.to_multiset() == other.to_multiset(),
        forall|i: int, j: int|
            0 <= i < one.len() && 0 <= j < one.len() && i != j ==> (#[trigger] one[i]).id != (
            #[trigger] one[j]).id,
        is_digest(one, codes, one_digest),
        is_digest(other, codes, other_digest),
    ensures
        one_digest == other_digest,
{
    let (one_sorted, one_places) = choose|sorted: Seq<Candidate>, places: Seq<int>| #[trigger]
        put_in_order(one, sorted, places) && one_digest == blake3_hash(
            digest_message(sorted, codes),
        )@;
    let (other_sorted, other_places) = choose|sorted: Seq<Candidate>, places: Seq<int>| #[trigger]
        put_in_order(other, sorted, places) && other_digest == blake3_hash(
            digest_message(sorted, codes),
        )@;
    assert forall|i: int, j: int| 0 <= i < one.len() && 0 <= j < one.len() && i != j implies (
    #[trigger] one[i]).goes_ahead(#[trigger] one[j]) || one[j].goes_ahead(one[i]) by {
        assert(one[i].id != one[j].id);
    }
    law_order_is_the_same_from_any_start(
        one,
        other,
        one_sorted,
        other_sorted,
        one_places,
        other_places,
    );
}

/// No pair that was left out goes ahead of one that was taken.
pub proof fn law_best_pairs_are_taken(
    local: Seq<Candidate>,
    remote: Seq<Candidate>,
    max_pairs: usize,
    best: Seq<CandidatePair>,
)
    requires
        best_pairs(local, remote, max_pairs, best),
    ensures
        best.len() == lesser(
            max_pairs as int,
            all_pairs(local, remote, local.len() as int).len() as int,
        ),
        forall|i: int, j: int|
            0 <= i < j < best.len() ==> !(#[trigger] best[j]).goes_ahead(#[trigger] best[i]),
        exists|places: Seq<int>| #[trigger]
            taken_from(all_pairs(local, remote, local.len() as int), best, places),
{
    let all = all_pairs(local, remote, local.len() as int);
    let (sorted, places) = choose|sorted: Seq<CandidatePair>, places: Seq<int>| #[trigger]
        put_in_order(all, sorted, places) && best == sorted.subrange(
            0,
            lesser(max_pairs as int, sorted.len() as int),
        );
    assert forall|i: int, j: int| 0 <= i < j < best.len() implies !(
    #[trigger] best[j]).goes_ahead(#[trigger] best[i]) by {
        assert(places[i] != places[j]);
    }
    assert forall|i: int, out: int|
        0 <= i < best.len() && 0 <= out < all.len() && !places.subrange(
            0,
            best.len() as int,
        ).contains(out) implies !(#[trigger] all[out]).goes_ahead(#[trigger] best[i]) by {
        lemma_place_of(all, sorted, places, out);
        let k = choose|k: int| 0 <= k < sorted.len() && #[trigger] places[k] == out;
        if k < best.len() {
            assert(places.subrange(0, best.len() as int)[k] == out);
        }
        assert(places[i] != places[k]);
    }
    assert(taken_from(all, best, places));
}

/// `best` are items of `all`, and none that was left out goes ahead of one of
/// them.
pub open spec fn taken_from(
    all: Seq<CandidatePair>,
    best: Seq<CandidatePair>,
    places: Seq<int>,
) -> bool {
    &&& best.len() <= places.len()
    &&& forall|i: int|
        0 <= i < best.len() ==> 0 <= #[trigger] places[i] < all.len() && best[i] == all[places[i]]
    &&& forall|i: int, out: int|
        0 <= i < best.len() && 0 <= out < all.len() && !places.subrange(
            0,
            best.len() as int,
        ).contains(out) ==> !(#[trigger] all[out]).goes_ahead(#[trigger] best[i])
}

/// Each item has gone somewhere.
proof fn lemma_place_of(
    before: Seq<CandidatePair>,
    after: Seq<CandidatePair>,
    places: Seq<int>,
    out: int,
)
    requires
        put_in_order(before, after, places),
        0 <= out < before.len(),
    ensures
        exists|k: int| 0 <= k < after.len() && #[trigger] places[k] == out,
{
    let all = vstd::set_lib::set_int_range(0, before.len() as int);
    vstd::set_lib::lemma_int_range(0, before.len() as int);
    assert(places.no_duplicates()) by {
        assert forall|i: int, j: int|
            0 <= i < places.len() && 0 <= j < places.len() && i != j implies places[i]
            != places[j] by {
            if i < j {
                assert(places[i] != places[j]);
            } else {
                assert(places[j] != places[i]);
            }
        }
    }
    places.unique_seq_to_set();
    assert(places.to_set().subset_of(all)) by {
        assert forall|place: int| places.to_set().contains(place) implies all.contains(place) by {
            let i = places.index_of(place);
            assert(places[i] == place);
        }
    }
    vstd::set_lib::lemma_subset_equality(places.to_set(), all);
    assert(places.to_set().contains(out));
    let k = places.index_of(out);
    assert(places[k] == out);
}

/// The candidates of both sides.
#[derive(Debug, Clone, PartialEq, Eq)]
pub struct CandidateExchange {
    pub transfer_id: TransferId,
    pub local: Vec<Candidate>,
    pub remote: Vec<Candidate>,
    pub digest: [u8; 32],
    pub check_token: CheckToken,
}

impl CandidateExchange {
    /// The candidates of both sides, of which there must be some.
    pub fn new(
        transfer_id: TransferId,
        local: Vec<Candidate>,
        remote: Vec<Candidate>,
        check_token: CheckToken,
        codes: KindCodes,
    ) -> (result: Result<Self, ProbeError>)
        ensures
            match result {
                Ok(exchange) => {
                    &&& local@.len() > 0
                    &&& remote@.len() > 0
                    &&& exchange.transfer_id == transfer_id
                    &&& exchange.local@ == local@
                    &&& exchange.remote@ == remote@
                    &&& exchange.check_token == check_token
                    &&& is_digest(local@, codes, exchange.digest@)
                },
                Err(error) => (local@.len() == 0 || remote@.len() == 0) && error
                    == ProbeError::NoCandidates,
            },
    {
        if local.len() == 0 || remote.len() == 0 {
            return Err(ProbeError::NoCandidates);
        }
        let digest = candidate_digest(&local, codes);
        Ok(CandidateExchange { transfer_id, local, remote, digest, check_token })
    }

    /// The pairs of the candidates, the best first.
    pub fn pairs(&self, max_pairs: usize) -> (pairs: Vec<CandidatePair>)
        ensures
            best_pairs(self.local@, self.remote@, max_pairs, pairs@),
    {
        pair_candidates(&self.local, &self.remote, max_pairs)
    }
}

} // verus!
