//! What is read of the routes of a host, and what a digest of candidates tells apart.

use vstd::arithmetic::power2::{lemma2_to64, lemma_pow2_unfold, pow2};
use vstd::prelude::*;

use crate::bytes::{be_bytes, be_limit, law_be_read_gives_what_was_written, lemma_be_limits};
use crate::laws::law_written_addresses_differ;
use crate::net::{address_bytes, IpAddr, SocketAddr};
use crate::network_probe::candidate::{
    blake3_hash, candidate_bytes, candidate_digest, candidates_bytes, digest_bytes, digest_label,
    digest_message, Candidate, KindCodes,
};
use crate::network_probe::interface::{NetworkInterface, NetworkRoute};
use crate::network_probe::routes::{
    index_named, ones, pairs_value, prefix_len, read_ipv4_routes, read_linux_ipv6_routes, reversed,
    route_views, table_routes, RouteView, TableFamily,
};
use crate::sort::{law_order_is_the_same_from_any_start, put_in_order};
use crate::text::{lines, words};

verus! {

/// Shifting adds no ones.
proof fn lemma_ones_shifted(number: nat, places: nat)
    ensures
        ones(number * pow2(places)) == ones(number),
    decreases places,
{
    lemma2_to64();
    if places > 0 {
        lemma_ones_shifted(number, (places - 1) as nat);
        lemma_pow2_unfold(places);
        let less = number * pow2((places - 1) as nat);
        let whole = number * pow2(places);
        assert(whole == 2 * less) by (nonlinear_arith)
            requires
                whole == number * pow2(places),
                less == number * pow2((places - 1) as nat),
                pow2(places) == 2 * pow2((places - 1) as nat),
        ;
        assert(ones(whole) == ones(less)) by {
            if whole > 0 {
                assert(whole % 2 == 0 && whole / 2 == less);
            }
        }
    } else {
        assert(number * pow2(0) == number) by (nonlinear_arith)
            requires
                pow2(0) == 1,
        ;
    }
}

/// So many ones in a row.
proof fn lemma_ones_in_a_row(count: nat)
    ensures
        ones((pow2(count) - 1) as nat) == count,
        pow2(count) >= 1,
    decreases count,
{
    lemma2_to64();
    if count > 0 {
        lemma_ones_in_a_row((count - 1) as nat);
        lemma_pow2_unfold(count);
        let less = (pow2((count - 1) as nat) - 1) as nat;
        let whole = (pow2(count) - 1) as nat;
        assert(whole == 2 * less + 1);
        assert(whole % 2 == 1 && whole / 2 == less);
    }
}

/// A mask of so many leading ones has a prefix of that length.
pub proof fn law_mask_has_the_length_of_its_prefix(
    count: nat,
    bits: u32,
    wide_count: nat,
    wide_bits: u128,
    length: u8,
    wide_length: u8,
)
    requires
        count <= 32,
        bits == (pow2(count) - 1) * pow2((32 - count) as nat),
        wide_count <= 128,
        wide_bits == (pow2(wide_count) - 1) * pow2((128 - wide_count) as nat),
        call_ensures(prefix_len, (IpAddr::V4(bits),), length),
        call_ensures(prefix_len, (IpAddr::V6(wide_bits),), wide_length),
    ensures
        length == count,
        wide_length == wide_count,
{
    lemma_ones_in_a_row(count);
    lemma_ones_shifted((pow2(count) - 1) as nat, (32 - count) as nat);
    lemma_ones_in_a_row(wide_count);
    lemma_ones_shifted((pow2(wide_count) - 1) as nat, (128 - wide_count) as nat);
}

/// Turning the bytes of a number round twice gives the number, and its first byte
/// becomes its last.
pub proof fn law_turned_twice_is_unturned(a: u8, b: u8, c: u8, d: u8)
    ensures
        ({
            let number = (a * 0x100_0000 + b * 0x1_0000 + c * 0x100 + d) as u32;
            &&& reversed(number) == (d * 0x100_0000 + c * 0x1_0000 + b * 0x100 + a) as u32
            &&& reversed(reversed(number)) == number
        }),
{
    let number = (a * 0x100_0000 + b * 0x1_0000 + c * 0x100 + d) as u32;
    assert(number % 0x100 == d as u32);
    assert(number / 0x100 % 0x100 == c as u32);
    assert(number / 0x1_0000 % 0x100 == b as u32);
    assert(number / 0x100_0000 == a as u32);
    let turned = (d * 0x100_0000 + c * 0x1_0000 + b * 0x100 + a) as u32;
    assert(turned % 0x100 == a as u32);
    assert(turned / 0x100 % 0x100 == b as u32);
    assert(turned / 0x1_0000 % 0x100 == c as u32);
    assert(turned / 0x100_0000 == d as u32);
}

/// Whether a route is what it should be: a default one exactly if it leads to all
/// addresses, over a gateway only if that is one, and over the interface that has its
/// name.
pub open spec fn is_sound(route: RouteView, interfaces: Seq<NetworkInterface>) -> bool {
    &&& route.is_default <==> route.destination == IpAddr::V4(0) || route.destination
        == IpAddr::V6(0)
    &&& route.gateway is Some ==> route.gateway->0 != IpAddr::V4(0) && route.gateway->0
        != IpAddr::V6(0)
    &&& route.interface_index is Some ==> exists|i: int|
        0 <= i < interfaces.len() && (#[trigger] interfaces[i]).name@ == route.interface_name
            && interfaces[i].index == route.interface_index->0
    &&& route.interface_index is None ==> forall|i: int|
        0 <= i < interfaces.len() ==> (#[trigger] interfaces[i]).name@ != route.interface_name
}

proof fn lemma_index_named(interfaces: Seq<NetworkInterface>, name: Seq<char>, from: int)
    requires
        0 <= from,
    ensures
        match index_named(interfaces, name, from) {
            Some(index) => exists|i: int|
                from <= i < interfaces.len() && (#[trigger] interfaces[i]).name@ == name
                    && interfaces[i].index == index,
            None => forall|i: int|
                from <= i < interfaces.len() ==> (#[trigger] interfaces[i]).name@ != name,
        },
    decreases interfaces.len() - from,
{
    if from < interfaces.len() {
        if interfaces[from].name@ == name {
            assert(interfaces[from].index == interfaces[from].index);
        } else {
            lemma_index_named(interfaces, name, from + 1);
        }
    }
}

proof fn lemma_pairs_fit(text: Seq<char>, count: int)
    requires
        0 <= count,
    ensures
        pairs_value(text, count) matches Some(value) ==> value < be_limit(count as nat),
    decreases count,
{
    if count > 0 {
        lemma_pairs_fit(text, count - 1);
    }
}

proof fn lemma_routes_are_sound(
    table: Seq<Seq<char>>,
    interfaces: Seq<NetworkInterface>,
    family: TableFamily,
    from: int,
    to: int,
    at: int,
)
    requires
        0 <= at < table_routes(table, interfaces, family, from, to).len(),
    ensures
        is_sound(table_routes(table, interfaces, family, from, to)[at], interfaces),
        family is V4 <==> table_routes(table, interfaces, family, from, to)[at].destination is V4,
    decreases to - from,
{
    if to > from {
        let before = table_routes(table, interfaces, family, from, to - 1);
        let all = table_routes(table, interfaces, family, from, to);
        if at < before.len() {
            lemma_routes_are_sound(table, interfaces, family, from, to - 1, at);
            assert(all[at] == before[at]);
        } else {
            lemma_index_named(interfaces, all[at].interface_name, 0);
            lemma_be_limits();
            lemma_pairs_fit(words(table[to - 1])[0], 16);
            lemma_pairs_fit(words(table[to - 1])[4], 16);
        }
    }
}

/// Each route that is read leads where its table says it does: it is a default one
/// exactly if it leads to all addresses, its gateway is one, and its interface is the
/// one of its name.
pub proof fn law_read_routes_are_sound(
    table: &str,
    wide_table: &str,
    interfaces: &[NetworkInterface],
    reverses: bool,
    routes: Vec<NetworkRoute>,
    wide_routes: Vec<NetworkRoute>,
    at: int,
)
    requires
        call_ensures(read_ipv4_routes, (table, interfaces, reverses), routes),
        call_ensures(read_linux_ipv6_routes, (wide_table, interfaces), wide_routes),
    ensures
        0 <= at < routes@.len() ==> is_sound(routes@[at]@, interfaces@)
            && routes@[at].destination is V4,
        0 <= at < wide_routes@.len() ==> is_sound(wide_routes@[at]@, interfaces@)
            && wide_routes@[at].destination is V6,
{
    if 0 <= at < routes@.len() {
        let count = lines(table@).len() as int;
        let family = TableFamily::V4 { reverses };
        assert(route_views(routes@)[at] == routes@[at]@);
        lemma_routes_are_sound(lines(table@), interfaces@, family, 1, count, at);
    }
    if 0 <= at < wide_routes@.len() {
        let count = lines(wide_table@).len() as int;
        assert(route_views(wide_routes@)[at] == wide_routes@[at]@);
        lemma_routes_are_sound(
            lines(wide_table@),
            interfaces@,
            TableFamily::V6,
            0,
            count,
            at,
        );
    }
}

/// The digest of candidates does not depend on their order, as long as no two have
/// the same name.
pub proof fn law_digest_does_not_depend_on_order(
    one: &Vec<Candidate>,
    other: &Vec<Candidate>,
    codes: KindCodes,
    digest: [u8; 32],
    other_digest: [u8; 32],
)
    requires
        one@.to_multiset() == other@.to_multiset(),
        forall|i: int, j: int|
            0 <= i < one@.len() && 0 <= j < one@.len() && i != j ==> (
            #[trigger] one@[i]).id.value != (#[trigger] one@[j]).id.value,
        call_ensures(candidate_digest, (one, codes), digest),
        call_ensures(candidate_digest, (other, codes), other_digest),
    ensures
        digest@ == other_digest@,
{
    let (sorted, places) = choose|sorted: Seq<Candidate>, places: Seq<int>| #[trigger]
        put_in_order(one@, sorted, places) && digest@ == blake3_hash(
            digest_message(sorted, codes),
        )@;
    let (other_sorted, other_places) = choose|sorted: Seq<Candidate>, places: Seq<int>| #[trigger]
        put_in_order(other@, sorted, places) && other_digest@ == blake3_hash(
            digest_message(sorted, codes),
        )@;
    law_order_is_the_same_from_any_start(
        one@,
        other@,
        sorted,
        other_sorted,
        places,
        other_places,
    );
}

/// Whether each kind has a code of its own.
pub open spec fn are_distinct(codes: KindCodes) -> bool {
    &&& codes.host != codes.routed_lan
    &&& codes.host != codes.server_reflexive
    &&& codes.host != codes.peer_reflexive
    &&& codes.host != codes.relay
    &&& codes.routed_lan != codes.server_reflexive
    &&& codes.routed_lan != codes.peer_reflexive
    &&& codes.routed_lan != codes.relay
    &&& codes.server_reflexive != codes.peer_reflexive
    &&& codes.server_reflexive != codes.relay
    &&& codes.peer_reflexive != codes.relay
}

/// Whether two candidates are the same but for an interface that is named by the
/// highest number or not at all.
pub open spec fn is_same_candidate(one: Candidate, other: Candidate) -> bool {
    &&& one.id == other.id
    &&& one.kind == other.kind
    &&& one.address == other.address
    &&& one.priority == other.priority
    &&& one.interface_index == other.interface_index || ((one.interface_index is None
        || one.interface_index == Some(u32::MAX)) && (other.interface_index is None
        || other.interface_index == Some(u32::MAX)))
}

/// Bytes of one length in front of others are told apart.
proof fn lemma_fronts_differ(one: Seq<u8>, behind: Seq<u8>, other: Seq<u8>, its_behind: Seq<u8>)
    requires
        one.len() == other.len(),
        one + behind == other + its_behind,
    ensures
        one == other,
        behind == its_behind,
{
    let all = one + behind;
    let length = one.len() as int;
    assert(one =~= all.subrange(0, length));
    assert(other =~= all.subrange(0, length));
    assert(behind =~= all.subrange(length, all.len() as int));
    assert(its_behind =~= all.subrange(length, all.len() as int));
}

/// Numbers of one length in front of other bytes are told apart.
proof fn lemma_numbers_differ(
    one: nat,
    behind: Seq<u8>,
    other: nat,
    its_behind: Seq<u8>,
    length: nat,
)
    requires
        one < be_limit(length),
        other < be_limit(length),
        be_bytes(one, length) + behind == be_bytes(other, length) + its_behind,
    ensures
        one == other,
        behind == its_behind,
{
    law_be_read_gives_what_was_written(one, length);
    law_be_read_gives_what_was_written(other, length);
    lemma_fronts_differ(be_bytes(one, length), behind, be_bytes(other, length), its_behind);
}

/// How an address is written, or that there is none.
spec fn place_bytes(address: Option<SocketAddr>) -> Seq<u8> {
    match address {
        None => seq![0u8],
        Some(address) => address_bytes(address),
    }
}

proof fn lemma_places_differ(
    one: Option<SocketAddr>,
    behind: Seq<u8>,
    other: Option<SocketAddr>,
    its_behind: Seq<u8>,
)
    requires
        place_bytes(one) + behind == place_bytes(other) + its_behind,
    ensures
        one == other,
        behind == its_behind,
{
    let all = place_bytes(one) + behind;
    assert(place_bytes(one)[0] == if one is None {
        0u8
    } else if one->0 is V4 {
        4u8
    } else {
        6u8
    });
    assert(place_bytes(other)[0] == if other is None {
        0u8
    } else if other->0 is V4 {
        4u8
    } else {
        6u8
    });
    assert(place_bytes(one).len() > 0 && place_bytes(other).len() > 0);
    assert(all[0] == place_bytes(one)[0]);
    assert(all[0] == place_bytes(other)[0]);
    if one is Some && other is Some {
        law_written_addresses_differ(one->0, other->0, behind, its_behind);
    } else if one is None && other is None {
        lemma_fronts_differ(seq![0u8], behind, seq![0u8], its_behind);
    }
}

/// The number that names an interface, or that there is none.
spec fn index_number(index: Option<u32>) -> nat {
    match index {
        Some(index) => index as nat,
        None => u32::MAX as nat,
    }
}

/// A written candidate tells itself apart from others, whatever follows.
proof fn lemma_written_candidates_differ(
    one: Candidate,
    other: Candidate,
    codes: KindCodes,
    behind_one: Seq<u8>,
    behind_other: Seq<u8>,
)
    requires
        are_distinct(codes),
        candidate_bytes(one, codes) + behind_one == candidate_bytes(other, codes) + behind_other,
    ensures
        is_same_candidate(one, other),
        behind_one == behind_other,
{
    let index = index_number(one.interface_index);
    let its_index = index_number(other.interface_index);
    let fourth = be_bytes(index, 4) + behind_one;
    let its_fourth = be_bytes(its_index, 4) + behind_other;
    let third = be_bytes(one.priority as nat, 2) + fourth;
    let its_third = be_bytes(other.priority as nat, 2) + its_fourth;
    let second = place_bytes(one.address) + third;
    let its_second = place_bytes(other.address) + its_third;
    let first = seq![codes.spec_code(one.kind)] + second;
    let its_first = seq![codes.spec_code(other.kind)] + its_second;
    assert(candidate_bytes(one, codes) + behind_one =~= be_bytes(one.id.value as nat, 16) + first);
    assert(candidate_bytes(other, codes) + behind_other =~= be_bytes(other.id.value as nat, 16)
        + its_first);
    lemma_be_limits();
    lemma_numbers_differ(one.id.value as nat, first, other.id.value as nat, its_first, 16);
    lemma_fronts_differ(
        seq![codes.spec_code(one.kind)],
        second,
        seq![codes.spec_code(other.kind)],
        its_second,
    );
    assert(seq![codes.spec_code(one.kind)][0] == seq![codes.spec_code(other.kind)][0]);
    lemma_places_differ(one.address, third, other.address, its_third);
    lemma_numbers_differ(one.priority as nat, fourth, other.priority as nat, its_fourth, 2);
    lemma_numbers_differ(index, behind_one, its_index, behind_other, 4);
}

/// Written candidates begin with the first of them.
proof fn lemma_first_is_written_first(candidates: Seq<Candidate>, codes: KindCodes, count: int)
    requires
        0 < count <= candidates.len(),
    ensures
        candidates_bytes(candidates, codes, count) == candidate_bytes(candidates[0], codes)
            + candidates_bytes(candidates.drop_first(), codes, count - 1),
    decreases count,
{
    let rest = candidates.drop_first();
    if count == 1 {
        assert(candidates_bytes(candidates, codes, 0) =~= Seq::<u8>::empty());
        assert(candidates_bytes(rest, codes, 0) =~= Seq::<u8>::empty());
        assert(candidates_bytes(candidates, codes, 1) =~= candidate_bytes(candidates[0], codes));
        assert(candidate_bytes(candidates[0], codes) + Seq::<u8>::empty() =~= candidate_bytes(
            candidates[0],
            codes,
        ));
    } else {
        lemma_first_is_written_first(candidates, codes, count - 1);
        assert(rest[count - 2] == candidates[count - 1]);
        assert(candidates_bytes(candidates, codes, count) =~= candidate_bytes(
            candidates[0],
            codes,
        ) + candidates_bytes(rest, codes, count - 1));
    }
}

proof fn lemma_written_lists_differ(one: Seq<Candidate>, other: Seq<Candidate>, codes: KindCodes)
    requires
        are_distinct(codes),
        candidates_bytes(one, codes, one.len() as int) == candidates_bytes(
            other,
            codes,
            other.len() as int,
        ),
    ensures
        one.len() == other.len(),
        forall|i: int| 0 <= i < one.len() ==> is_same_candidate(#[trigger] one[i], other[i]),
    decreases one.len(),
{
    if one.len() > 0 && other.len() > 0 {
        lemma_first_is_written_first(one, codes, one.len() as int);
        lemma_first_is_written_first(other, codes, other.len() as int);
        let rest = one.drop_first();
        let its_rest = other.drop_first();
        lemma_written_candidates_differ(
            one[0],
            other[0],
            codes,
            candidates_bytes(rest, codes, rest.len() as int),
            candidates_bytes(its_rest, codes, its_rest.len() as int),
        );
        lemma_written_lists_differ(rest, its_rest, codes);
        assert forall|i: int| 0 <= i < one.len() implies is_same_candidate(
            #[trigger] one[i],
            other[i],
        ) by {
            if i > 0 {
                assert(rest[i - 1] == one[i]);
                assert(its_rest[i - 1] == other[i]);
            }
        }
    } else if one.len() > 0 {
        lemma_first_is_written_first(one, codes, one.len() as int);
        lemma_be_limits();
        law_be_read_gives_what_was_written(one[0].id.value as nat, 16);
        assert(candidates_bytes(other, codes, 0).len() == 0);
    } else if other.len() > 0 {
        lemma_first_is_written_first(other, codes, other.len() as int);
        lemma_be_limits();
        law_be_read_gives_what_was_written(other[0].id.value as nat, 16);
        assert(candidates_bytes(one, codes, 0).len() == 0);
    }
}

/// What a digest is made of tells lists apart: the same is hashed for two of them only
/// if they have the same candidates, with the same names, kinds, addresses and
/// priorities.
pub proof fn law_digest_is_of_the_whole_list(
    one: &Vec<Candidate>,
    other: &Vec<Candidate>,
    codes: KindCodes,
    message: Vec<u8>,
    other_message: Vec<u8>,
)
    requires
        are_distinct(codes),
        call_ensures(digest_bytes, (one, codes), message),
        call_ensures(digest_bytes, (other, codes), other_message),
        message@ == other_message@,
    ensures
        one@.len() == other@.len(),
        forall|i: int| 0 <= i < one@.len() ==> is_same_candidate(#[trigger] one@[i], other@[i]),
{
    let label = digest_label().len() as int;
    let bytes = candidates_bytes(one@, codes, one@.len() as int);
    let its_bytes = candidates_bytes(other@, codes, other@.len() as int);
    assert(message@.subrange(label, message@.len() as int) =~= bytes);
    assert(other_message@.subrange(label, other_message@.len() as int) =~= its_bytes);
    lemma_written_lists_differ(one@, other@, codes);
}

} // verus!
