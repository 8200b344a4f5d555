//! What numbers, names, addresses and durations come to.

use vstd::arithmetic::div_mod::lemma_fundamental_div_mod_converse;
use vstd::prelude::*;

use crate::bytes::{
    be_bytes, be_limit, be_value, law_be_read_gives_what_was_written,
    law_be_write_gives_what_was_read, lemma_be_len, lemma_be_limits, push_be, read_be,
};
use crate::duration::Duration;
use crate::ids::Id;
use crate::net::{address_bytes, encode_addr, is_before, is_optional_before, IpAddr, SocketAddr};

verus! {

/// The first byte of a number counts most: each of its units is worth one more than
/// all that the bytes behind it can write.
pub proof fn law_first_byte_counts_most(first: u8, rest: Seq<u8>)
    ensures
        be_value(seq![first] + rest) == first * be_limit(rest.len()) + be_value(rest),
        be_value(rest) < be_limit(rest.len()),
    decreases rest.len(),
{
    let all = seq![first] + rest;
    law_be_write_gives_what_was_read(rest);
    if rest.len() == 0 {
        assert(all.drop_last() =~= Seq::<u8>::empty());
    } else {
        law_first_byte_counts_most(first, rest.drop_last());
        assert(all.drop_last() =~= seq![first] + rest.drop_last());
        let limit = be_limit(rest.drop_last().len());
        let tail = be_value(rest.drop_last());
        let byte: nat = first as nat;
        assert((byte * limit + tail) * 256 == byte * (limit * 256) + tail * 256)
            by (nonlinear_arith);
    }
}

/// A number that is appended to bytes is read from there again.
pub proof fn law_appended_number_is_read_again(
    bytes: &mut Vec<u8>,
    value: u128,
    length: usize,
    whole: &[u8],
    read: u128,
)
    requires
        length <= 16,
        value < be_limit(length as nat),
        old(bytes)@.len() + length <= usize::MAX,
        call_ensures(push_be, (bytes, value, length), ()),
        whole@ == final(bytes)@,
        call_ensures(read_be, (whole, old(bytes)@.len() as usize, length), read),
    ensures
        read == value,
        final(bytes)@.len() == old(bytes)@.len() + length,
        final(bytes)@.subrange(0, old(bytes)@.len() as int) == old(bytes)@,
{
    let start = old(bytes)@.len() as int;
    law_be_read_gives_what_was_written(value as nat, length as nat);
    assert(whole@.subrange(start, start + length) =~= be_bytes(value as nat, length as nat));
    assert(final(bytes)@.subrange(0, start) =~= old(bytes)@);
}

/// A name has sixteen bytes, and they make the same name again.
pub proof fn law_name_is_its_bytes(id: Id, octets: Vec<u8>, bytes: [u8; 16], again: Id)
    requires
        call_ensures(Id::octets, (id,), octets),
        bytes@ == octets@,
        call_ensures(Id::from_bytes, (bytes,), again),
    ensures
        octets@.len() == 16,
        again == id,
{
    lemma_be_limits();
    law_be_read_gives_what_was_written(id.value as nat, 16);
}

/// An address is made of an address of a host and a port, and gives both back.
pub proof fn law_address_has_its_parts(
    ip: IpAddr,
    port: u16,
    address: SocketAddr,
    its_ip: IpAddr,
    its_port: u16,
)
    requires
        call_ensures(SocketAddr::new, (ip, port), address),
        call_ensures(SocketAddr::ip, (address,), its_ip),
        call_ensures(SocketAddr::port, (address,), its_port),
    ensures
        its_ip == ip,
        its_port == port,
{
}

/// The bytes of an address of version four are the four it was made of. It is
/// unspecified if they are all nothing, a loopback if the first is 127, and
/// multicast if the first is from 224 to 239.
pub proof fn law_short_address_has_four_bytes(
    a: u8,
    b: u8,
    c: u8,
    d: u8,
    ip: IpAddr,
    octets: Vec<u8>,
    unspecified: bool,
    loopback: bool,
    multicast: bool,
)
    requires
        call_ensures(IpAddr::v4, (a, b, c, d), ip),
        call_ensures(IpAddr::octets, (ip,), octets),
        call_ensures(IpAddr::is_unspecified, (ip,), unspecified),
        call_ensures(IpAddr::is_loopback, (ip,), loopback),
        call_ensures(IpAddr::is_multicast, (ip,), multicast),
    ensures
        octets@ == seq![a, b, c, d],
        unspecified <==> a == 0 && b == 0 && c == 0 && d == 0,
        loopback <==> a == 127,
        multicast <==> 224 <= a <= 239,
{
    lemma_four_bytes(a, b, c, d);
}

/// The four bytes of a number.
proof fn lemma_four_bytes(a: u8, b: u8, c: u8, d: u8)
    ensures
        be_bytes((a * 0x100_0000 + b * 0x1_0000 + c * 0x100 + d) as nat, 4) == seq![a, b, c, d],
{
    let one: nat = a as nat;
    let two: nat = (a * 0x100 + b) as nat;
    let three: nat = (a * 0x1_0000 + b * 0x100 + c) as nat;
    let four: nat = (a * 0x100_0000 + b * 0x1_0000 + c * 0x100 + d) as nat;
    assert(four / 256 == three && four % 256 == d);
    assert(three / 256 == two && three % 256 == c);
    assert(two / 256 == one && two % 256 == b);
    assert(one / 256 == 0 && one % 256 == a);
    assert(be_bytes(0, 0) =~= Seq::<u8>::empty());
    assert(be_bytes(one, 1) =~= seq![a]);
    assert(be_bytes(two, 2) =~= seq![a, b]);
    assert(be_bytes(three, 3) =~= seq![a, b, c]);
    assert(be_bytes(four, 4) =~= seq![a, b, c, d]);
}

/// An address of version six is unspecified if it is nothing, a loopback if it is
/// one, and multicast if its first byte is the highest.
pub proof fn law_long_address_has_sixteen_bytes(
    bits: u128,
    octets: Vec<u8>,
    unspecified: bool,
    loopback: bool,
    multicast: bool,
)
    requires
        call_ensures(IpAddr::octets, (IpAddr::V6(bits),), octets),
        call_ensures(IpAddr::is_unspecified, (IpAddr::V6(bits),), unspecified),
        call_ensures(IpAddr::is_loopback, (IpAddr::V6(bits),), loopback),
        call_ensures(IpAddr::is_multicast, (IpAddr::V6(bits),), multicast),
    ensures
        octets@.len() == 16,
        be_value(octets@) == bits,
        unspecified <==> forall|i: int| 0 <= i < 16 ==> #[trigger] octets@[i] == 0,
        loopback <==> bits == 1,
        multicast <==> octets@[0] == 255,
{
    lemma_be_limits();
    law_be_read_gives_what_was_written(bits as nat, 16);
    let rest = octets@.subrange(1, 16);
    assert(octets@ =~= seq![octets@[0]] + rest);
    law_first_byte_counts_most(octets@[0], rest);
    assert(be_limit(15) == 0x100_0000_0000_0000_0000_0000_0000_0000) by {
        reveal_with_fuel(be_limit, 17);
    }
    let high: int = octets@[0] as int;
    let low: int = be_value(rest) as int;
    assert(bits == high * 0x100_0000_0000_0000_0000_0000_0000_0000 + low);
    assert(low < 0x100_0000_0000_0000_0000_0000_0000_0000);
    lemma_fundamental_div_mod_converse(
        bits as int,
        0x100_0000_0000_0000_0000_0000_0000_0000,
        high,
        low,
    );
    if forall|i: int| 0 <= i < 16 ==> #[trigger] octets@[i] == 0 {
        lemma_zero_bytes(octets@);
    }
    if bits == 0 {
        lemma_zero_number(16);
    }
}

proof fn lemma_zero_bytes(bytes: Seq<u8>)
    requires
        forall|i: int| 0 <= i < bytes.len() ==> #[trigger] bytes[i] == 0,
    ensures
        be_value(bytes) == 0,
    decreases bytes.len(),
{
    if bytes.len() > 0 {
        lemma_zero_bytes(bytes.drop_last());
    }
}

proof fn lemma_zero_number(length: nat)
    ensures
        forall|i: int| 0 <= i < length ==> #[trigger] be_bytes(0, length)[i] == 0,
    decreases length,
{
    lemma_be_len(0, length);
    if length > 0 {
        lemma_zero_number((length - 1) as nat);
        lemma_be_len(0, (length - 1) as nat);
    }
}

/// Addresses are in one order: of two different ones exactly one comes first, none
/// comes before itself, and what comes before one that comes before another comes
/// before it too. Those of version four come before those of version six.
pub proof fn law_addresses_are_in_order(
    first: SocketAddr,
    second: SocketAddr,
    third: SocketAddr,
    forth: bool,
    back: bool,
    on: bool,
    whole: bool,
)
    requires
        call_ensures(is_before, (first, second), forth),
        call_ensures(is_before, (second, first), back),
        call_ensures(is_before, (second, third), on),
        call_ensures(is_before, (first, third), whole),
    ensures
        first == second ==> !forth && !back,
        first != second ==> forth != back,
        forth && on ==> whole,
        first is V4 && second is V6 ==> forth,
{
}

/// No address comes before any; among addresses the order is theirs.
pub proof fn law_no_address_comes_first(
    first: SocketAddr,
    second: SocketAddr,
    between: bool,
    optional: bool,
    none_some: bool,
    some_none: bool,
    none_none: bool,
)
    requires
        call_ensures(is_before, (first, second), between),
        call_ensures(is_optional_before, (Some(first), Some(second)), optional),
        call_ensures(is_optional_before, (None::<SocketAddr>, Some(second)), none_some),
        call_ensures(is_optional_before, (Some(first), None::<SocketAddr>), some_none),
        call_ensures(is_optional_before, (None::<SocketAddr>, None::<SocketAddr>), none_none),
    ensures
        optional == between,
        none_some,
        !some_none,
        !none_none,
{
}

/// Written addresses tell each other apart, whatever follows them: if two of them
/// with something behind each are the same bytes, the addresses are the same, and so
/// is what follows.
pub proof fn law_written_addresses_differ(
    first: SocketAddr,
    second: SocketAddr,
    behind_first: Seq<u8>,
    behind_second: Seq<u8>,
)
    requires
        address_bytes(first) + behind_first == address_bytes(second) + behind_second,
    ensures
        first == second,
        behind_first == behind_second,
{
    let left = address_bytes(first);
    let right = address_bytes(second);
    let all = left + behind_first;
    assert(all == right + behind_second);
    lemma_address_bytes(first);
    lemma_address_bytes(second);
    assert(all[0] == left[0]);
    assert(all[0] == right[0]);
    assert(left.len() == right.len());
    assert(left =~= all.subrange(0, left.len() as int));
    assert(right =~= all.subrange(0, right.len() as int));
    assert(behind_first =~= all.subrange(left.len() as int, all.len() as int));
    assert(behind_second =~= all.subrange(right.len() as int, all.len() as int));
}

/// The parts of an address where they are written.
proof fn lemma_address_bytes(address: SocketAddr)
    ensures
        match address {
            SocketAddr::V4 { ip, port } => {
                let bytes = address_bytes(address);
                &&& bytes.len() == 7
                &&& bytes[0] == 4
                &&& be_value(bytes.subrange(1, 5)) == ip
                &&& be_value(bytes.subrange(5, 7)) == port
            },
            SocketAddr::V6 { ip, port, flowinfo, scope_id } => {
                let bytes = address_bytes(address);
                &&& bytes.len() == 27
                &&& bytes[0] == 6
                &&& be_value(bytes.subrange(1, 17)) == ip
                &&& be_value(bytes.subrange(17, 19)) == port
                &&& be_value(bytes.subrange(19, 23)) == flowinfo
                &&& be_value(bytes.subrange(23, 27)) == scope_id
            },
        },
{
    let bytes = address_bytes(address);
    lemma_be_limits();
    match address {
        SocketAddr::V4 { ip, port } => {
            law_be_read_gives_what_was_written(ip as nat, 4);
            law_be_read_gives_what_was_written(port as nat, 2);
            assert(bytes.subrange(1, 5) =~= be_bytes(ip as nat, 4));
            assert(bytes.subrange(5, 7) =~= be_bytes(port as nat, 2));
        },
        SocketAddr::V6 { ip, port, flowinfo, scope_id } => {
            law_be_read_gives_what_was_written(ip as nat, 16);
            law_be_read_gives_what_was_written(port as nat, 2);
            law_be_read_gives_what_was_written(flowinfo as nat, 4);
            law_be_read_gives_what_was_written(scope_id as nat, 4);
            assert(bytes.subrange(1, 17) =~= be_bytes(ip as nat, 16));
            assert(bytes.subrange(17, 19) =~= be_bytes(port as nat, 2));
            assert(bytes.subrange(19, 23) =~= be_bytes(flowinfo as nat, 4));
            assert(bytes.subrange(23, 27) =~= be_bytes(scope_id as nat, 4));
        },
    }
}

/// An address that is appended leaves the bytes before it, and two that are appended
/// to the same bytes give the same only if they are the same.
pub proof fn law_appended_addresses_differ(
    left: &mut Vec<u8>,
    first: SocketAddr,
    right: &mut Vec<u8>,
    second: SocketAddr,
)
    requires
        call_ensures(encode_addr, (left, first), ()),
        old(right)@ == old(left)@,
        call_ensures(encode_addr, (right, second), ()),
    ensures
        final(left)@.len() >= old(left)@.len(),
        final(left)@.subrange(0, old(left)@.len() as int) == old(left)@,
        final(left)@ == final(right)@ ==> first == second,
{
    let start = old(left)@.len() as int;
    assert(final(left)@.subrange(0, start) =~= old(left)@);
    if final(left)@ == final(right)@ {
        assert(address_bytes(first) =~= final(left)@.subrange(start, final(left)@.len() as int));
        assert(address_bytes(second) =~= final(right)@.subrange(start, final(right)@.len() as int));
        assert(address_bytes(first) + Seq::<u8>::empty() =~= address_bytes(first));
        assert(address_bytes(second) + Seq::<u8>::empty() =~= address_bytes(second));
        law_written_addresses_differ(first, second, Seq::empty(), Seq::empty());
    }
}

/// A second is a thousand milliseconds and a milliard nanoseconds; whole seconds and
/// milliseconds are counted by rounding down.
pub proof fn law_units_of_time_agree(
    count: u64,
    seconds: Duration,
    millis: Duration,
    nanos: Duration,
    in_seconds: u64,
    in_millis: u128,
    in_nanos: u128,
    any: Duration,
    any_seconds: u64,
    any_millis: u128,
    any_nanos: u128,
)
    requires
        count <= 0xffff_ffff,
        call_ensures(Duration::from_secs, (count,), seconds),
        call_ensures(Duration::from_millis, (count,), millis),
        call_ensures(Duration::from_nanos, (count,), nanos),
        call_ensures(Duration::as_secs, (seconds,), in_seconds),
        call_ensures(Duration::as_millis, (millis,), in_millis),
        call_ensures(Duration::as_nanos, (&nanos,), in_nanos),
        call_ensures(Duration::as_secs, (any,), any_seconds),
        call_ensures(Duration::as_millis, (any,), any_millis),
        call_ensures(Duration::as_nanos, (&any,), any_nanos),
    ensures
        in_seconds == count,
        in_millis == count,
        in_nanos == count,
        seconds@ == 1000 * millis@,
        millis@ == 1_000_000 * nanos@,
        any_seconds * 1_000_000_000 <= any_nanos < (any_seconds + 1) * 1_000_000_000,
        any_millis * 1_000_000 <= any_nanos < (any_millis + 1) * 1_000_000,
        any_millis / 1000 == any_seconds,
{
}

/// The difference of two durations is the same either way; what is left of one after
/// the other is the difference, or nothing.
pub proof fn law_differences_of_durations(
    left: Duration,
    right: Duration,
    off: Duration,
    back: Duration,
    rest: Duration,
    sum: Option<Duration>,
)
    requires
        call_ensures(Duration::abs_diff, (left, right), off),
        call_ensures(Duration::abs_diff, (right, left), back),
        call_ensures(Duration::saturating_sub, (left, right), rest),
        call_ensures(Duration::checked_add, (right, rest), sum),
    ensures
        off@ == back@,
        left@ >= right@ ==> rest@ == off@,
        left@ <= right@ ==> rest@ == 0,
        left@ >= right@ && sum is Some ==> sum->0@ == left@,
        left@ <= right@ && sum is Some ==> sum->0@ == right@,
{
}

} // verus!
