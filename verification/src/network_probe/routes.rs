//! Routes as the system writes them down.

use vstd::arithmetic::power2::{lemma_pow2_unfold, pow2};
use vstd::prelude::*;
use vstd::string::*;

use crate::bytes::{be_limit, lemma_be_limits};
use crate::net::IpAddr;
use crate::network_probe::interface::{NetworkInterface, NetworkRoute};
use crate::text::{
    chars_of, hex_number, lines, lines_in, parse_hex, pieces_are, words, words_in, Piece,
};

verus! {

/// How many bits of a number are one.
pub open spec fn ones(number: nat) -> nat
    decreases number,
{
    if number == 0 {
        0
    } else {
        number % 2 + ones(number / 2)
    }
}

/// A number has no more ones than bits.
proof fn lemma_ones(number: nat, bits: nat)
    requires
        number < pow2(bits),
    ensures
        ones(number) <= bits,
    decreases bits,
{
    if number > 0 {
        if bits == 0 {
            vstd::arithmetic::power2::lemma2_to64();
        } else {
            lemma_pow2_unfold(bits);
            lemma_ones(number / 2, (bits - 1) as nat);
        }
    }
}

/// How many bits of a number are one.
fn count_ones(number: u128) -> (count: u8)
    ensures
        count == ones(number as nat),
{
    proof {
        assert(pow2(128) == 0x1_0000_0000_0000_0000_0000_0000_0000_0000) by {
            vstd::arithmetic::power2::lemma_pow2_adds(64, 64);
            vstd::arithmetic::power2::lemma2_to64();
        }
        lemma_ones(number as nat, 128);
    }
    let mut rest: u128 = number;
    let mut count: u8 = 0;
    while rest > 0
        invariant
            count + ones(rest as nat) == ones(number as nat),
            ones(number as nat) <= 128,
        decreases rest,
    {
        let bit: u8 = (rest % 2) as u8;
        count = count + bit;
        rest = rest / 2;
    }
    count
}

/// How many bits of a mask are one.
pub open spec fn spec_prefix_len(mask: IpAddr) -> nat {
    match mask {
        IpAddr::V4(bits) => ones(bits as nat),
        IpAddr::V6(bits) => ones(bits as nat),
    }
}

/// How many bits of a mask are one.
pub fn prefix_len(mask: IpAddr) -> (length: u8)
    ensures
        length == spec_prefix_len(mask),
{
    match mask {
        IpAddr::V4(bits) => count_ones(bits as u128),
        IpAddr::V6(bits) => count_ones(bits),
    }
}

/// The number that the first `count` pairs of digits write.
pub open spec fn pairs_value(text: Seq<char>, count: int) -> Option<nat>
    decreases count,
{
    if count <= 0 {
        Some(0)
    } else {
        match (
            pairs_value(text, count - 1),
            hex_number(text.subrange(2 * (count - 1), 2 * count), 256),
        ) {
            (Some(value), Some(byte)) => Some(value * 256 + byte),
            _ => None,
        }
    }
}

/// The address that thirty-two digits write.
pub open spec fn ipv6_hex(text: Seq<char>) -> Option<nat> {
    if text.len() != 32 {
        None
    } else {
        pairs_value(text, 16)
    }
}

/// If some pairs write no number, more do not either.
proof fn lemma_pairs_end(text: Seq<char>, count: int, total: int)
    requires
        count <= total,
        pairs_value(text, count) is None,
    ensures
        pairs_value(text, total) is None,
    decreases total - count,
{
    if count < total {
        lemma_pairs_end(text, count, total - 1);
    }
}

/// The address that thirty-two digits write.
pub fn parse_ipv6_hex(text: &Vec<char>, piece: Piece) -> (address: Option<u128>)
    requires
        piece.start <= piece.end <= text@.len(),
    ensures
        match address {
            Some(bits) => ipv6_hex(text@.subrange(piece.start as int, piece.end as int)) == Some(
                bits as nat,
            ),
            None => ipv6_hex(text@.subrange(piece.start as int, piece.end as int)) is None,
        },
{
    let ghost whole = text@.subrange(piece.start as int, piece.end as int);
    if piece.end - piece.start != 32 {
        return None;
    }
    let mut bits: u128 = 0;
    let mut index: usize = 0;
    while index < 16
        invariant
            index <= 16,
            piece.start + 32 == piece.end <= text@.len(),
            whole == text@.subrange(piece.start as int, piece.end as int),
            pairs_value(whole, index as int) == Some(bits as nat),
            bits < be_limit(index as nat),
        decreases 16 - index,
    {
        let start: usize = piece.start + 2 * index;
        let pair = Piece { start, end: start + 2 };
        assert(text@.subrange(pair.start as int, pair.end as int) =~= whole.subrange(
            2 * index as int,
            2 * (index + 1),
        ));
        match parse_hex(text, pair, 256) {
            Some(byte) => {
                proof {
                    lemma_limit_grows((index + 1) as nat, 16);
                    lemma_be_limits();
                    assert(byte < 256) by {
                        assert(hex_number(whole.subrange(2 * index as int, 2 * (index + 1)), 256)
                            is Some);
                    }
                }
                bits = bits * 256 + byte as u128;
            },
            None => {
                proof {
                    lemma_pairs_end(whole, index + 1, 16);
                }
                return None;
            },
        }
        index = index + 1;
    }
    Some(bits)
}

/// More bytes write more numbers.
proof fn lemma_limit_grows(length: nat, total: nat)
    requires
        length <= total,
    ensures
        be_limit(length) <= be_limit(total),
    decreases total,
{
    if length < total {
        lemma_limit_grows(length, (total - 1) as nat);
    }
}

/// What is known of a route.
#[verifier::ext_equal]
pub struct RouteView {
    pub interface_name: Seq<char>,
    pub interface_index: Option<u32>,
    pub destination: IpAddr,
    pub prefix_len: u8,
    pub gateway: Option<IpAddr>,
    pub is_default: bool,
}

impl View for NetworkRoute {
    type V = RouteView;

    open spec fn view(&self) -> RouteView {
        RouteView {
            interface_name: self.interface_name@,
            interface_index: self.interface_index,
            destination: self.destination,
            prefix_len: self.prefix_len,
            gateway: self.gateway,
            is_default: self.is_default,
        }
    }
}

/// The number of the first interface with this name, from the one at `from` on.
pub open spec fn index_named(
    interfaces: Seq<NetworkInterface>,
    name: Seq<char>,
    from: int,
) -> Option<u32>
    decreases interfaces.len() - from,
{
    if from < 0 || from >= interfaces.len() {
        None
    } else if interfaces[from].name@ == name {
        Some(interfaces[from].index)
    } else {
        index_named(interfaces, name, from + 1)
    }
}

/// A number with its four bytes in the other order.
pub open spec fn reversed(number: u32) -> u32 {
    (number % 0x100 * 0x100_0000 + number / 0x100 % 0x100 * 0x1_0000 + number / 0x1_0000 % 0x100
        * 0x100 + number / 0x100_0000) as u32
}

/// `u32::to_le`: the number itself on a little-endian machine, and with its bytes
/// in the other order on a big-endian one. Which of the two the machine is, is
/// left open.
pub assume_specification[ u32::to_le ](number: u32) -> (held: u32)
    ensures
        held == number || held == reversed(number),
;

/// A number of the IPv4 table as an address, on a machine that reverses the bytes
/// of such numbers or does not.
pub open spec fn address_of(number: nat, reverses: bool) -> u32 {
    if reverses {
        reversed(number as u32)
    } else {
        number as u32
    }
}

/// The route that the fields of a line of the IPv4 table describe, on a machine
/// that reverses the bytes of the numbers or does not.
pub open spec fn ipv4_route(
    fields: Seq<Seq<char>>,
    interfaces: Seq<NetworkInterface>,
    reverses: bool,
) -> Option<RouteView> {
    if fields.len() < 8 {
        None
    } else {
        match (
            hex_number(fields[1], 0x1_0000_0000),
            hex_number(fields[2], 0x1_0000_0000),
            hex_number(fields[7], 0x1_0000_0000),
        ) {
            (Some(destination), Some(gateway), Some(mask)) => Some(
                RouteView {
                    interface_name: fields[0],
                    interface_index: index_named(interfaces, fields[0], 0),
                    destination: IpAddr::V4(address_of(destination, reverses)),
                    prefix_len: ones(address_of(mask, reverses) as nat) as u8,
                    gateway: if address_of(gateway, reverses) == 0 {
                        None
                    } else {
                        Some(IpAddr::V4(address_of(gateway, reverses)))
                    },
                    is_default: address_of(destination, reverses) == 0,
                },
            ),
            _ => None,
        }
    }
}

/// The route that the fields of a line of the IPv6 table describe.
pub open spec fn ipv6_route(
    fields: Seq<Seq<char>>,
    interfaces: Seq<NetworkInterface>,
) -> Option<RouteView> {
    if fields.len() < 10 {
        None
    } else {
        match (ipv6_hex(fields[0]), hex_number(fields[1], 256), ipv6_hex(fields[4])) {
            (Some(destination), Some(prefix_len), Some(gateway)) => Some(
                RouteView {
                    interface_name: fields[9],
                    interface_index: index_named(interfaces, fields[9], 0),
                    destination: IpAddr::V6(destination as u128),
                    prefix_len: prefix_len as u8,
                    gateway: if gateway == 0 {
                        None
                    } else {
                        Some(IpAddr::V6(gateway as u128))
                    },
                    is_default: destination == 0,
                },
            ),
            _ => None,
        }
    }
}

/// Which addresses a table of routes holds; for IPv4, whether the machine reverses
/// the bytes of its numbers.
#[derive(Debug, Clone, Copy, PartialEq, Eq, Structural)]
pub enum TableFamily {
    V4 { reverses: bool },
    V6,
}

/// The routes that the lines from `from` up to `to` describe.
pub open spec fn table_routes(
    table: Seq<Seq<char>>,
    interfaces: Seq<NetworkInterface>,
    family: TableFamily,
    from: int,
    to: int,
) -> Seq<RouteView>
    decreases to - from,
{
    if to <= from {
        Seq::empty()
    } else {
        let before = table_routes(table, interfaces, family, from, to - 1);
        let fields = words(table[to - 1]);
        let route = match family {
            TableFamily::V4 { reverses } => ipv4_route(fields, interfaces, reverses),
            TableFamily::V6 => ipv6_route(fields, interfaces),
        };
        match route {
            Some(route) => before.push(route),
            None => before,
        }
    }
}

/// The views of routes.
pub open spec fn route_views(routes: Seq<NetworkRoute>) -> Seq<RouteView> {
    routes.map_values(|route: NetworkRoute| route@)
}

/// The number of the first interface with this name.
fn interface_named(interfaces: &[NetworkInterface], name: &String) -> (index: Option<u32>)
    ensures
        index == index_named(interfaces@, name@, 0),
{
    let mut at: usize = 0;
    while at < interfaces.len()
        invariant
            at <= interfaces@.len(),
            index_named(interfaces@, name@, 0) == index_named(interfaces@, name@, at as int),
        decreases interfaces@.len() - at,
    {
        if interfaces[at].name == *name {
            return Some(interfaces[at].index);
        }
        at = at + 1;
    }
    None
}

/// A number of the IPv4 table as an address.
fn table_address(number: u64, reverses: bool) -> (address: u32)
    requires
        number < 0x1_0000_0000,
    ensures
        address == address_of(number as nat, reverses),
{
    let number: u32 = number as u32;
    if reverses {
        number % 0x100 * 0x100_0000 + number / 0x100 % 0x100 * 0x1_0000 + number / 0x1_0000 % 0x100
            * 0x100 + number / 0x100_0000
    } else {
        number
    }
}

/// The route that the fields of a line of the IPv4 table describe.
fn read_ipv4_route(
    text: &str,
    chars: &Vec<char>,
    fields: &Vec<Piece>,
    interfaces: &[NetworkInterface],
    reverses: bool,
    Ghost(texts): Ghost<Seq<Seq<char>>>,
) -> (route: Option<NetworkRoute>)
    requires
        chars@ == text@,
        pieces_are(chars@, fields@, texts),
    ensures
        match route {
            Some(route) => ipv4_route(texts, interfaces@, reverses) == Some(route@),
            None => ipv4_route(texts, interfaces@, reverses) is None,
        },
{
    if fields.len() < 8 {
        return None;
    }
    let destination: u64 = match parse_hex(chars, fields[1], 0x1_0000_0000) {
        Some(destination) => destination,
        None => {
            return None;
        },
    };
    let gateway: u64 = match parse_hex(chars, fields[2], 0x1_0000_0000) {
        Some(gateway) => gateway,
        None => {
            return None;
        },
    };
    let mask: u64 = match parse_hex(chars, fields[7], 0x1_0000_0000) {
        Some(mask) => mask,
        None => {
            return None;
        },
    };
    let interface_name: String = text.substring_char(fields[0].start, fields[0].end).to_owned();
    let interface_index: Option<u32> = interface_named(interfaces, &interface_name);
    proof {
        assert(hex_number(texts[1], 0x1_0000_0000) == Some(destination as nat));
        assert(hex_number(texts[2], 0x1_0000_0000) == Some(gateway as nat));
        assert(hex_number(texts[7], 0x1_0000_0000) == Some(mask as nat));
    }
    let destination: u32 = table_address(destination, reverses);
    let gateway: u32 = table_address(gateway, reverses);
    let mask: u32 = table_address(mask, reverses);
    let gateway_address: Option<IpAddr> = if gateway == 0 {
        None
    } else {
        Some(IpAddr::V4(gateway))
    };
    Some(
        NetworkRoute {
            interface_name,
            interface_index,
            destination: IpAddr::V4(destination),
            prefix_len: prefix_len(IpAddr::V4(mask)),
            gateway: gateway_address,
            is_default: destination == 0,
        },
    )
}

/// The route that the fields of a line of the IPv6 table describe.
fn read_ipv6_route(
    text: &str,
    chars: &Vec<char>,
    fields: &Vec<Piece>,
    interfaces: &[NetworkInterface],
    Ghost(texts): Ghost<Seq<Seq<char>>>,
) -> (route: Option<NetworkRoute>)
    requires
        chars@ == text@,
        pieces_are(chars@, fields@, texts),
    ensures
        match route {
            Some(route) => ipv6_route(texts, interfaces@) == Some(route@),
            None => ipv6_route(texts, interfaces@) is None,
        },
{
    if fields.len() < 10 {
        return None;
    }
    let destination: u128 = match parse_ipv6_hex(chars, fields[0]) {
        Some(destination) => destination,
        None => {
            return None;
        },
    };
    let prefix_len: u64 = match parse_hex(chars, fields[1], 256) {
        Some(prefix_len) => prefix_len,
        None => {
            return None;
        },
    };
    let gateway: u128 = match parse_ipv6_hex(chars, fields[4]) {
        Some(gateway) => gateway,
        None => {
            return None;
        },
    };
    let interface_name: String = text.substring_char(fields[9].start, fields[9].end).to_owned();
    let interface_index: Option<u32> = interface_named(interfaces, &interface_name);
    proof {
        assert(ipv6_hex(texts[0]) == Some(destination as nat));
        assert(hex_number(texts[1], 256) == Some(prefix_len as nat));
        assert(ipv6_hex(texts[4]) == Some(gateway as nat));
    }
    let gateway_address: Option<IpAddr> = if gateway == 0 {
        None
    } else {
        Some(IpAddr::V6(gateway))
    };
    Some(
        NetworkRoute {
            interface_name,
            interface_index,
            destination: IpAddr::V6(destination),
            prefix_len: prefix_len as u8,
            gateway: gateway_address,
            is_default: destination == 0,
        },
    )
}

/// The routes that a table describes, from this line on.
fn read_routes(
    text: &str,
    interfaces: &[NetworkInterface],
    family: TableFamily,
    from: usize,
) -> (routes: Vec<NetworkRoute>)
    ensures
        route_views(routes@) == table_routes(
            lines(text@),
            interfaces@,
            family,
            from as int,
            lines(text@).len() as int,
        ),
{
    let chars: Vec<char> = chars_of(text);
    let pieces: Vec<Piece> = lines_in(&chars);
    let ghost table = lines(text@);
    let mut routes: Vec<NetworkRoute> = Vec::new();
    let mut index: usize = from;
    assert(route_views(routes@) =~= Seq::empty());
    while index < pieces.len()
        invariant
            chars@ == text@,
            pieces_are(chars@, pieces@, table),
            from <= index,
            index <= pieces@.len() || index == from,
            route_views(routes@) == table_routes(
                table,
                interfaces@,
                family,
                from as int,
                index as int,
            ),
        decreases pieces@.len() - index,
    {
        let ghost before = routes@;
        let fields: Vec<Piece> = words_in(&chars, pieces[index]);
        let ghost texts = words(table[index as int]);
        assert(pieces_are(chars@, fields@, texts));
        let route = match family {
            TableFamily::V4 { reverses } => read_ipv4_route(
                text,
                &chars,
                &fields,
                interfaces,
                reverses,
                Ghost(texts),
            ),
            TableFamily::V6 => read_ipv6_route(text, &chars, &fields, interfaces, Ghost(texts)),
        };
        match route {
            Some(route) => {
                routes.push(route);
                assert(route_views(routes@) =~= route_views(before).push(route@));
            },
            None => {},
        }
        index = index + 1;
    }
    routes
}

/// The routes that the IPv4 table describes, after its heading, on a machine that
/// reverses the bytes of its numbers or does not.
pub fn read_ipv4_routes(
    table: &str,
    interfaces: &[NetworkInterface],
    reverses: bool,
) -> (routes: Vec<NetworkRoute>)
    ensures
        route_views(routes@) == table_routes(
            lines(table@),
            interfaces@,
            TableFamily::V4 { reverses },
            1,
            lines(table@).len() as int,
        ),
{
    read_routes(table, interfaces, TableFamily::V4 { reverses }, 1)
}

/// The routes that the IPv4 table describes, after its heading, on this machine.
pub fn read_linux_ipv4_routes(table: &str, interfaces: &[NetworkInterface]) -> (routes: Vec<
    NetworkRoute,
>)
    ensures
        exists|reverses: bool|
            route_views(routes@) == #[trigger] table_routes(
                lines(table@),
                interfaces@,
                TableFamily::V4 { reverses },
                1,
                lines(table@).len() as int,
            ),
{
    let reverses: bool = 1u32.to_le() != 1;
    read_ipv4_routes(table, interfaces, reverses)
}

/// The routes that the IPv6 table describes.
pub fn read_linux_ipv6_routes(table: &str, interfaces: &[NetworkInterface]) -> (routes: Vec<
    NetworkRoute,
>)
    ensures
        route_views(routes@) == table_routes(
            lines(table@),
            interfaces@,
            TableFamily::V6,
            0,
            lines(table@).len() as int,
        ),
{
    read_routes(table, interfaces, TableFamily::V6, 0)
}

} // verus!
