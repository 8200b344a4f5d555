//! The interfaces of this host, and the candidates they give.

use vstd::prelude::*;

use crate::ids::{CandidateId, Id};
use crate::net::{address_before, is_before, IpAddr, SocketAddr};
use crate::network_probe::candidate::{Candidate, CandidateKind};
use crate::network_probe::error::ProbeError;
use crate::random::random_bytes;
use crate::reliable_core::lesser;
use crate::sort::{put_in_order, sort, Ranked};

verus! {

/// An address of an interface.
#[derive(Debug, Clone, PartialEq, Eq)]
pub struct NetworkInterface {
    pub name: String,
    pub index: u32,
    pub address: IpAddr,
    pub prefix_len: u8,
    pub is_loopback: bool,
    pub is_up: bool,
}

/// A route.
#[derive(Debug, Clone, PartialEq, Eq)]
pub struct NetworkRoute {
    pub interface_name: String,
    pub interface_index: Option<u32>,
    pub destination: IpAddr,
    pub prefix_len: u8,
    pub gateway: Option<IpAddr>,
    pub is_default: bool,
}

/// The interfaces and routes of a host at some time.
#[derive(Debug, Clone, PartialEq, Eq, Default)]
pub struct NetworkSnapshot {
    interfaces: Vec<NetworkInterface>,
    routes: Vec<NetworkRoute>,
}

/// An address of this host.
#[derive(Debug, Clone, Copy, PartialEq, Eq, Structural)]
pub struct Host {
    pub address: SocketAddr,
    pub priority: u16,
    pub interface_index: u32,
}

impl Ranked for Host {
    open spec fn goes_ahead(self, other: Self) -> bool {
        self.priority > other.priority || (self.priority == other.priority && address_before(
            self.address,
            other.address,
        ))
    }

    proof fn lemma_order(first: Self, second: Self, third: Self) {
    }

    fn is_ahead(&self, other: &Self) -> (ahead: bool) {
        self.priority > other.priority || (self.priority == other.priority && is_before(
            self.address,
            other.address,
        ))
    }
}

/// Whether a route is the one for everything over this interface.
pub open spec fn is_default_over(route: NetworkRoute, index: u32) -> bool {
    &&& route.interface_index == Some(index)
    &&& route.is_default
    &&& route.destination.spec_is_unspecified()
}

/// Whether there is a route for everything over this interface.
pub open spec fn has_default(routes: Seq<NetworkRoute>, index: u32) -> bool {
    exists|i: int| 0 <= i < routes.len() && is_default_over(#[trigger] routes[i], index)
}

/// Whether an address is among these.
pub open spec fn is_listed(hosts: Seq<Host>, address: SocketAddr) -> bool {
    exists|i: int| 0 <= i < hosts.len() && (#[trigger] hosts[i]).address == address
}

/// The addresses that the first `count` interfaces give, each once.
pub open spec fn hosts_of(
    interfaces: Seq<NetworkInterface>,
    routes: Seq<NetworkRoute>,
    port: u16,
    count: int,
) -> Seq<Host>
    decreases count,
{
    if count <= 0 {
        Seq::empty()
    } else {
        let before = hosts_of(interfaces, routes, port, count - 1);
        let interface = interfaces[count - 1];
        let address = SocketAddr::spec_new(interface.address, port);
        if !interface.is_up || interface.is_loopback || is_listed(before, address) {
            before
        } else {
            before.push(
                Host {
                    address,
                    priority: if has_default(routes, interface.index) {
                        100
                    } else {
                        90
                    },
                    interface_index: interface.index,
                },
            )
        }
    }
}

/// The candidate that an address is, under this name.
pub open spec fn named(host: Host, id: CandidateId) -> Candidate {
    Candidate {
        id,
        kind: CandidateKind::Host,
        address: Some(host.address),
        priority: host.priority,
        interface_index: Some(host.interface_index),
    }
}

/// `candidates` are the first of the addresses in order, under some names.
pub open spec fn are_candidates(
    hosts: Seq<Host>,
    max_candidates: usize,
    candidates: Seq<Candidate>,
) -> bool {
    exists|sorted: Seq<Host>, places: Seq<int>| #[trigger]
        put_in_order(hosts, sorted, places) && are_named(sorted, max_candidates, candidates)
}

/// `candidates` are the first of these, under some names.
pub open spec fn are_named(
    sorted: Seq<Host>,
    max_candidates: usize,
    candidates: Seq<Candidate>,
) -> bool {
    &&& candidates.len() == lesser(max_candidates as int, sorted.len() as int)
    &&& forall|i: int|
        0 <= i < candidates.len() ==> #[trigger] candidates[i] == named(sorted[i], candidates[i].id)
}

impl NetworkSnapshot {
    /// The interfaces.
    pub closed spec fn spec_interfaces(self) -> Seq<NetworkInterface> {
        self.interfaces@
    }

    /// The routes.
    pub closed spec fn spec_routes(self) -> Seq<NetworkRoute> {
        self.routes@
    }

    /// These interfaces and routes.
    pub fn new(interfaces: Vec<NetworkInterface>, routes: Vec<NetworkRoute>) -> (snapshot: Self)
        ensures
            snapshot.spec_interfaces() == interfaces@,
            snapshot.spec_routes() == routes@,
    {
        NetworkSnapshot { interfaces, routes }
    }

    /// The interfaces.
    pub fn interfaces(&self) -> (interfaces: &[NetworkInterface])
        ensures
            interfaces@ == self.spec_interfaces(),
    {
        self.interfaces.as_slice()
    }

    /// The routes.
    pub fn routes(&self) -> (routes: &[NetworkRoute])
        ensures
            routes@ == self.spec_routes(),
    {
        self.routes.as_slice()
    }

    /// The addresses that the interfaces give, each once.
    pub open spec fn spec_hosts(self, port: u16) -> Seq<Host> {
        hosts_of(
            self.spec_interfaces(),
            self.spec_routes(),
            port,
            self.spec_interfaces().len() as int,
        )
    }

    /// The addresses that the interfaces give, each once.
    pub fn hosts(&self, port: u16) -> (hosts: Vec<Host>)
        ensures
            hosts@ == self.spec_hosts(port),
    {
        let mut hosts: Vec<Host> = Vec::new();
        let mut index: usize = 0;
        while index < self.interfaces.len()
            invariant
                index <= self.interfaces@.len(),
                hosts@ == hosts_of(
                    self.spec_interfaces(),
                    self.spec_routes(),
                    port,
                    index as int,
                ),
            decreases self.interfaces@.len() - index,
        {
            let interface = &self.interfaces[index];
            let address = SocketAddr::new(interface.address, port);
            if interface.is_up && !interface.is_loopback && !lists(&hosts, address) {
                let priority: u16 = if self.has_default_route(interface.index) {
                    100
                } else {
                    90
                };
                hosts.push(Host { address, priority, interface_index: interface.index });
            }
            index = index + 1;
        }
        hosts
    }

    /// The candidates that the interfaces give, the best first, under new random
    /// names.
    pub fn candidates(&self, port: u16, max_candidates: usize) -> (result: Result<
        Vec<Candidate>,
        ProbeError,
    >)
        ensures
            match result {
                Ok(candidates) => {
                    &&& max_candidates > 0
                    &&& port != 0
                    &&& candidates@.len() > 0
                    &&& are_candidates(self.spec_hosts(port), max_candidates, candidates@)
                },
                Err(error) => {
                    ||| max_candidates == 0 && error == ProbeError::InvalidConfig("max_candidates")
                    ||| max_candidates > 0 && port == 0 && error == ProbeError::InvalidConfig(
                        "candidate port",
                    )
                    ||| {
                        &&& max_candidates > 0
                        &&& port != 0
                        &&& self.spec_hosts(port).len() == 0
                        &&& error == ProbeError::NoCandidates
                    }
                    ||| {
                        &&& max_candidates > 0
                        &&& port != 0
                        &&& self.spec_hosts(port).len() > 0
                        &&& error == ProbeError::RandomnessUnavailable
                    }
                },
            },
    {
        if max_candidates == 0 {
            return Err(ProbeError::InvalidConfig("max_candidates"));
        }
        if port == 0 {
            return Err(ProbeError::InvalidConfig("candidate port"));
        }
        let hosts: Vec<Host> = self.hosts(port);
        let mut ids: Vec<CandidateId> = Vec::new();
        while ids.len() < hosts.len()
            invariant
                max_candidates > 0,
                port != 0,
                hosts@ == self.spec_hosts(port),
                ids@.len() <= hosts@.len(),
            decreases hosts@.len() - ids@.len(),
        {
            match random_bytes::<16>() {
                Ok(bytes) => ids.push(Id::from_bytes(bytes)),
                Err(_) => {
                    return Err(ProbeError::RandomnessUnavailable);
                },
            }
        }
        if hosts.len() == 0 {
            return Err(ProbeError::NoCandidates);
        }
        Ok(name_hosts(&hosts, &ids, max_candidates))
    }

    /// Whether there is a route for everything over this interface.
    fn has_default_route(&self, interface_index: u32) -> (yes: bool)
        ensures
            yes == has_default(self.spec_routes(), interface_index),
    {
        let mut index: usize = 0;
        while index < self.routes.len()
            invariant
                index <= self.routes@.len(),
                forall|i: int|
                    0 <= i < index ==> !is_default_over(
                        #[trigger] self.spec_routes()[i],
                        interface_index,
                    ),
            decreases self.routes@.len() - index,
        {
            let route = &self.routes[index];
            if route.interface_index == Some(interface_index) && route.is_default
                && route.destination.is_unspecified() {
                assert(is_default_over(self.spec_routes()[index as int], interface_index));
                return true;
            }
            index = index + 1;
        }
        false
    }
}

/// Whether an address is among these.
fn lists(hosts: &Vec<Host>, address: SocketAddr) -> (yes: bool)
    ensures
        yes == is_listed(hosts@, address),
{
    let mut index: usize = 0;
    while index < hosts.len()
        invariant
            index <= hosts@.len(),
            forall|i: int| 0 <= i < index ==> (#[trigger] hosts@[i]).address != address,
        decreases hosts@.len() - index,
    {
        if hosts[index].address == address {
            return true;
        }
        index = index + 1;
    }
    false
}

/// The first of the addresses in order, the first under the first name and so on.
pub fn name_hosts(hosts: &Vec<Host>, ids: &Vec<CandidateId>, max_candidates: usize) -> (candidates:
    Vec<Candidate>)
    requires
        ids@.len() == hosts@.len(),
    ensures
        candidates@.len() == lesser(max_candidates as int, hosts@.len() as int),
        are_candidates(hosts@, max_candidates, candidates@),
        forall|i: int| 0 <= i < candidates@.len() ==> (#[trigger] candidates@[i]).id == ids@[i],
{
    let sorted: Vec<Host> = sort(hosts);
    let mut candidates: Vec<Candidate> = Vec::new();
    let mut index: usize = 0;
    while index < sorted.len() && index < max_candidates
        invariant
            index <= sorted@.len(),
            index <= max_candidates,
            sorted@.len() == ids@.len(),
            candidates@.len() == index,
            forall|i: int|
                0 <= i < index ==> #[trigger] candidates@[i] == named(sorted@[i], ids@[i]),
        decreases sorted@.len() - index,
    {
        let host: Host = sorted[index];
        candidates.push(
            Candidate {
                id: ids[index],
                kind: CandidateKind::Host,
                address: Some(host.address),
                priority: host.priority,
                interface_index: Some(host.interface_index),
            },
        );
        index = index + 1;
    }
    proof {
        let places = choose|places: Seq<int>| #[trigger]
            put_in_order(hosts@, sorted@, places);
        assert(put_in_order(hosts@, sorted@, places));
        assert(are_named(sorted@, max_candidates, candidates@));
    }
    candidates
}

/// Whether an interface stands before another one: by its number, then by its
/// address.
pub open spec fn stands_before(left: NetworkInterface, right: NetworkInterface) -> bool {
    left.index < right.index || (left.index == right.index && ip_before(
        left.address,
        right.address,
    ))
}

/// Whether an address stands before another one.
pub open spec fn ip_before(left: IpAddr, right: IpAddr) -> bool {
    match (left, right) {
        (IpAddr::V4(left), IpAddr::V4(right)) => left < right,
        (IpAddr::V4(_), IpAddr::V6(_)) => true,
        (IpAddr::V6(_), IpAddr::V4(_)) => false,
        (IpAddr::V6(left), IpAddr::V6(right)) => left < right,
    }
}

/// Whether two entries are of the same address of the same interface.
pub open spec fn is_same(left: NetworkInterface, right: NetworkInterface) -> bool {
    left.index == right.index && left.address == right.address
}

/// The places of the entries in order; of several entries of the same address of
/// the same interface only the first is kept.
pub open spec fn is_arrangement(interfaces: Seq<NetworkInterface>, places: Seq<usize>) -> bool {
    &&& forall|k: int| 0 <= k < places.len() ==> #[trigger] places[k] < interfaces.len()
    &&& forall|k: int, l: int|
        0 <= k < l < places.len() ==> stands_before(
            interfaces[#[trigger] places[k] as int],
            interfaces[#[trigger] places[l] as int],
        )
    &&& forall|i: int|
        0 <= i < interfaces.len() ==> #[trigger] is_kept(interfaces, places, i)
}

/// Whether an entry is kept, or one like it that comes before.
pub open spec fn is_kept(
    interfaces: Seq<NetworkInterface>,
    places: Seq<usize>,
    place: int,
) -> bool {
    exists|k: int|
        0 <= k < places.len() && #[trigger] places[k] <= place && is_same(
            interfaces[places[k] as int],
            interfaces[place],
        )
}

/// Whether an address stands before another one.
fn is_ip_before(left: IpAddr, right: IpAddr) -> (yes: bool)
    ensures
        yes == ip_before(left, right),
{
    match (left, right) {
        (IpAddr::V4(left), IpAddr::V4(right)) => left < right,
        (IpAddr::V4(_), IpAddr::V6(_)) => true,
        (IpAddr::V6(_), IpAddr::V4(_)) => false,
        (IpAddr::V6(left), IpAddr::V6(right)) => left < right,
    }
}

/// An entry that is put in its place leaves the others in order, and what was
/// kept stays so.
proof fn lemma_put(interfaces: Seq<NetworkInterface>, places: Seq<usize>, at: int, index: usize)
    requires
        0 <= at <= places.len(),
        index < interfaces.len(),
        forall|k: int| 0 <= k < places.len() ==> #[trigger] places[k] < index,
        forall|k: int, l: int|
            0 <= k < l < places.len() ==> stands_before(
                interfaces[#[trigger] places[k] as int],
                interfaces[#[trigger] places[l] as int],
            ),
        forall|i: int| 0 <= i < index ==> #[trigger] is_kept(interfaces, places, i),
        forall|k: int|
            0 <= k < at ==> stands_before(
                interfaces[#[trigger] places[k] as int],
                interfaces[index as int],
            ),
        at < places.len() ==> stands_before(
            interfaces[index as int],
            interfaces[places[at] as int],
        ),
    ensures
        forall|k: int, l: int|
            0 <= k < l < places.insert(at, index).len() ==> stands_before(
                interfaces[#[trigger] places.insert(at, index)[k] as int],
                interfaces[#[trigger] places.insert(at, index)[l] as int],
            ),
        forall|i: int|
            0 <= i <= index ==> #[trigger] is_kept(interfaces, places.insert(at, index), i),
{
    let after = places.insert(at, index);
    assert forall|k: int, l: int| 0 <= k < l < after.len() implies stands_before(
        interfaces[#[trigger] after[k] as int],
        interfaces[#[trigger] after[l] as int],
    ) by {
        if l == at {
            assert(after[k] == places[k]);
        } else if k == at {
            assert(after[l] == places[l - 1]);
            if l - 1 > at {
                assert(stands_before(
                    interfaces[places[at] as int],
                    interfaces[places[l - 1] as int],
                ));
            }
        } else if l < at {
            assert(after[k] == places[k] && after[l] == places[l]);
        } else if k < at {
            assert(after[k] == places[k] && after[l] == places[l - 1]);
        } else {
            assert(after[k] == places[k - 1] && after[l] == places[l - 1]);
        }
    }
    assert forall|i: int| 0 <= i <= index implies #[trigger] is_kept(
        interfaces,
        after,
        i,
    ) by {
        if i == index {
            assert(after[at] == index);
        } else {
            let k = choose|k: int|
                0 <= k < places.len() && #[trigger] places[k] <= i && is_same(
                    interfaces[places[k] as int],
                    interfaces[i],
                );
            assert(is_kept(interfaces, places, i));
            if k < at {
                assert(after[k] == places[k]);
            } else {
                assert(after[k + 1] == places[k]);
            }
        }
    }
}

/// The places of the entries in order; of several entries of the same address of
/// the same interface only the first is kept.
pub fn arrange(interfaces: &[NetworkInterface]) -> (places: Vec<usize>)
    ensures
        is_arrangement(interfaces@, places@),
{
    let mut places: Vec<usize> = Vec::new();
    let mut index: usize = 0;
    while index < interfaces.len()
        invariant
            index <= interfaces@.len(),
            forall|k: int| 0 <= k < places@.len() ==> #[trigger] places@[k] < index,
            forall|k: int, l: int|
                0 <= k < l < places@.len() ==> stands_before(
                    interfaces@[#[trigger] places@[k] as int],
                    interfaces@[#[trigger] places@[l] as int],
                ),
            forall|i: int|
                0 <= i < index ==> #[trigger] is_kept(interfaces@, places@, i),
        decreases interfaces@.len() - index,
    {
        let item = &interfaces[index];
        let ghost old_places = places@;
        let mut at: usize = 0;
        while at < places.len() && (interfaces[places[at]].index < item.index || (
        interfaces[places[at]].index == item.index && is_ip_before(
            interfaces[places[at]].address,
            item.address,
        )))
            invariant
                at <= places@.len(),
                places@ == old_places,
                index < interfaces@.len(),
                *item == interfaces@[index as int],
                forall|k: int| 0 <= k < places@.len() ==> #[trigger] places@[k] < index,
                forall|k: int|
                    0 <= k < at ==> stands_before(interfaces@[#[trigger] places@[k] as int], *item),
            ensures
                at <= places@.len(),
                places@ == old_places,
                forall|k: int|
                    0 <= k < at ==> stands_before(interfaces@[#[trigger] places@[k] as int], *item),
                at < places@.len() ==> !stands_before(
                    interfaces@[places@[at as int] as int],
                    *item,
                ),
            decreases places@.len() - at,
        {
            at = at + 1;
        }
        if at < places.len() && interfaces[places[at]].index == item.index
            && interfaces[places[at]].address == item.address {
            assert(is_same(interfaces@[places@[at as int] as int], *item));
        } else {
            places.insert(at, index);
            proof {
                lemma_put(interfaces@, old_places, at as int, index);
            }
        }
        assert(is_kept(interfaces@, places@, index as int));
        index = index + 1;
    }
    places
}

/// The candidates of an interface snapshot have different addresses.
pub proof fn law_hosts_are_different(
    interfaces: Seq<NetworkInterface>,
    routes: Seq<NetworkRoute>,
    port: u16,
    count: int,
)
    requires
        count <= interfaces.len(),
    ensures
        forall|i: int, j: int|
            0 <= i < j < hosts_of(interfaces, routes, port, count).len() ==> (
            #[trigger] hosts_of(interfaces, routes, port, count)[i]).address != (
            #[trigger] hosts_of(interfaces, routes, port, count)[j]).address,
    decreases count,
{
    if count > 0 {
        law_hosts_are_different(interfaces, routes, port, count - 1);
    }
}

} // verus!
