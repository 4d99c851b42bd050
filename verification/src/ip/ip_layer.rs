//! What the IP layer decides of each packet that arrives or is to be sent.

use vstd::prelude::*;

use super::forwarding_table::{
    given_up, ids_by_our_ip, ids_by_their_ip, learn, own_routes, packets_view, ForwardingTable,
    RoutingEntry, ROUTE_LIFETIME,
};
use super::ip_packet::{
    default_packet, law_default_packet_addresses, law_overwriting_a_header, law_pack_unpack,
    law_unpack_pack, parse_packet, IpPacket, IpPacketError, PacketParts,
};
use super::protocol::Protocol;
use super::rip_message::{rip_parse, RipEntry, INFINITY_COST};
use super::{addr_octets, law_octets_round_trip, Ipv4Addr};
use crate::link::interface::{Interface, InterfaceId, State};
use crate::link::link_layer::{LinkLayer, UnknownInterface};
use crate::misc::ordered::{ascending, lemma_ascending_lists, lists, sorted_keys};

verus! {

broadcast use vstd::std_specs::btree::group_btree_axioms;

pub struct IpLayer {
    pub link_layer: LinkLayer,
    pub table: ForwardingTable,
    /// The protocols that a handler is registered for
    pub handlers: Vec<Protocol>,
}

/// What is done with bytes that arrived on a link.
pub enum RecvAction {
    /// Malformed packet, dropping
    Malformed(IpPacketError),
    /// The packet is for us
    Deliver(IpPacket),
    /// The packet is for someone else and has expired, dropping
    Expired,
    /// The packet is for someone else
    Forward(IpPacket),
}

/// The error for a packet of a protocol that nobody registered a handler for.
#[derive(Debug, Clone, Copy, PartialEq, Eq, Structural)]
pub struct NoHandler(pub Protocol);

/// Whether all routes lead to one of `n` interfaces.
pub open spec fn hops_valid(routes: Map<u32, RoutingEntry>, n: nat) -> bool {
    forall|addr: u32| #[trigger] routes.contains_key(addr) ==> routes[addr].next_hop < n
}

/// Whether some interface has the address.
pub open spec fn is_ours(interfaces: Seq<Interface>, addr: Ipv4Addr) -> bool {
    exists|i: int| 0 <= i < interfaces.len() && (#[trigger] interfaces[i]).our_ip == addr
}

impl IpLayer {
    pub open spec fn wf(self) -> bool {
        let n = self.link_layer.interfaces@.len();
        &&& self.link_layer.wf()
        &&& self.table.wf()
        &&& hops_valid(self.table.table@, n)
        &&& forall|addr: u32| #[trigger]
            self.table.neighbors@.contains_key(addr) ==> self.table.neighbors@[addr] < n
    }

    /// A layer over the given interfaces, each of which has its place as its id.
    pub fn new(interfaces: Vec<Interface>) -> (layer: IpLayer)
        requires
            forall|i: int| 0 <= i < interfaces@.len() ==> (#[trigger] interfaces@[i]).id == i,
        ensures
            layer.wf(),
            layer.link_layer.interfaces@ == interfaces@,
            layer.table.table@ == own_routes(interfaces@),
            layer.table.neighbors@ == ids_by_their_ip(interfaces@),
            layer.table.our_interfaces@ == ids_by_our_ip(interfaces@),
            layer.handlers@ == seq![Protocol::RIP],
    {
        let table = ForwardingTable::new(&interfaces);
        proof {
            lemma_own_hops(interfaces@, interfaces@.len());
        }
        let mut handlers: Vec<Protocol> = Vec::new();
        handlers.push(Protocol::RIP);
        assert(handlers@ =~= seq![Protocol::RIP]);
        IpLayer { link_layer: LinkLayer::new(interfaces), table, handlers }
    }

    /// Decides what is done with bytes that arrived on a link.
    pub fn recv(&self, bytes: &[u8]) -> (action: RecvAction)
        ensures
            match parse_packet(bytes@) {
                Err(e) => action == RecvAction::Malformed(e),
                Ok(parts) => if is_ours(self.link_layer.interfaces@, parts.destination()) {
                    action matches RecvAction::Deliver(packet) && packet@ == parts && parts.wf()
                } else if parts.header[8] == 0 {
                    action is Expired
                } else {
                    action matches RecvAction::Forward(packet) && packet@ == parts.with_bytes(
                        8,
                        seq![(parts.header[8] - 1) as u8],
                    ) && packet@.wf()
                },
            },
    {
        let mut packet = match IpPacket::unpack(bytes) {
            Err(e) => return RecvAction::Malformed(e),
            Ok(p) => p,
        };
        proof {
            law_unpack_pack(bytes@);
        }
        if self.is_our_ip(packet.destination_address()) {
            RecvAction::Deliver(packet)
        } else if packet.time_to_live() == 0 {
            RecvAction::Expired
        } else {
            let time_to_live: u8 = packet.time_to_live() - 1;
            packet.set_time_to_live(time_to_live);
            RecvAction::Forward(packet)
        }
    }

    pub fn is_our_ip(&self, addr: Ipv4Addr) -> (ours: bool)
        ensures
            ours == is_ours(self.link_layer.interfaces@, addr),
    {
        let interfaces = self.link_layer.get_interfaces();
        let mut i: usize = 0;
        while i < interfaces.len()
            invariant
                i <= interfaces@.len(),
                interfaces@ == self.link_layer.interfaces@,
                forall|k: int| 0 <= k < i ==> (#[trigger] interfaces@[k]).our_ip != addr,
            decreases interfaces@.len() - i,
        {
            if interfaces[i].our_ip == addr {
                assert(self.link_layer.interfaces@[i as int].our_ip == addr);
                return true;
            }
            i += 1;
        }
        false
    }

    /// What goes out on which interface for a packet that is to be sent. None if there is no next
    /// hop, in which case it is dropped. A packet without a source address gets ours.
    pub fn outgoing(&self, packet: IpPacket) -> (sent: Option<(InterfaceId, Vec<u8>)>)
        requires
            self.wf(),
        ensures
            match self.table.next_hop(packet@.destination(), self.link_layer.interfaces@) {
                None => sent is None,
                Some(id) => {
                    &&& sent matches Some((sent_id, bytes))
                    &&& sent_id == id
                    &&& bytes@ == if packet@.source() != 0 {
                        packet@.packed()
                    } else {
                        packet@.with_bytes(
                            12,
                            addr_octets(self.link_layer.interfaces@[id as int].our_ip),
                        ).packed()
                    }
                },
            },
    {
        let mut packet = packet;
        match self.table.get_next_hop(
            packet.destination_address(),
            self.link_layer.get_interfaces(),
        ) {
            None => None,
            Some(id) => {
                if !packet.source_address_set() {
                    packet.set_source_address(self.link_layer.get_our_ip(id).unwrap());
                }
                Some((id, packet.pack()))
            },
        }
    }

    pub fn toggle_interface(&mut self, id: InterfaceId, state: State) -> (result: Result<
        (),
        UnknownInterface,
    >)
        requires
            old(self).wf(),
        ensures
            final(self).wf(),
            final(self).table == old(self).table,
            final(self).handlers == old(self).handlers,
            if id >= old(self).link_layer.interfaces@.len() {
                &&& result == Err::<(), UnknownInterface>(UnknownInterface)
                &&& final(self).link_layer.interfaces@ == old(self).link_layer.interfaces@
            } else {
                &&& result == Ok::<(), UnknownInterface>(())
                &&& final(self).link_layer.interfaces@ == old(self).link_layer.interfaces@.update(
                    id as int,
                    Interface { state, ..old(self).link_layer.interfaces@[id as int] },
                )
            },
    {
        match state {
            State::UP => self.link_layer.up(id),
            State::DOWN => self.link_layer.down(id),
        }
    }

    /// The packet to send for some data. None if the data is too long, in which case it is dropped.
    pub fn send(&self, their_ip: Ipv4Addr, protocol: Protocol, data: &[u8]) -> (packet: Option<
        IpPacket,
    >)
        ensures
            match packet {
                Some(packet) => {
                    &&& 20 + data@.len() <= 65535
                    &&& packet@ == default_packet(their_ip, protocol, data@)
                    &&& packet@.wf()
                },
                None => 20 + data@.len() > 65535,
            },
    {
        match IpPacket::new_with_defaults(their_ip, protocol, data) {
            Ok(packet) => Some(packet),
            Err(_) => None,
        }
    }

    /// The routes that are in use, by address.
    pub fn routes(&self) -> (routes: Vec<(Ipv4Addr, RoutingEntry)>)
        ensures
            routes@ == live_routes(self.table.table@, ascending(self.table.table@.dom())),
    {
        let keys: Vec<u32> = sorted_keys(self.table.get_table());
        let mut routes: Vec<(Ipv4Addr, RoutingEntry)> = Vec::new();
        let mut i: usize = 0;
        assert(keys@.take(0) =~= Seq::<u32>::empty());
        while i < keys.len()
            invariant
                i <= keys@.len(),
                lists(keys@, self.table.table@.dom()),
                routes@ == live_routes(self.table.table@, keys@.take(i as int)),
            decreases keys@.len() - i,
        {
            let addr: u32 = keys[i];
            proof {
                assert(keys@.contains(addr));
                assert(self.table.table@.dom().contains(addr));
                assert(keys@.take(i + 1).drop_last() =~= keys@.take(i as int));
            }
            let route = *self.table.table.get(&addr).unwrap();
            if route.cost < INFINITY_COST {
                routes.push((addr, route));
            }
            i += 1;
        }
        assert(keys@.take(i as int) =~= keys@);
        routes
    }

    /// Our address on the interface that leads to `dst_ip`.
    pub fn get_src_from_dst(&self, dst_ip: Ipv4Addr) -> (src: Option<Ipv4Addr>)
        requires
            self.wf(),
        ensures
            src == match self.table.next_hop(dst_ip, self.link_layer.interfaces@) {
                Some(id) => Some(self.link_layer.interfaces@[id as int].our_ip),
                None => None,
            },
    {
        match self.table.get_next_hop(dst_ip, self.link_layer.get_interfaces()) {
            Some(next_hop) => match self.link_layer.get_our_ip(next_hop) {
                Ok(ip) => Some(ip),
                Err(_) => None,
            },
            None => None,
        }
    }

    pub fn register_handler(&mut self, protocol_num: Protocol)
        requires
            old(self).wf(),
        ensures
            final(self).wf(),
            final(self).handlers@ == old(self).handlers@.push(protocol_num),
            final(self).table == old(self).table,
            final(self).link_layer == old(self).link_layer,
    {
        self.handlers.push(protocol_num);
    }

    /// The protocol whose handler gets a packet that is for us.
    pub fn handle_packet(&self, packet: &IpPacket) -> (result: Result<Protocol, NoHandler>)
        requires
            Protocol::is_number(packet@.header[9]),
        ensures
            match result {
                Ok(protocol) => protocol.number() == packet@.header[9] && self.handlers@.contains(
                    protocol,
                ),
                Err(NoHandler(protocol)) => protocol.number() == packet@.header[9]
                    && !self.handlers@.contains(protocol),
            },
    {
        let protocol = packet.protocol();
        let mut i: usize = 0;
        while i < self.handlers.len()
            invariant
                i <= self.handlers@.len(),
                protocol.number() == packet@.header[9],
                forall|k: int| 0 <= k < i ==> #[trigger] self.handlers@[k] != protocol,
            decreases self.handlers@.len() - i,
        {
            if self.handlers[i] == protocol {
                assert(self.handlers@[i as int] == protocol);
                return Ok(protocol);
            }
            i += 1;
        }
        Err(NoHandler(protocol))
    }

    /// The handler of RIP packets.
    pub fn handle_rip(&mut self, packet: &IpPacket, now: u64) -> (packets: Vec<IpPacket>)
        requires
            old(self).wf(),
            now <= u64::MAX - ROUTE_LIFETIME,
        ensures
            final(self).wf(),
            final(self).link_layer == old(self).link_layer,
            final(self).handlers == old(self).handlers,
            old(self).table.handles_rip(final(self).table, packet@, now, packets_view(packets@)),
    {
        proof {
            if let Some((command, entries)) = rip_parse(packet@.data) {
                let source = packet@.source();
                if self.table.neighbors@.contains_key(source) {
                    lemma_learned_hops(
                        self.table.table@,
                        self.table.our_interfaces@,
                        self.table.neighbors@[source],
                        now,
                        entries,
                        self.link_layer.interfaces@.len(),
                    );
                }
            }
        }
        self.table.handle_rip(packet, now)
    }

    /// Gives up the routes that are dead and returns what to send because of that.
    pub fn reap(&mut self, now: u64) -> (packets: Vec<IpPacket>)
        requires
            old(self).wf(),
        ensures
            final(self).wf(),
            final(self).link_layer == old(self).link_layer,
            final(self).handlers == old(self).handlers,
            old(self).table.reaps(
                final(self).table,
                old(self).link_layer.interfaces@,
                now,
                packets_view(packets@),
            ),
    {
        let packets = self.table.reap(self.link_layer.get_interfaces(), now);
        proof {
            let dead = given_up(old(self).table.table@, self.link_layer.interfaces@, now);
            assert forall|addr: u32| #[trigger] self.table.table@.contains_key(addr) implies
                self.table.table@[addr].next_hop < self.link_layer.interfaces@.len() by {
                assert(old(self).table.table@.contains_key(addr));
            }
        }
        packets
    }
}

/// The routes to the given addresses that are of finite cost.
pub open spec fn live_routes(table: Map<u32, RoutingEntry>, keys: Seq<u32>) -> Seq<
    (Ipv4Addr, RoutingEntry),
>
    decreases keys.len(),
{
    if keys.len() == 0 {
        Seq::empty()
    } else {
        let rest = live_routes(table, keys.drop_last());
        if table[keys.last()].cost < INFINITY_COST {
            rest.push((keys.last(), table[keys.last()]))
        } else {
            rest
        }
    }
}

proof fn lemma_own_hops(interfaces: Seq<Interface>, n: nat)
    requires
        interfaces.len() <= n,
        forall|i: int| 0 <= i < interfaces.len() ==> (#[trigger] interfaces[i]).id == i,
    ensures
        hops_valid(own_routes(interfaces), n),
        forall|addr: u32| #[trigger]
            ids_by_their_ip(interfaces).contains_key(addr) ==> ids_by_their_ip(interfaces)[addr]
                < n,
    decreases interfaces.len(),
{
    if interfaces.len() > 0 {
        let short = interfaces.drop_last();
        assert forall|i: int| 0 <= i < short.len() implies (#[trigger] short[i]).id == i by {
            assert(interfaces[i].id == i);
        }
        lemma_own_hops(short, n);
        assert(interfaces[interfaces.len() - 1].id == interfaces.len() - 1);
        assert(interfaces.last().id < n);
        assert forall|addr: u32| #[trigger] ids_by_their_ip(interfaces).contains_key(
            addr,
        ) implies ids_by_their_ip(interfaces)[addr] < n by {
            if addr != interfaces.last().their_ip {
                assert(ids_by_their_ip(short).contains_key(addr));
            }
        }
        assert forall|addr: u32| #[trigger] own_routes(interfaces).contains_key(addr) implies
            own_routes(interfaces)[addr].next_hop < n by {
            if addr != interfaces.last().our_ip {
                assert(own_routes(short).contains_key(addr));
            }
        }
    }
}

proof fn lemma_learned_hops(
    table: Map<u32, RoutingEntry>,
    ours: Map<u32, InterfaceId>,
    neighbor: InterfaceId,
    now: u64,
    entries: Seq<RipEntry>,
    n: nat,
)
    requires
        hops_valid(table, n),
        neighbor < n,
    ensures
        hops_valid(learn(table, ours, neighbor, now, entries).0, n),
    decreases entries.len(),
{
    if entries.len() > 0 {
        lemma_learned_hops(table, ours, neighbor, now, entries.drop_last(), n);
        let before = learn(table, ours, neighbor, now, entries.drop_last()).0;
        let after = learn(table, ours, neighbor, now, entries).0;
        assert forall|addr: u32| #[trigger] after.contains_key(addr) implies after[addr].next_hop
            < n by {
            if addr != entries.last().address {
                assert(before.contains_key(addr));
            } else if before.contains_key(addr) {
                assert(before[addr].next_hop < n);
            }
        }
    }
}

/// A packet that is not for us loses one of its lives on each hop, so it is forwarded no more often
/// than its time to live says.
pub proof fn law_forwarding_ends(packet: PacketParts)
    requires
        packet.wf(),
        packet.header[8] > 0,
    ensures
        ({
            let forwarded = packet.with_bytes(8, seq![(packet.header[8] - 1) as u8]);
            &&& forwarded.header[8] == packet.header[8] - 1
            &&& forwarded.destination() == packet.destination()
            &&& forwarded.source() == packet.source()
            &&& forwarded.data == packet.data
            &&& forwarded.options == packet.options
        }),
{
}

/// What arrives: a packet to one of our addresses is delivered as it came. One to anyone else is
/// dropped if its time to live is over, and otherwise forwarded with one hop less to live, a
/// checksum that holds, and everything else as it came. What is no packet is dropped.
pub proof fn law_arrivals(layer: &IpLayer, bytes: &[u8], action: RecvAction)
    requires
        call_ensures(IpLayer::recv, (layer, bytes), action),
    ensures
        match parse_packet(bytes@) {
            Err(e) => action == RecvAction::Malformed(e),
            Ok(packet) => {
                let ours = exists|i: int|
                    0 <= i < layer.link_layer.interfaces@.len() && (
                    #[trigger] layer.link_layer.interfaces@[i]).our_ip == packet.destination();
                &&& ours ==> action is Deliver && (action->Deliver_0)@ == packet
                &&& !ours && packet.header[8] == 0 ==> action is Expired
                &&& !ours && packet.header[8] > 0 ==> {
                    let forwarded = (action->Forward_0)@;
                    &&& action is Forward
                    &&& forwarded.header[8] == packet.header[8] - 1
                    &&& forall|i: int|
                        0 <= i < 20 && i != 8 && i != 10 && i != 11 ==> #[trigger]
                        forwarded.header[i] == packet.header[i]
                    &&& forwarded.destination() == packet.destination()
                    &&& forwarded.source() == packet.source()
                    &&& forwarded.options == packet.options
                    &&& forwarded.data == packet.data
                    &&& forwarded.checksum_valid()
                }
            },
        },
{
    if let Ok(packet) = parse_packet(bytes@) {
        law_unpack_pack(bytes@);
        let ours = is_ours(layer.link_layer.interfaces@, packet.destination());
        if !ours && packet.header[8] > 0 {
            law_overwriting_a_header(packet, 8, seq![(packet.header[8] - 1) as u8]);
            let forwarded = packet.with_bytes(8, seq![(packet.header[8] - 1) as u8]);
            assert(forwarded.header.subrange(8, 9)[0] == forwarded.header[8]);
        }
    }
}

/// What is sent: a packet leaves over the interface of a neighbor that is up, or else over that of a
/// route of finite cost, and is dropped only where there is neither. What leaves is read back as the
/// packet, which comes from our address on that interface unless it came from elsewhere.
pub proof fn law_departures(layer: &IpLayer, packet: IpPacket, sent: Option<(InterfaceId, Vec<u8>)>)
    requires
        layer.wf(),
        packet@.wf(),
        call_ensures(IpLayer::outgoing, (layer, packet), sent),
    ensures
        ({
            let to = packet@.destination();
            let table = layer.table.table@;
            let neighbors = layer.table.neighbors@;
            let interfaces = layer.link_layer.interfaces@;
            let up = neighbors.contains_key(to) && interfaces[neighbors[to] as int].state
                == State::UP;
            let routed = table.contains_key(to) && table[to].cost < 16;
            &&& sent is Some <==> up || routed
            &&& up ==> (sent->0).0 == neighbors[to]
            &&& !up && routed ==> (sent->0).0 == table[to].next_hop
            &&& sent is Some ==> {
                let read = parse_packet((sent->0).1@);
                let left = read->Ok_0;
                &&& read is Ok
                &&& left.destination() == to
                &&& left.data == packet@.data
                &&& left.options == packet@.options
                &&& left.header[8] == packet@.header[8]
                &&& left.header[9] == packet@.header[9]
                &&& left.source() == if packet@.source() != 0 {
                    packet@.source()
                } else {
                    interfaces[(sent->0).0 as int].our_ip
                }
            }
        }),
{
    if sent is Some {
        let ours = layer.link_layer.interfaces@[(sent->0).0 as int].our_ip;
        let left = packet@.with_bytes(12, addr_octets(ours));
        law_overwriting_a_header(packet@, 12, addr_octets(ours));
        law_octets_round_trip(ours, left.header, 12);
        law_pack_unpack(packet@);
        law_pack_unpack(left);
    }
}

/// Data is sent in a packet to where it is meant to go, unless it is too long for one.
pub proof fn law_data_is_packed(
    layer: &IpLayer,
    their_ip: Ipv4Addr,
    protocol: Protocol,
    data: &[u8],
    packet: Option<IpPacket>,
)
    requires
        call_ensures(IpLayer::send, (layer, their_ip, protocol, data), packet),
    ensures
        packet is Some <==> data@.len() <= 65515,
        packet is Some ==> {
            let packet = (packet->0)@;
            &&& packet.destination() == their_ip
            &&& packet.source() == 0
            &&& packet.header[9] == match protocol {
                Protocol::Test => 0u8,
                Protocol::Tcp => 6,
                Protocol::RIP => 200,
            }
            &&& packet.header[8] == 2
            &&& packet.data == data@
            &&& parse_packet(packet.packed()) == Ok::<PacketParts, IpPacketError>(packet)
        },
{
    if packet is Some {
        law_default_packet_addresses(their_ip, protocol, data@);
        law_pack_unpack((packet->0)@);
    }
}

/// The routes shown are those of finite cost, each once, in the order of their addresses.
pub proof fn law_live_routes_are_shown(layer: &IpLayer, routes: Vec<(Ipv4Addr, RoutingEntry)>)
    requires
        layer.table.table@.dom().finite(),
        call_ensures(IpLayer::routes, (layer,), routes),
    ensures
        forall|addr: Ipv4Addr, route: RoutingEntry| #[trigger]
            routes@.contains((addr, route)) <==> layer.table.table@.contains_key(addr)
                && layer.table.table@[addr] == route && route.cost < 16,
        forall|i: int, j: int|
            0 <= i < j < routes@.len() ==> (#[trigger] routes@[i]).0 < (#[trigger] routes@[j]).0,
{
    let table = layer.table.table@;
    let keys = ascending(table.dom());
    lemma_ascending_lists(table.dom());
    lemma_live_routes(table, keys);
    assert forall|addr: Ipv4Addr, route: RoutingEntry| #[trigger]
        routes@.contains((addr, route)) <==> table.contains_key(addr) && table[addr] == route
            && route.cost < 16 by {
        assert(table.dom().contains(addr) <==> keys.contains(addr));
    }
}

proof fn lemma_live_routes(table: Map<u32, RoutingEntry>, keys: Seq<u32>)
    requires
        forall|i: int, j: int|
            #![trigger keys[i], keys[j]]
            0 <= i < j < keys.len() ==> keys[i] < keys[j],
    ensures
        ({
            let routes = live_routes(table, keys);
            &&& forall|addr: u32, route: RoutingEntry| #[trigger]
                routes.contains((addr, route)) <==> keys.contains(addr) && table[addr] == route
                    && route.cost < INFINITY_COST
            &&& forall|i: int, j: int|
                0 <= i < j < routes.len() ==> (#[trigger] routes[i]).0 < (#[trigger] routes[j]).0
            &&& forall|i: int|
                0 <= i < routes.len() ==> keys.len() > 0 && (#[trigger] routes[i]).0 <= keys.last()
        }),
    decreases keys.len(),
{
    let routes = live_routes(table, keys);
    if keys.len() > 0 {
        let shorter = keys.drop_last();
        let rest = live_routes(table, shorter);
        let last = (keys.last(), table[keys.last()]);
        assert forall|i: int, j: int|
            #![trigger shorter[i], shorter[j]]
            0 <= i < j < shorter.len() implies shorter[i] < shorter[j] by {
            assert(keys[i] < keys[j]);
        }
        lemma_live_routes(table, shorter);
        if shorter.len() > 0 {
            assert(keys[keys.len() - 2] < keys[keys.len() - 1]);
        }
        assert forall|addr: u32, route: RoutingEntry| #[trigger]
            routes.contains((addr, route)) <==> keys.contains(addr) && table[addr] == route
                && route.cost < INFINITY_COST by {
            if keys.contains(addr) {
                let k = choose|k: int| 0 <= k < keys.len() && keys[k] == addr;
                if k < shorter.len() {
                    assert(shorter[k] == addr);
                }
            }
            if shorter.contains(addr) {
                let k = choose|k: int| 0 <= k < shorter.len() && shorter[k] == addr;
                assert(keys[k] == addr);
            }
            if rest.contains((addr, route)) {
                let k = choose|k: int| 0 <= k < rest.len() && rest[k] == (addr, route);
                assert(routes[k] == (addr, route));
            }
            if routes.contains((addr, route)) {
                let k = choose|k: int| 0 <= k < routes.len() && routes[k] == (addr, route);
                if k < rest.len() {
                    assert(rest[k] == (addr, route));
                } else {
                    assert(keys[keys.len() - 1] == addr);
                }
            }
            if (addr, route) == last && route.cost < INFINITY_COST {
                assert(routes[rest.len() as int] == last);
            }
        }
        assert forall|i: int, j: int| 0 <= i < j < routes.len() implies (#[trigger] routes[i]).0 < (
        #[trigger] routes[j]).0 by {
            assert(routes[i] == rest[i]);
            if j < rest.len() {
                assert(routes[j] == rest[j]);
            }
        }
        assert forall|i: int| 0 <= i < routes.len() implies keys.len() > 0 && (
        #[trigger] routes[i]).0 <= keys.last() by {
            if i < rest.len() {
                assert(routes[i] == rest[i]);
            }
        }
    } else {
        assert forall|addr: u32, route: RoutingEntry| #[trigger]
            routes.contains((addr, route)) implies keys.contains(addr) by {}
    }
}

/// A connection to an address uses our address on the interface that packets to there leave by.
pub proof fn law_source_fits_the_route(layer: &IpLayer, to: Ipv4Addr, source: Option<Ipv4Addr>)
    requires
        layer.wf(),
        call_ensures(IpLayer::get_src_from_dst, (layer, to), source),
    ensures
        ({
            let table = layer.table.table@;
            let neighbors = layer.table.neighbors@;
            let interfaces = layer.link_layer.interfaces@;
            let up = neighbors.contains_key(to) && interfaces[neighbors[to] as int].state
                == State::UP;
            let routed = table.contains_key(to) && table[to].cost < 16;
            &&& up ==> source == Some(interfaces[neighbors[to] as int].our_ip)
            &&& !up && routed ==> source == Some(interfaces[table[to].next_hop as int].our_ip)
            &&& !up && !routed ==> source is None
        }),
{
}

/// A packet for us goes to the handler of its protocol, if one is registered.
pub proof fn law_handlers(
    layer: &IpLayer,
    packet: &IpPacket,
    result: Result<Protocol, NoHandler>,
    protocol: Protocol,
)
    requires
        packet@.header[9] == match protocol {
            Protocol::Test => 0u8,
            Protocol::Tcp => 6,
            Protocol::RIP => 200,
        },
        call_ensures(IpLayer::handle_packet, (layer, packet), result),
    ensures
        layer.handlers@.contains(protocol) ==> result == Ok::<Protocol, NoHandler>(protocol),
        !layer.handlers@.contains(protocol) ==> result == Err::<Protocol, NoHandler>(
            NoHandler(protocol),
        ),
{
}

/// Turning an interface up or down changes the state of that interface and nothing else. There is
/// no interface beyond the last.
pub proof fn law_toggling(
    layer: &mut IpLayer,
    id: InterfaceId,
    state: State,
    result: Result<(), UnknownInterface>,
    i: int,
)
    requires
        0 <= i < old(layer).link_layer.interfaces@.len(),
        call_ensures(IpLayer::toggle_interface, (layer, id, state), result),
    ensures
        result is Ok <==> id < old(layer).link_layer.interfaces@.len(),
        final(layer).table == old(layer).table,
        final(layer).link_layer.interfaces@.len() == old(layer).link_layer.interfaces@.len(),
        final(layer).link_layer.interfaces@[i] == (if i == id {
            Interface { state, ..old(layer).link_layer.interfaces@[i] }
        } else {
            old(layer).link_layer.interfaces@[i]
        }),
{
}

/// The layer's own handling of RIP packets and of dead routes is the forwarding table's, over the
/// layer's interfaces.
pub proof fn law_layer_keeps_the_table(
    layer: &mut IpLayer,
    packet: &IpPacket,
    now: u64,
    packets: Vec<IpPacket>,
)
    requires
        call_ensures(IpLayer::handle_rip, (layer, packet, now), packets) || call_ensures(
            IpLayer::reap,
            (layer, now),
            packets,
        ),
    ensures
        final(layer).link_layer == old(layer).link_layer,
        final(layer).handlers == old(layer).handlers,
        call_ensures(IpLayer::handle_rip, (layer, packet, now), packets) ==> old(layer).table.handles_rip(final(layer).table, packet@, now, packets_view(packets@)),
        call_ensures(IpLayer::reap, (layer, now), packets) ==> old(layer).table.reaps(
            final(layer).table,
            old(layer).link_layer.interfaces@,
            now,
            packets_view(packets@),
        ),
{
}

/// A new layer listens for RIP alone, until other handlers are registered.
pub proof fn law_handlers_are_registered(layer: &mut IpLayer, protocol: Protocol)
    requires
        call_ensures(IpLayer::register_handler, (layer, protocol), ()),
    ensures
        final(layer).handlers@.contains(protocol),
        forall|other: Protocol|
            other != protocol ==> (#[trigger] final(layer).handlers@.contains(other) <==> old(layer).handlers@.contains(other)),
        final(layer).table == old(layer).table,
        final(layer).link_layer == old(layer).link_layer,
{
    let before = old(layer).handlers@;
    let after = final(layer).handlers@;
    assert(after[before.len() as int] == protocol);
    assert forall|other: Protocol| other != protocol implies (#[trigger] after.contains(other)
        <==> before.contains(other)) by {
        if before.contains(other) {
            let k = choose|k: int| 0 <= k < before.len() && before[k] == other;
            assert(after[k] == other);
        }
        if after.contains(other) {
            let k = choose|k: int| 0 <= k < after.len() && after[k] == other;
            assert(before[k] == other);
        }
    }
}

} // verus!
