//! Routes, learned from neighbors over RIP.

use std::collections::BTreeMap;

use vstd::prelude::*;
use vstd::string::StringExecFns;

use super::ip_packet::{default_packet, law_default_packet_addresses, IpPacket, PacketParts};
use super::protocol::Protocol;
use super::rip_message::{
    law_rip_round_trip, msg_bytes, rip_parse, RipCommand, RipEntry, RipMsg, INFINITY_COST,
};
use super::Ipv4Addr;
use crate::link::interface::{Interface, InterfaceId, State};
use crate::misc::ordered::{ascending, lemma_ascending_lists, lists, sorted_keys};
use crate::misc::text::{decimal_string, decimal_text};

verus! {

broadcast use vstd::std_specs::btree::group_btree_axioms;

pub const SUBNET_MASK: u32 = 0xffff_ffff;

/// How long a learned route holds, in nanoseconds.
pub const ROUTE_LIFETIME: u64 = 12_000_000_000;

/// The most entries that fit into the packet of a response.
pub const MAX_RESPONSE_ENTRIES: usize = 5459;

#[derive(Debug, Copy, Clone, PartialEq, Eq, Structural)]
pub struct RoutingEntry {
    pub next_hop: InterfaceId,
    pub cost: u8,
    /// When the route stops to hold, none for our own addresses
    pub expiration_time: Option<u64>,
}

pub struct ForwardingTable {
    pub table: BTreeMap<u32, RoutingEntry>,
    pub neighbors: BTreeMap<u32, InterfaceId>,
    pub our_interfaces: BTreeMap<u32, InterfaceId>,
}

/// The routes to the addresses of our own interfaces.
pub open spec fn own_routes(interfaces: Seq<Interface>) -> Map<u32, RoutingEntry>
    decreases interfaces.len(),
{
    if interfaces.len() == 0 {
        Map::empty()
    } else {
        own_routes(interfaces.drop_last()).insert(
            interfaces.last().our_ip,
            RoutingEntry { next_hop: interfaces.last().id, cost: 0, expiration_time: None },
        )
    }
}

/// The interfaces by their far ends.
pub open spec fn ids_by_their_ip(interfaces: Seq<Interface>) -> Map<u32, InterfaceId>
    decreases interfaces.len(),
{
    if interfaces.len() == 0 {
        Map::empty()
    } else {
        ids_by_their_ip(interfaces.drop_last()).insert(
            interfaces.last().their_ip,
            interfaces.last().id,
        )
    }
}

/// The interfaces by our own addresses.
pub open spec fn ids_by_our_ip(interfaces: Seq<Interface>) -> Map<u32, InterfaceId>
    decreases interfaces.len(),
{
    if interfaces.len() == 0 {
        Map::empty()
    } else {
        ids_by_our_ip(interfaces.drop_last()).insert(
            interfaces.last().our_ip,
            interfaces.last().id,
        )
    }
}

/// The route that an entry heard from a neighbor offers.
pub open spec fn offered_route(entry: RipEntry, neighbor: InterfaceId, now: u64) -> RoutingEntry {
    RoutingEntry {
        next_hop: neighbor,
        cost: if entry.cost + 1 < INFINITY_COST {
            (entry.cost + 1) as u8
        } else {
            INFINITY_COST
        },
        expiration_time: Some((now + ROUTE_LIFETIME) as u64),
    }
}

/// Whether a route is taken: there is none yet, it is better than the one there is, or it renews
/// the word of the neighbor that gave that one.
pub open spec fn takes_route(
    table: Map<u32, RoutingEntry>,
    ours: Map<u32, InterfaceId>,
    addr: u32,
    route: RoutingEntry,
) -> bool {
    ||| !table.contains_key(addr)
    ||| route.cost < table[addr].cost
    ||| !ours.contains_key(addr) && table[addr].next_hop == route.next_hop
}

/// The table after the entries of a response have been heard in order, and the routes taken.
pub open spec fn learn(
    table: Map<u32, RoutingEntry>,
    ours: Map<u32, InterfaceId>,
    neighbor: InterfaceId,
    now: u64,
    entries: Seq<RipEntry>,
) -> (Map<u32, RoutingEntry>, Map<u32, RoutingEntry>)
    decreases entries.len(),
{
    if entries.len() == 0 {
        (table, Map::empty())
    } else {
        let (before, updated) = learn(table, ours, neighbor, now, entries.drop_last());
        let entry = entries.last();
        let route = offered_route(entry, neighbor, now);
        if takes_route(before, ours, entry.address, route) {
            (before.insert(entry.address, route), updated.insert(entry.address, route))
        } else {
            (before, updated)
        }
    }
}

/// What a neighbor on `interface` is told of a route: a route through the neighbor itself is
/// poisoned.
pub open spec fn told_entry(
    routes: Map<u32, RoutingEntry>,
    interface: InterfaceId,
    addr: u32,
) -> RipEntry {
    RipEntry {
        cost: if routes[addr].next_hop == interface && routes[addr].cost != 0 {
            INFINITY_COST
        } else {
            routes[addr].cost
        },
        address: addr,
        mask: SUBNET_MASK,
    }
}

/// What a neighbor on `interface` is told of all routes.
pub open spec fn told_entries(routes: Map<u32, RoutingEntry>, interface: InterfaceId) -> Seq<
    RipEntry,
> {
    let keys = ascending(routes.dom());
    Seq::new(keys.len(), |i: int| told_entry(routes, interface, keys[i]))
}

/// The packet that carries a RIP message to a neighbor.
pub open spec fn rip_packet(
    destination: u32,
    command: RipCommand,
    entries: Seq<RipEntry>,
) -> PacketParts {
    default_packet(destination, Protocol::RIP, msg_bytes(command, entries))
}

/// The packets that tell all neighbors of some routes. More routes than fit into a packet are not
/// told at all.
pub open spec fn response_packets(
    neighbors: Map<u32, InterfaceId>,
    routes: Map<u32, RoutingEntry>,
) -> Seq<PacketParts> {
    let keys = ascending(neighbors.dom());
    if ascending(routes.dom()).len() > MAX_RESPONSE_ENTRIES {
        Seq::empty()
    } else {
        Seq::new(
            keys.len(),
            |i: int|
                rip_packet(
                    keys[i],
                    RipCommand::Response,
                    told_entries(routes, neighbors[keys[i]]),
                ),
        )
    }
}

/// The packets that ask all neighbors for their routes.
pub open spec fn request_packets(neighbors: Map<u32, InterfaceId>) -> Seq<PacketParts> {
    let keys = ascending(neighbors.dom());
    Seq::new(keys.len(), |i: int| rip_packet(keys[i], RipCommand::Request, Seq::empty()))
}

pub open spec fn packets_view(packets: Seq<IpPacket>) -> Seq<PacketParts> {
    packets.map_values(|packet: IpPacket| packet@)
}

/// Whether a route is to be given up: its time is over or the interface that it uses is down.
pub open spec fn is_dead(route: RoutingEntry, interfaces: Seq<Interface>, now: u64) -> bool {
    &&& route.expiration_time is Some
    &&& route.cost != INFINITY_COST
    &&& route.expiration_time->0 < now || (route.next_hop < interfaces.len()
        && interfaces[route.next_hop as int].state == State::DOWN)
}

/// The routes that are given up, with their cost at infinity.
pub open spec fn given_up(
    table: Map<u32, RoutingEntry>,
    interfaces: Seq<Interface>,
    now: u64,
) -> Map<u32, RoutingEntry> {
    Map::new(
        |addr: u32| table.contains_key(addr) && is_dead(table[addr], interfaces, now),
        |addr: u32| RoutingEntry { cost: INFINITY_COST, ..table[addr] },
    )
}

/// What the first `i + 1` of distinct keys hold.
proof fn lemma_take_one_more(keys: Seq<u32>, i: int)
    requires
        0 <= i < keys.len(),
        forall|a: int, b: int|
            #![trigger keys[a], keys[b]]
            0 <= a < b < keys.len() ==> keys[a] < keys[b],
    ensures
        forall|k: u32| #[trigger]
            keys.take(i + 1).contains(k) <==> keys.take(i).contains(k) || k == keys[i],
        !keys.take(i).contains(keys[i]),
{
    let short = keys.take(i);
    let long = keys.take(i + 1);
    assert forall|k: u32| #[trigger] long.contains(k) <==> short.contains(k) || k == keys[i] by {
        if long.contains(k) {
            let j = choose|j: int| 0 <= j < long.len() && long[j] == k;
            if j < i {
                assert(short[j] == k);
            }
        }
        if short.contains(k) {
            let j = choose|j: int| 0 <= j < short.len() && short[j] == k;
            assert(long[j] == k);
        }
        if k == keys[i] {
            assert(long[i] == k);
        }
    }
    if short.contains(keys[i]) {
        let j = choose|j: int| 0 <= j < short.len() && short[j] == keys[i];
        assert(keys[j] < keys[i]);
    }
}

impl RoutingEntry {
    /// The whole seconds that the route still holds, none for our own addresses.
    pub open spec fn seconds_left(self, now: u64) -> Option<int> {
        match self.expiration_time {
            Some(t) => if t < now {
                Some(0)
            } else {
                Some((t - now) / 1_000_000_000)
            },
            None => None,
        }
    }

    /// The route as it is shown to the user, with the time that it still holds if `verbose`.
    pub open spec fn text(self, verbose: bool, now: u64) -> Seq<char> {
        let head = "next_hop "@ + decimal_text(self.next_hop as int) + ", cost "@ + decimal_text(
            self.cost as int,
        );
        if !verbose {
            head
        } else {
            match self.seconds_left(now) {
                Some(left) => head + ", time_remaining Some("@ + decimal_text(left) + ")"@,
                None => head + ", time_remaining None"@,
            }
        }
    }

    pub fn to_string(&self, verbose: bool, now: u64) -> (s: String)
        ensures
            s@ == self.text(verbose, now),
    {
        let mut s = "next_hop ".to_owned();
        s.append(decimal_string(self.next_hop as u64).as_str());
        s.append(", cost ");
        s.append(decimal_string(self.cost as u64).as_str());
        if verbose {
            match self.expiration_time {
                Some(t) => {
                    let left: u64 = if t < now {
                        0
                    } else {
                        (t - now) / 1_000_000_000
                    };
                    s.append(", time_remaining Some(");
                    s.append(decimal_string(left).as_str());
                    s.append(")");
                },
                None => s.append(", time_remaining None"),
            }
        }
        s
    }
}

impl ForwardingTable {
    /// All costs are valid, and the routes to our own addresses cost nothing and never expire.
    pub open spec fn wf(self) -> bool {
        &&& forall|addr: u32| #[trigger]
            self.table@.contains_key(addr) ==> self.table@[addr].cost <= INFINITY_COST
        &&& forall|addr: u32| #[trigger]
            self.our_interfaces@.contains_key(addr) ==> {
                &&& self.table@.contains_key(addr)
                &&& self.table@[addr].cost == 0
                &&& self.table@[addr].expiration_time is None
            }
    }

    pub fn new(interfaces: &Vec<Interface>) -> (forwarding_table: ForwardingTable)
        ensures
            forwarding_table.wf(),
            forwarding_table.table@ == own_routes(interfaces@),
            forwarding_table.neighbors@ == ids_by_their_ip(interfaces@),
            forwarding_table.our_interfaces@ == ids_by_our_ip(interfaces@),
    {
        let mut table: BTreeMap<u32, RoutingEntry> = BTreeMap::new();
        let mut neighbors: BTreeMap<u32, InterfaceId> = BTreeMap::new();
        let mut our_interfaces: BTreeMap<u32, InterfaceId> = BTreeMap::new();
        let mut i: usize = 0;
        assert(interfaces@.take(0) =~= Seq::<Interface>::empty());
        while i < interfaces.len()
            invariant
                i <= interfaces@.len(),
                table@ == own_routes(interfaces@.take(i as int)),
                neighbors@ == ids_by_their_ip(interfaces@.take(i as int)),
                our_interfaces@ == ids_by_our_ip(interfaces@.take(i as int)),
                forall|addr: u32| #[trigger]
                    table@.contains_key(addr) ==> table@[addr].cost == 0
                        && table@[addr].expiration_time is None,
                forall|addr: u32| #[trigger]
                    our_interfaces@.contains_key(addr) ==> table@.contains_key(addr),
            decreases interfaces@.len() - i,
        {
            let interface = &interfaces[i];
            assert(interfaces@.take(i + 1).drop_last() =~= interfaces@.take(i as int));
            table.insert(
                interface.our_ip,
                RoutingEntry { next_hop: interface.id, cost: 0, expiration_time: None },
            );
            neighbors.insert(interface.their_ip, interface.id);
            our_interfaces.insert(interface.our_ip, interface.id);
            i += 1;
        }
        assert(interfaces@.take(i as int) =~= interfaces@);
        ForwardingTable { table, neighbors, our_interfaces }
    }

    pub fn get_table(&self) -> (table: &BTreeMap<u32, RoutingEntry>)
        ensures
            table@ == self.table@,
    {
        &self.table
    }

    /// `post` is this table after a RIP packet, and `packets` are sent because of it. A request is
    /// answered with all routes, a response is learned from and what it changed is told on.
    pub open spec fn handles_rip(
        self,
        post: ForwardingTable,
        packet: PacketParts,
        now: u64,
        packets: Seq<PacketParts>,
    ) -> bool {
        let source = packet.source();
        &&& post.neighbors == self.neighbors
        &&& post.our_interfaces == self.our_interfaces
        &&& match rip_parse(packet.data) {
            Some((command, entries)) if self.neighbors@.contains_key(source) => match command {
                RipCommand::Request => {
                    &&& post.table@ == self.table@
                    &&& packets == response_packets(self.neighbors@, self.table@)
                },
                RipCommand::Response => {
                    let (table, updated) = learn(
                        self.table@,
                        self.our_interfaces@,
                        self.neighbors@[source],
                        now,
                        entries,
                    );
                    &&& post.table@ == table
                    &&& packets == if updated.is_empty() {
                        Seq::empty()
                    } else {
                        response_packets(self.neighbors@, updated)
                    }
                },
            },
            _ => post.table@ == self.table@ && packets.len() == 0,
        }
    }

    /// `post` is this table once the dead routes have been given up, and `packets` tell the
    /// neighbors of them.
    pub open spec fn reaps(
        self,
        post: ForwardingTable,
        interfaces: Seq<Interface>,
        now: u64,
        packets: Seq<PacketParts>,
    ) -> bool {
        let dead = given_up(self.table@, interfaces, now);
        &&& post.neighbors == self.neighbors
        &&& post.our_interfaces == self.our_interfaces
        &&& post.table@ == self.table@.union_prefer_right(dead)
        &&& packets == if dead.is_empty() {
            Seq::empty()
        } else {
            response_packets(self.neighbors@, dead)
        }
    }

    /// Updates the forwarding table based off of a RIP packet, and returns what to send because of
    /// it. What is no RIP message or does not come from a neighbor is ignored.
    pub fn handle_rip(&mut self, ip_packet: &IpPacket, now: u64) -> (packets: Vec<IpPacket>)
        requires
            old(self).wf(),
            now <= u64::MAX - ROUTE_LIFETIME,
        ensures
            final(self).wf(),
            old(self).handles_rip(*final(self), ip_packet@, now, packets_view(packets@)),
    {
        let rip_msg = match RipMsg::unpack(ip_packet.data()) {
            Ok(msg) => msg,
            Err(_) => return Vec::new(),
        };
        // get senders interface number
        let source_interface: InterfaceId = match self.neighbors.get(&ip_packet.source_address()) {
            Some(interface) => *interface,
            // should only receive RIP messages from neighbors
            None => return Vec::new(),
        };
        match rip_msg.command {
            RipCommand::Request => self.make_response_and_send_to_all(&self.table),
            RipCommand::Response => {
                let updated_entries = self.learn_routes(
                    &rip_msg.entries,
                    source_interface,
                    now,
                );
                if updated_entries.is_empty() {
                    let packets: Vec<IpPacket> = Vec::new();
                    assert(packets_view(packets@) =~= Seq::<PacketParts>::empty());
                    packets
                } else {
                    self.make_response_and_send_to_all(&updated_entries)
                }
            },
        }
    }

    /// Takes the routes of a response that are worth it and returns them.
    fn learn_routes(
        &mut self,
        entries: &Vec<RipEntry>,
        source_interface: InterfaceId,
        now: u64,
    ) -> (updated: BTreeMap<u32, RoutingEntry>)
        requires
            old(self).wf(),
            now <= u64::MAX - ROUTE_LIFETIME,
            forall|i: int|
                0 <= i < entries@.len() ==> (#[trigger] entries@[i]).cost <= INFINITY_COST,
        ensures
            final(self).wf(),
            final(self).neighbors == old(self).neighbors,
            final(self).our_interfaces == old(self).our_interfaces,
            (final(self).table@, updated@) == learn(
                old(self).table@,
                old(self).our_interfaces@,
                source_interface,
                now,
                entries@,
            ),
    {
        let mut updated_entries: BTreeMap<u32, RoutingEntry> = BTreeMap::new();
        let mut i: usize = 0;
        assert(entries@.take(0) =~= Seq::<RipEntry>::empty());
        while i < entries.len()
            invariant
                i <= entries@.len(),
                self.wf(),
                now <= u64::MAX - ROUTE_LIFETIME,
                forall|k: int|
                    0 <= k < entries@.len() ==> (#[trigger] entries@[k]).cost <= INFINITY_COST,
                self.neighbors == old(self).neighbors,
                self.our_interfaces == old(self).our_interfaces,
                (self.table@, updated_entries@) == learn(
                    old(self).table@,
                    old(self).our_interfaces@,
                    source_interface,
                    now,
                    entries@.take(i as int),
                ),
            decreases entries@.len() - i,
        {
            let entry = entries[i];
            let addr: u32 = entry.address;
            assert(entries@.take(i + 1).drop_last() =~= entries@.take(i as int));
            assert(entry.cost <= INFINITY_COST);
            let new_cost: u8 = if entry.cost + 1 < INFINITY_COST {
                entry.cost + 1
            } else {
                INFINITY_COST
            };
            let new_routing_entry = RoutingEntry {
                next_hop: source_interface,
                cost: new_cost,
                expiration_time: Some(now + ROUTE_LIFETIME),
            };
            assert(new_routing_entry == offered_route(entry, source_interface, now));
            let takes: bool = match self.table.get(&addr) {
                Some(curr_route) => {
                    let not_us: bool = !self.our_interfaces.contains_key(&addr);
                    let better_cost: bool = new_cost < curr_route.cost;
                    let same_next_hop: bool = curr_route.next_hop == new_routing_entry.next_hop;
                    better_cost || (not_us && same_next_hop)
                },
                None => true,
            };
            if takes {
                self.table.insert(addr, new_routing_entry);
                updated_entries.insert(addr, new_routing_entry);
            }
            i += 1;
        }
        assert(entries@.take(i as int) =~= entries@);
        updated_entries
    }

    /// The interface to send a packet to: that of a neighbor whose interface is up, else that of the
    /// route, if there is one of finite cost.
    pub open spec fn next_hop(self, ip: Ipv4Addr, interfaces: Seq<Interface>) -> Option<
        InterfaceId,
    > {
        if self.neighbors@.contains_key(ip) && interfaces[self.neighbors@[ip] as int].state
            == State::UP {
            Some(self.neighbors@[ip])
        } else if self.table@.contains_key(ip) && self.table@[ip].cost < INFINITY_COST {
            Some(self.table@[ip].next_hop)
        } else {
            None
        }
    }

    /// Takes in a ip address and returns the interface to send the packet to
    pub fn get_next_hop(&self, ip: Ipv4Addr, interfaces: &Vec<Interface>) -> (id: Option<
        InterfaceId,
    >)
        requires
            self.neighbors@.contains_key(ip) ==> self.neighbors@[ip] < interfaces@.len(),
        ensures
            id == self.next_hop(ip, interfaces@),
    {
        if let Some(interface) = self.neighbors.get(&ip) {
            // This avoids the issue of not being able to rediscover a revived link
            if interfaces[*interface].state() == State::UP {
                return Some(*interface);
            }
        }
        match self.table.get(&ip) {
            // don't leak the cost value
            Some(hop) => {
                if hop.cost < INFINITY_COST {
                    Some(hop.next_hop)
                } else {
                    None
                }
            },
            None => None,
        }
    }

    /// What is sent from time to time to keep our routes alive at the neighbors.
    pub fn keep_alive(&self) -> (packets: Vec<IpPacket>)
        ensures
            packets_view(packets@) == response_packets(self.neighbors@, self.table@),
    {
        self.make_response_and_send_to_all(&self.table)
    }

    /// Goes through all the entries in the forwarding table and checks if they need to be reaped
    /// (i.e. cost to infinity). Returns what to send because of that.
    pub fn reap(&mut self, interfaces: &Vec<Interface>, now: u64) -> (packets: Vec<IpPacket>)
        requires
            old(self).wf(),
        ensures
            final(self).wf(),
            old(self).reaps(*final(self), interfaces@, now, packets_view(packets@)),
    {
        let keys: Vec<u32> = sorted_keys(&self.table);
        let mut updated_entries: BTreeMap<u32, RoutingEntry> = BTreeMap::new();
        let ghost before = self.table@;
        let mut i: usize = 0;
        while i < keys.len()
            invariant
                i <= keys@.len(),
                self.wf(),
                lists(keys@, before.dom()),
                self.neighbors == old(self).neighbors,
                self.our_interfaces == old(self).our_interfaces,
                forall|addr: u32| #[trigger]
                    self.table@.contains_key(addr) <==> before.contains_key(addr),
                forall|addr: u32| #[trigger]
                    self.table@.contains_key(addr) ==> self.table@[addr]
                        == if updated_entries@.contains_key(addr) {
                        updated_entries@[addr]
                    } else {
                        before[addr]
                    },
                forall|addr: u32| #[trigger]
                    updated_entries@.contains_key(addr) <==> keys@.take(i as int).contains(addr)
                        && is_dead(before[addr], interfaces@, now),
                forall|addr: u32| #[trigger]
                    updated_entries@.contains_key(addr) ==> updated_entries@[addr] == (
                    RoutingEntry { cost: INFINITY_COST, ..before[addr] }),
            decreases keys@.len() - i,
        {
            let addr: u32 = keys[i];
            proof {
                assert(keys@.contains(addr));
                assert(before.contains_key(addr));
                lemma_take_one_more(keys@, i as int);
            }
            if let Some(route) = self.table.get(&addr) {
                let route = *route;
                let dead: bool = match route.expiration_time {
                    Some(t) => route.cost != INFINITY_COST && (t < now || (route.next_hop
                        < interfaces.len() && interfaces[route.next_hop].state() == State::DOWN)),
                    None => false,
                };
                if dead {
                    let route = RoutingEntry { cost: INFINITY_COST, ..route };
                    self.table.insert(addr, route);
                    updated_entries.insert(addr, route);
                }
            }
            i += 1;
        }
        proof {
            let dead = given_up(before, interfaces@, now);
            assert(keys@.take(i as int) =~= keys@);
            assert forall|addr: u32| #[trigger] updated_entries@.contains_key(addr)
                <==> dead.contains_key(addr) by {
                assert(before.dom().contains(addr) <==> keys@.contains(addr));
            }
            assert(updated_entries@ =~= dead);
            assert(self.table@ =~= before.union_prefer_right(dead));
        }
        if updated_entries.is_empty() {
            let packets: Vec<IpPacket> = Vec::new();
            assert(packets_view(packets@) =~= Seq::<PacketParts>::empty());
            packets
        } else {
            self.make_response_and_send_to_all(&updated_entries)
        }
    }

    /// What is sent at the start to learn the neighbors' routes.
    pub fn make_request_and_send_to_all(&self) -> (packets: Vec<IpPacket>)
        ensures
            packets_view(packets@) == request_packets(self.neighbors@),
    {
        let keys: Vec<u32> = sorted_keys(&self.neighbors);
        let mut packets: Vec<IpPacket> = Vec::new();
        let mut i: usize = 0;
        while i < keys.len()
            invariant
                i <= keys@.len(),
                keys@ == ascending(self.neighbors@.dom()),
                packets_view(packets@) == request_packets(self.neighbors@).take(i as int),
            decreases keys@.len() - i,
        {
            let rip_msg = RipMsg { command: RipCommand::Request, entries: Vec::new() };
            assert(rip_msg.entries@ =~= Seq::<RipEntry>::empty());
            assert(msg_bytes(RipCommand::Request, Seq::empty()).len() == 4);
            let ghost sent = packets@;
            ForwardingTable::make_and_send(&rip_msg, keys[i], &mut packets);
            assert(packets_view(packets@) =~= request_packets(self.neighbors@).take(i + 1));
            i += 1;
        }
        assert(request_packets(self.neighbors@).take(i as int) =~= request_packets(
            self.neighbors@,
        ));
        packets
    }

    fn make_response_and_send_to_all(&self, table: &BTreeMap<u32, RoutingEntry>) -> (packets: Vec<
        IpPacket,
    >)
        ensures
            packets_view(packets@) == response_packets(self.neighbors@, table@),
    {
        let neighbor_keys: Vec<u32> = sorted_keys(&self.neighbors);
        let keys: Vec<u32> = sorted_keys(table);
        let ghost all = response_packets(self.neighbors@, table@);
        let mut packets: Vec<IpPacket> = Vec::new();
        let mut i: usize = 0;
        assert(packets_view(packets@) =~= Seq::<PacketParts>::empty());
        while i < neighbor_keys.len()
            invariant
                i <= neighbor_keys@.len(),
                neighbor_keys@ == ascending(self.neighbors@.dom()),
                lists(neighbor_keys@, self.neighbors@.dom()),
                keys@ == ascending(table@.dom()),
                lists(keys@, table@.dom()),
                all == response_packets(self.neighbors@, table@),
                keys@.len() > MAX_RESPONSE_ENTRIES ==> packets@.len() == 0,
                keys@.len() <= MAX_RESPONSE_ENTRIES ==> packets_view(packets@) == all.take(
                    i as int,
                ),
            decreases neighbor_keys@.len() - i,
        {
            let destination_address: u32 = neighbor_keys[i];
            assert(neighbor_keys@.contains(destination_address));
            assert(self.neighbors@.dom().contains(destination_address));
            let interface_id: InterfaceId = *self.neighbors.get(&destination_address).unwrap();
            let mut entries: Vec<RipEntry> = Vec::new();
            let mut j: usize = 0;
            while j < keys.len()
                invariant
                    j <= keys@.len(),
                    keys@ == ascending(table@.dom()),
                    lists(keys@, table@.dom()),
                    entries@ == told_entries(table@, interface_id).take(j as int),
                decreases keys@.len() - j,
            {
                let curr_dest: u32 = keys[j];
                assert(keys@.contains(curr_dest));
                assert(table@.dom().contains(curr_dest));
                let route_entry = *table.get(&curr_dest).unwrap();
                // Poison reverse
                let cost: u8 = if route_entry.next_hop == interface_id && route_entry.cost != 0 {
                    INFINITY_COST
                } else {
                    route_entry.cost
                };
                entries.push(RipEntry { cost, address: curr_dest, mask: SUBNET_MASK });
                assert(entries@ =~= told_entries(table@, interface_id).take(j + 1));
                j += 1;
            }
            assert(entries@ =~= told_entries(table@, interface_id));
            let rip_msg = RipMsg { command: RipCommand::Response, entries };
            proof {
                super::rip_message::lemma_msg_len(RipCommand::Response, rip_msg.entries@);
            }
            ForwardingTable::make_and_send(&rip_msg, destination_address, &mut packets);
            i += 1;
            proof {
                if keys@.len() <= MAX_RESPONSE_ENTRIES {
                    assert(packets_view(packets@) =~= all.take(i as int));
                }
            }
        }
        proof {
            if keys@.len() <= MAX_RESPONSE_ENTRIES {
                assert(all.take(i as int) =~= all);
            }
        }
        packets
    }

    /// Adds the packet for a message to those to be sent, unless the message is too long.
    fn make_and_send(rip_msg: &RipMsg, destination_address: Ipv4Addr, packets: &mut Vec<IpPacket>)
        ensures
            ({
                let bytes = msg_bytes(rip_msg.command, rip_msg.entries@);
                if 20 + bytes.len() <= 65535 {
                    packets_view(final(packets)@) == packets_view(old(packets)@).push(
                        rip_packet(destination_address, rip_msg.command, rip_msg.entries@),
                    )
                } else {
                    final(packets)@ == old(packets)@
                }
            }),
    {
        let data = rip_msg.pack();
        match IpPacket::new_with_defaults(destination_address, Protocol::RIP, data.as_slice()) {
            Ok(packet) => {
                let ghost before = packets@;
                packets.push(packet);
                assert(packets_view(packets@) =~= packets_view(before).push(packet@));
            },
            Err(_) => (),
        }
    }
}

/// Whatever neighbors say, the routes to our own addresses stay as they are.
pub proof fn law_own_routes_stand(
    table: Map<u32, RoutingEntry>,
    ours: Map<u32, InterfaceId>,
    neighbor: InterfaceId,
    now: u64,
    entries: Seq<RipEntry>,
    addr: u32,
)
    requires
        ours.contains_key(addr),
        table.contains_key(addr),
        table[addr].cost == 0,
    ensures
        learn(table, ours, neighbor, now, entries).0.contains_key(addr),
        learn(table, ours, neighbor, now, entries).0[addr] == table[addr],
        !learn(table, ours, neighbor, now, entries).1.contains_key(addr),
    decreases entries.len(),
{
    if entries.len() > 0 {
        law_own_routes_stand(table, ours, neighbor, now, entries.drop_last(), addr);
    }
}

/// After a response, the route to the address of its last entry costs at most one more than the
/// neighbor said, and a route through that neighbor to an address that is not ours has been renewed.
pub proof fn law_response_is_heard(
    table: Map<u32, RoutingEntry>,
    ours: Map<u32, InterfaceId>,
    neighbor: InterfaceId,
    now: u64,
    entries: Seq<RipEntry>,
)
    requires
        entries.len() > 0,
        forall|i: int| 0 <= i < entries.len() ==> (#[trigger] entries[i]).cost <= INFINITY_COST,
    ensures
        ({
            let post = learn(table, ours, neighbor, now, entries).0;
            let entry = entries.last();
            &&& post.contains_key(entry.address)
            &&& post[entry.address].cost <= entry.cost + 1
            &&& post[entry.address].next_hop == neighbor && !ours.contains_key(entry.address)
                ==> post[entry.address] == offered_route(entry, neighbor, now)
        }),
{
    assert(entries[entries.len() - 1].cost <= INFINITY_COST);
    let before = learn(table, ours, neighbor, now, entries.drop_last()).0;
}

/// Every route taken from a response is reported on with the cost that the table now has for it.
pub proof fn law_updates_are_told(
    table: Map<u32, RoutingEntry>,
    ours: Map<u32, InterfaceId>,
    neighbor: InterfaceId,
    now: u64,
    entries: Seq<RipEntry>,
    addr: u32,
)
    ensures
        ({
            let (post, updated) = learn(table, ours, neighbor, now, entries);
            if updated.contains_key(addr) {
                post.contains_key(addr) && post[addr] == updated[addr]
            } else {
                &&& post.contains_key(addr) == table.contains_key(addr)
                &&& post[addr] == table[addr]
            }
        }),
    decreases entries.len(),
{
    if entries.len() > 0 {
        law_updates_are_told(table, ours, neighbor, now, entries.drop_last(), addr);
    }
}

/// No neighbor is told a finite cost of a route that goes through itself, except of an address of
/// our own.
pub proof fn law_poison_reverse(
    routes: Map<u32, RoutingEntry>,
    interface: InterfaceId,
    i: int,
)
    requires
        0 <= i < told_entries(routes, interface).len(),
    ensures
        ({
            let entry = told_entries(routes, interface)[i];
            let route = routes[entry.address];
            &&& route.next_hop == interface && route.cost != 0 ==> entry.cost == INFINITY_COST
            &&& route.next_hop != interface ==> entry.cost == route.cost
        }),
{
}

/// What a neighbor is told is what it hears, as long as the routes fit into a message.
pub proof fn law_told_is_heard(routes: Map<u32, RoutingEntry>, interface: InterfaceId)
    requires
        forall|addr: u32| #[trigger]
            routes.contains_key(addr) ==> routes[addr].cost <= INFINITY_COST,
        routes.dom().finite(),
        told_entries(routes, interface).len() <= 65535,
    ensures
        rip_parse(msg_bytes(RipCommand::Response, told_entries(routes, interface))) == Some(
            (RipCommand::Response, told_entries(routes, interface)),
        ),
{
    let entries = told_entries(routes, interface);
    let keys = ascending(routes.dom());
    lemma_ascending_lists(routes.dom());
    assert forall|i: int| 0 <= i < entries.len() implies (#[trigger] entries[i]).cost
        <= INFINITY_COST by {
        assert(keys.contains(keys[i]));
        assert(routes.dom().contains(keys[i]));
    }
    law_rip_round_trip(
        RipCommand::Response,
        entries,
        Ok((RipCommand::Response, entries)),
    );
}

/// Once the dead routes have been given up there are none left, and nothing is sent to where only a
/// dead route leads.
pub proof fn law_reaped_routes_are_unused(
    table: Map<u32, RoutingEntry>,
    interfaces: Seq<Interface>,
    now: u64,
    addr: u32,
)
    requires
        table.contains_key(addr),
    ensures
        ({
            let post = table.union_prefer_right(given_up(table, interfaces, now));
            &&& post.contains_key(addr)
            &&& !is_dead(post[addr], interfaces, now)
            &&& is_dead(table[addr], interfaces, now) ==> post[addr].cost == INFINITY_COST
            &&& !is_dead(table[addr], interfaces, now) ==> post[addr] == table[addr]
        }),
{
}

/// The next hop of a packet is found wherever there is one: a neighbor whose interface is up is
/// reached over that interface; any other address, also that of a neighbor whose interface is down,
/// over the route to it if that is of finite cost. Only an address with neither has none.
pub proof fn law_next_hop_is_found(
    table: &ForwardingTable,
    ip: Ipv4Addr,
    interfaces: &Vec<Interface>,
    id: Option<InterfaceId>,
)
    requires
        table.neighbors@.contains_key(ip) ==> table.neighbors@[ip] < interfaces@.len(),
        call_ensures(ForwardingTable::get_next_hop, (table, ip, interfaces), id),
    ensures
        ({
            let up = table.neighbors@.contains_key(ip) && interfaces@[table.neighbors@[ip] as int].state
                == State::UP;
            let routed = table.table@.contains_key(ip) && table.table@[ip].cost < 16;
            &&& up ==> id == Some(table.neighbors@[ip])
            &&& !up && routed ==> id == Some(table.table@[ip].next_hop)
            &&& !up && !routed ==> id is None
        }),
{
}

/// An address that a response does not name keeps its route, and is not told on.
proof fn lemma_unnamed_routes_stay(
    table: Map<u32, RoutingEntry>,
    ours: Map<u32, InterfaceId>,
    neighbor: InterfaceId,
    now: u64,
    entries: Seq<RipEntry>,
    addr: u32,
)
    requires
        forall|i: int| 0 <= i < entries.len() ==> (#[trigger] entries[i]).address != addr,
    ensures
        ({
            let (post, updated) = learn(table, ours, neighbor, now, entries);
            &&& post.contains_key(addr) == table.contains_key(addr)
            &&& post[addr] == table[addr]
            &&& !updated.contains_key(addr)
        }),
    decreases entries.len(),
{
    if entries.len() > 0 {
        let shorter = entries.drop_last();
        assert forall|i: int| 0 <= i < shorter.len() implies (#[trigger] shorter[i]).address
            != addr by {
            assert(shorter[i] == entries[i]);
        }
        lemma_unnamed_routes_stay(table, ours, neighbor, now, shorter, addr);
        assert(entries[entries.len() - 1].address != addr);
    }
}

/// A route heard of costs one more than the neighbor says, 16 at most, and holds for twelve
/// seconds. It is taken where there is none, where it is better than the one there is, and where it
/// renews the word of the neighbor that gave that one, be it better or worse. What is taken is told
/// on, and nothing else changes. This holds for each address that a response names once.
pub proof fn law_routes_are_learned(
    table: Map<u32, RoutingEntry>,
    ours: Map<u32, InterfaceId>,
    neighbor: InterfaceId,
    now: u64,
    entries: Seq<RipEntry>,
    i: int,
)
    requires
        now <= u64::MAX - ROUTE_LIFETIME,
        0 <= i < entries.len(),
        entries[i].cost <= 16,
        forall|j: int|
            0 <= j < entries.len() && j != i ==> (#[trigger] entries[j]).address
                != entries[i].address,
    ensures
        ({
            let (post, updated) = learn(table, ours, neighbor, now, entries);
            let addr = entries[i].address;
            let cost: int = if entries[i].cost < 16 {
                entries[i].cost + 1
            } else {
                16
            };
            let taken = !table.contains_key(addr) || cost < table[addr].cost || (
            table[addr].next_hop == neighbor && !ours.contains_key(addr));
            &&& post.contains_key(addr)
            &&& updated.contains_key(addr) == taken
            &&& taken ==> post[addr] == updated[addr] && post[addr] == (RoutingEntry {
                next_hop: neighbor,
                cost: cost as u8,
                expiration_time: Some((now + 12_000_000_000) as u64),
            })
            &&& !taken ==> post[addr] == table[addr]
        }),
    decreases entries.len(),
{
    let shorter = entries.drop_last();
    let addr = entries[i].address;
    if i == entries.len() - 1 {
        assert forall|j: int| 0 <= j < shorter.len() implies (#[trigger] shorter[j]).address
            != addr by {
            assert(shorter[j] == entries[j]);
        }
        lemma_unnamed_routes_stay(table, ours, neighbor, now, shorter, addr);
    } else {
        assert forall|j: int| 0 <= j < shorter.len() && j != i implies (
        #[trigger] shorter[j]).address != shorter[i].address by {
            assert(shorter[j] == entries[j]);
        }
        law_routes_are_learned(table, ours, neighbor, now, shorter, i);
        assert(entries[entries.len() - 1].address != addr);
    }
}

/// A response that names an address more than once is heard entry by entry, in order.
pub proof fn law_responses_are_heard_in_order(
    table: Map<u32, RoutingEntry>,
    ours: Map<u32, InterfaceId>,
    neighbor: InterfaceId,
    now: u64,
    entries: Seq<RipEntry>,
    more: Seq<RipEntry>,
)
    ensures
        learn(table, ours, neighbor, now, entries + more).0 == learn(
            learn(table, ours, neighbor, now, entries).0,
            ours,
            neighbor,
            now,
            more,
        ).0,
    decreases more.len(),
{
    if more.len() == 0 {
        assert(entries + more =~= entries);
    } else {
        assert((entries + more).drop_last() =~= entries + more.drop_last());
        law_responses_are_heard_in_order(
            table,
            ours,
            neighbor,
            now,
            entries,
            more.drop_last(),
        );
    }
}

/// A response from a neighbor is learned from, a request or what comes from anyone else is not: the
/// table changes only in the addresses that the response names, and never in our own.
pub proof fn law_who_is_heard(
    table: &mut ForwardingTable,
    ip_packet: &IpPacket,
    now: u64,
    packets: Vec<IpPacket>,
    addr: u32,
)
    requires
        old(table).wf(),
        call_ensures(ForwardingTable::handle_rip, (table, ip_packet, now), packets),
    ensures
        final(table).neighbors == old(table).neighbors,
        final(table).our_interfaces == old(table).our_interfaces,
        ({
            let source = ip_packet@.source();
            let heard = rip_parse(ip_packet@.data);
            let known = old(table).neighbors@.contains_key(source);
            &&& heard is Some && known && (heard->0).0 == RipCommand::Response ==> {
                &&& final(table).table@ == learn(
                    old(table).table@,
                    old(table).our_interfaces@,
                    old(table).neighbors@[source],
                    now,
                    (heard->0).1,
                ).0
                &&& (forall|i: int|
                    0 <= i < (heard->0).1.len() ==> (#[trigger] (heard->0).1[i]).address != addr)
                    || old(table).our_interfaces@.contains_key(addr) ==> {
                    &&& final(table).table@.contains_key(addr) == old(table).table@.contains_key(addr)
                    &&& final(table).table@[addr] == old(table).table@[addr]
                }
            }
            &&& !(heard is Some && known && (heard->0).0 == RipCommand::Response) ==> final(table).table@ == old(table).table@
            &&& !(heard is Some && known) ==> packets@.len() == 0
        }),
{
    let pre = *old(table);
    let source = ip_packet@.source();
    let heard = rip_parse(ip_packet@.data);
    let sent = packets_view(packets@);
    assert(sent.len() == packets@.len());
    if heard is Some && pre.neighbors@.contains_key(source) && (heard->0).0
        == RipCommand::Response {
        let neighbor = pre.neighbors@[source];
        let entries = (heard->0).1;
        if forall|i: int| 0 <= i < entries.len() ==> (#[trigger] entries[i]).address != addr {
            lemma_unnamed_routes_stay(
                pre.table@,
                pre.our_interfaces@,
                neighbor,
                now,
                entries,
                addr,
            );
        }
        if pre.our_interfaces@.contains_key(addr) {
            law_own_routes_stand(pre.table@, pre.our_interfaces@, neighbor, now, entries, addr);
        }
    }
}

/// Every neighbor is told of every route, as long as they fit into a packet: in a packet to the
/// neighbor that holds a RIP response with one entry for each route. The entry has the route's cost,
/// or 16 if the route leads through the neighbor itself and is not to an address of our own.
pub proof fn law_all_neighbors_are_told(
    neighbors: Map<u32, InterfaceId>,
    routes: Map<u32, RoutingEntry>,
    neighbor: u32,
) -> (k: int)
    requires
        neighbors.dom().finite(),
        routes.dom().finite(),
        routes.dom().len() <= 5459,
        forall|addr: u32| #[trigger] routes.contains_key(addr) ==> routes[addr].cost <= 16,
        neighbors.contains_key(neighbor),
    ensures
        0 <= k < response_packets(neighbors, routes).len(),
        ({
            let packet = response_packets(neighbors, routes)[k];
            let heard = rip_parse(packet.data);
            let entries = (heard->0).1;
            &&& packet.destination() == neighbor
            &&& packet.header[9] == 200
            &&& heard is Some
            &&& (heard->0).0 == RipCommand::Response
            &&& entries.len() == routes.dom().len()
            &&& forall|addr: u32| #[trigger]
                routes.contains_key(addr) ==> exists|i: int|
                    0 <= i < entries.len() && (#[trigger] entries[i]).address == addr
            &&& forall|i: int|
                0 <= i < entries.len() ==> {
                    let route = routes[(#[trigger] entries[i]).address];
                    &&& routes.contains_key(entries[i].address)
                    &&& entries[i].mask == 0xffff_ffff
                    &&& entries[i].cost == if route.next_hop == neighbors[neighbor] && route.cost
                        > 0 {
                        16
                    } else {
                        route.cost
                    }
                }
        }),
{
    let keys = ascending(neighbors.dom());
    lemma_ascending_lists(neighbors.dom());
    lemma_ascending_lists(routes.dom());
    assert(neighbors.dom().contains(neighbor));
    assert(keys.contains(neighbor));
    let k = choose|k: int| 0 <= k < keys.len() && keys[k] == neighbor;
    let addrs = ascending(routes.dom());
    lemma_listed_len(addrs, routes.dom());
    let told = told_entries(routes, neighbors[neighbor]);
    law_told_is_heard(routes, neighbors[neighbor]);
    let packet = rip_packet(neighbor, RipCommand::Response, told);
    assert(response_packets(neighbors, routes)[k] == packet);
    law_default_packet_addresses(neighbor, Protocol::RIP, packet.data);
    assert forall|addr: u32| #[trigger] routes.contains_key(addr) implies exists|i: int|
        0 <= i < told.len() && (#[trigger] told[i]).address == addr by {
        assert(routes.dom().contains(addr));
        assert(addrs.contains(addr));
        let i = choose|i: int| 0 <= i < addrs.len() && addrs[i] == addr;
        assert(told[i].address == addr);
    }
    assert forall|i: int| 0 <= i < told.len() implies {
        let route = routes[(#[trigger] told[i]).address];
        &&& routes.contains_key(told[i].address)
        &&& told[i].mask == 0xffff_ffff
        &&& told[i].cost == if route.next_hop == neighbors[neighbor] && route.cost > 0 {
            16
        } else {
            route.cost
        }
    } by {
        assert(addrs.contains(addrs[i]));
        assert(routes.dom().contains(addrs[i]));
    }
    k
}

/// A list of a set in order has as many members as the set.
proof fn lemma_listed_len(keys: Seq<u32>, dom: Set<u32>)
    requires
        dom.finite(),
        lists(keys, dom),
    ensures
        keys.len() == dom.len(),
{
    assert(keys.no_duplicates()) by {
        assert forall|i: int, j: int|
            0 <= i < keys.len() && 0 <= j < keys.len() && i != j implies keys[i] != keys[j] by {
            if i < j {
                assert(keys[i] < keys[j]);
            } else {
                assert(keys[j] < keys[i]);
            }
        }
    }
    keys.unique_seq_to_set();
    assert(keys.to_set() =~= dom);
}

/// Who is told of what: a request is answered with all routes, and a response that changed
/// something is followed by an update with what it changed. Both go to all neighbors.
pub proof fn law_requests_and_changes_are_answered(
    table: &mut ForwardingTable,
    ip_packet: &IpPacket,
    now: u64,
    packets: Vec<IpPacket>,
)
    requires
        old(table).wf(),
        old(table).neighbors@.contains_key(ip_packet@.source()),
        rip_parse(ip_packet@.data) is Some,
        call_ensures(ForwardingTable::handle_rip, (table, ip_packet, now), packets),
    ensures
        ({
            let (command, entries) = rip_parse(ip_packet@.data)->0;
            let changed = learn(
                old(table).table@,
                old(table).our_interfaces@,
                old(table).neighbors@[ip_packet@.source()],
                now,
                entries,
            ).1;
            match command {
                RipCommand::Request => packets_view(packets@) == response_packets(
                    old(table).neighbors@,
                    old(table).table@,
                ),
                RipCommand::Response => {
                    &&& changed.is_empty() ==> packets@.len() == 0
                    &&& !changed.is_empty() ==> packets_view(packets@) == response_packets(
                        old(table).neighbors@,
                        changed,
                    )
                },
            }
        }),
{
    assert(packets_view(packets@).len() == packets@.len());
}

/// A learned route is given up, at a cost of 16, once its time is over or its interface is down, and
/// the neighbors are told of all such routes. Every other route stays as it is; the routes to our
/// own addresses always do.
pub proof fn law_dead_routes_are_given_up(
    table: &mut ForwardingTable,
    interfaces: &Vec<Interface>,
    now: u64,
    packets: Vec<IpPacket>,
    addr: u32,
)
    requires
        old(table).wf(),
        old(table).table@.contains_key(addr),
        call_ensures(ForwardingTable::reap, (table, interfaces, now), packets),
    ensures
        ({
            let route = old(table).table@[addr];
            let expired = route.expiration_time is Some && route.expiration_time->0 < now;
            let down = route.expiration_time is Some && route.next_hop < interfaces@.len()
                && interfaces@[route.next_hop as int].state == State::DOWN;
            &&& final(table).table@.contains_key(addr)
            &&& expired || down ==> final(table).table@[addr] == (RoutingEntry {
                cost: 16,
                ..route
            })
            &&& !expired && !down ==> final(table).table@[addr] == route
            &&& old(table).our_interfaces@.contains_key(addr) ==> final(table).table@[addr] == route
            &&& (expired || down) && route.cost < 16 ==> {
                let told = given_up(old(table).table@, interfaces@, now);
                &&& told.contains_key(addr)
                &&& told[addr].cost == 16
                &&& packets_view(packets@) == response_packets(old(table).neighbors@, told)
            }
        }),
{
    let told = given_up(old(table).table@, interfaces@, now);
    if told.contains_key(addr) {
        assert(!told.is_empty());
    }
}

/// What is given up is told and nothing else: each route told of is one of the table's that had
/// expired or whose interface is down, now at a cost of 16.
pub proof fn law_only_dead_routes_are_told(
    table: Map<u32, RoutingEntry>,
    interfaces: Seq<Interface>,
    now: u64,
    addr: u32,
)
    requires
        given_up(table, interfaces, now).contains_key(addr),
    ensures
        table.contains_key(addr),
        table[addr].expiration_time is Some,
        table[addr].cost != 16,
        table[addr].expiration_time->0 < now || interfaces[table[addr].next_hop as int].state
            == State::DOWN,
        given_up(table, interfaces, now)[addr] == (RoutingEntry { cost: 16, ..table[addr] }),
{
}

/// A new table has a route of no cost to each of our own addresses that never expires, and knows
/// each neighbor by its interface, if no two interfaces share an address.
pub proof fn law_new_table(interfaces: &Vec<Interface>, table: ForwardingTable, i: int)
    requires
        call_ensures(ForwardingTable::new, (interfaces,), table),
        0 <= i < interfaces@.len(),
        forall|j: int, k: int|
            0 <= j < k < interfaces@.len() ==> (#[trigger] interfaces@[j]).our_ip != (
            #[trigger] interfaces@[k]).our_ip && interfaces@[j].their_ip
                != interfaces@[k].their_ip,
    ensures
        table.table@.contains_key(interfaces@[i].our_ip),
        table.table@[interfaces@[i].our_ip] == (RoutingEntry {
            next_hop: interfaces@[i].id,
            cost: 0,
            expiration_time: None,
        }),
        table.neighbors@.contains_key(interfaces@[i].their_ip),
        table.neighbors@[interfaces@[i].their_ip] == interfaces@[i].id,
        table.our_interfaces@.contains_key(interfaces@[i].our_ip),
        forall|addr: u32| #[trigger]
            table.table@.contains_key(addr) ==> exists|k: int|
                0 <= k < interfaces@.len() && (#[trigger] interfaces@[k]).our_ip == addr,
        forall|addr: u32| #[trigger]
            table.neighbors@.contains_key(addr) ==> exists|k: int|
                0 <= k < interfaces@.len() && (#[trigger] interfaces@[k]).their_ip == addr,
{
    lemma_new_maps(interfaces@, i);
}

proof fn lemma_new_maps(interfaces: Seq<Interface>, i: int)
    requires
        0 <= i < interfaces.len(),
        forall|j: int, k: int|
            0 <= j < k < interfaces.len() ==> (#[trigger] interfaces[j]).our_ip != (
            #[trigger] interfaces[k]).our_ip && interfaces[j].their_ip != interfaces[k].their_ip,
    ensures
        own_routes(interfaces).contains_key(interfaces[i].our_ip),
        own_routes(interfaces)[interfaces[i].our_ip] == (RoutingEntry {
            next_hop: interfaces[i].id,
            cost: 0,
            expiration_time: None,
        }),
        ids_by_their_ip(interfaces).contains_key(interfaces[i].their_ip),
        ids_by_their_ip(interfaces)[interfaces[i].their_ip] == interfaces[i].id,
        ids_by_our_ip(interfaces).contains_key(interfaces[i].our_ip),
        forall|addr: u32| #[trigger]
            own_routes(interfaces).contains_key(addr) ==> exists|k: int|
                0 <= k < interfaces.len() && (#[trigger] interfaces[k]).our_ip == addr,
        forall|addr: u32| #[trigger]
            ids_by_their_ip(interfaces).contains_key(addr) ==> exists|k: int|
                0 <= k < interfaces.len() && (#[trigger] interfaces[k]).their_ip == addr,
    decreases interfaces.len(),
{
    let shorter = interfaces.drop_last();
    let last = interfaces.len() - 1;
    assert forall|j: int, k: int| 0 <= j < k < shorter.len() implies (
    #[trigger] shorter[j]).our_ip != (#[trigger] shorter[k]).our_ip && shorter[j].their_ip
        != shorter[k].their_ip by {
        assert(interfaces[j].our_ip != interfaces[k].our_ip);
    }
    if shorter.len() > 0 {
        lemma_new_maps(
            shorter,
            if i < last {
                i
            } else {
                0
            },
        );
        if i < last {
            assert(interfaces[i].our_ip != interfaces[last].our_ip);
        }
    }
    assert forall|addr: u32| #[trigger] own_routes(interfaces).contains_key(addr) implies exists|
        k: int,
    |
        0 <= k < interfaces.len() && (#[trigger] interfaces[k]).our_ip == addr by {
        if addr == interfaces[last].our_ip {
        } else {
            assert(own_routes(shorter).contains_key(addr));
            let k = choose|k: int| 0 <= k < shorter.len() && (#[trigger] shorter[k]).our_ip == addr;
            assert(interfaces[k].our_ip == addr);
        }
    }
    assert forall|addr: u32| #[trigger] ids_by_their_ip(interfaces).contains_key(
        addr,
    ) implies exists|k: int|
        0 <= k < interfaces.len() && (#[trigger] interfaces[k]).their_ip == addr by {
        if addr == interfaces[last].their_ip {
        } else {
            assert(ids_by_their_ip(shorter).contains_key(addr));
            let k = choose|k: int|
                0 <= k < shorter.len() && (#[trigger] shorter[k]).their_ip == addr;
            assert(interfaces[k].their_ip == addr);
        }
    }
}

/// From time to time all routes are told to all neighbors.
pub proof fn law_keep_alive_tells_all(table: &ForwardingTable, packets: Vec<IpPacket>)
    requires
        call_ensures(ForwardingTable::keep_alive, (table,), packets),
    ensures
        packets_view(packets@) == response_packets(table.neighbors@, table.table@),
{
}

/// At the start each neighbor is asked for its routes.
pub proof fn law_all_neighbors_are_asked(
    table: &ForwardingTable,
    packets: Vec<IpPacket>,
    neighbor: u32,
) -> (k: int)
    requires
        table.neighbors@.dom().finite(),
        table.neighbors@.contains_key(neighbor),
        call_ensures(ForwardingTable::make_request_and_send_to_all, (table,), packets),
    ensures
        0 <= k < packets@.len(),
        packets@[k]@.destination() == neighbor,
        packets@[k]@.header[9] == 200,
        rip_parse(packets@[k]@.data) == Some((RipCommand::Request, Seq::<RipEntry>::empty())),
{
    let keys = ascending(table.neighbors@.dom());
    lemma_ascending_lists(table.neighbors@.dom());
    assert(table.neighbors@.dom().contains(neighbor));
    assert(keys.contains(neighbor));
    let k = choose|k: int| 0 <= k < keys.len() && keys[k] == neighbor;
    let packet = rip_packet(neighbor, RipCommand::Request, Seq::empty());
    let sent = packets_view(packets@);
    assert(sent.len() == packets@.len());
    assert(sent.len() == keys.len());
    assert(sent[k] == packet);
    assert(sent[k] == packets@[k]@);
    law_default_packet_addresses(neighbor, Protocol::RIP, packet.data);
    law_rip_round_trip(
        RipCommand::Request,
        Seq::empty(),
        Ok((RipCommand::Request, Seq::<RipEntry>::empty())),
    );
    k
}

/// A route of infinite cost is never used: a packet leaves by another interface than a live
/// neighbor's only along a route of finite cost.
pub proof fn law_infinite_routes_are_unused(
    table: ForwardingTable,
    ip: Ipv4Addr,
    interfaces: Seq<Interface>,
)
    requires
        table.next_hop(ip, interfaces) is Some,
    ensures
        (table.neighbors@.contains_key(ip) && table.next_hop(ip, interfaces) == Some(
            table.neighbors@[ip],
        )) || (table.table@.contains_key(ip) && table.table@[ip].cost < INFINITY_COST),
{
}

/// A route is shown with its next hop and cost, and with the whole seconds that it still holds if
/// all of it is asked for.
pub proof fn law_routes_are_shown(route: &RoutingEntry, verbose: bool, now: u64, s: String)
    requires
        call_ensures(RoutingEntry::to_string, (route, verbose, now), s),
    ensures
        ({
            let head = "next_hop "@ + decimal_text(route.next_hop as int) + ", cost "@
                + decimal_text(route.cost as int);
            &&& !verbose ==> s@ == head
            &&& verbose && route.expiration_time is None ==> s@ == head + ", time_remaining None"@
            &&& verbose && route.expiration_time is Some ==> s@ == head + ", time_remaining Some("@
                + decimal_text(
                if route.expiration_time->0 < now {
                    0
                } else {
                    (route.expiration_time->0 - now) / 1_000_000_000
                },
            ) + ")"@
        }),
{
}

} // verus!
