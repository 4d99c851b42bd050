use ip_tcp::ip::forwarding_table::{ForwardingTable, RoutingEntry, ROUTE_LIFETIME, SUBNET_MASK};
use ip_tcp::ip::ip_layer::{IpLayer, NoHandler, RecvAction};
use ip_tcp::ip::ip_packet::{IpPacket, IpPacketError};
use ip_tcp::ip::protocol::Protocol;
use ip_tcp::ip::rip_message::{RipCommand, RipEntry, RipError, RipMsg, INFINITY_COST};
use ip_tcp::link::interface::{
    Interface, InvalidSocketAddr, LinkAddr, ResolvedAddr, State, UnknownState,
};
use ip_tcp::link::link_layer::{LinkLayer, UnknownInterface};

const OURS: [u32; 2] = [0x0a00_0001, 0x0a00_0101];
const THEIRS: [u32; 2] = [0x0a00_0002, 0x0a00_0102];
const FAR: u32 = 0x0b00_0001;
const NOW: u64 = 1_000_000_000;

fn link(port: u16) -> LinkAddr {
    LinkAddr { ip: 0x7f00_0001, port }
}

fn interfaces() -> Vec<Interface> {
    (0..2)
        .map(|i| {
            Interface::new(
                i,
                format!("localhost:{}", 5000 + i),
                &[ResolvedAddr::V6, ResolvedAddr::V4(link(5000 + i as u16))],
                OURS[i],
                THEIRS[i],
            )
            .unwrap()
        })
        .collect()
}

fn rip(source: u32, command: RipCommand, entries: Vec<RipEntry>) -> IpPacket {
    let data = RipMsg { command, entries }.pack();
    IpPacket::new(source, OURS[0], Protocol::RIP, 0, 2, &data, 2, true, &[]).unwrap()
}

fn entry(cost: u8, address: u32) -> RipEntry {
    RipEntry { cost, address, mask: SUBNET_MASK }
}

fn told(packet: &IpPacket) -> Vec<(u32, u8)> {
    let msg = RipMsg::unpack(packet.data()).unwrap();
    assert_eq!(msg.command, RipCommand::Response);
    msg.entries.iter().map(|e| (e.address, e.cost)).collect()
}

#[test]
fn rip_messages_survive_the_wire() {
    let msg = RipMsg {
        command: RipCommand::Response,
        entries: vec![entry(3, 0x0102_0304), entry(16, 0xffff_fffe)],
    };
    let bytes = msg.pack();
    assert_eq!(
        bytes,
        vec![
            0, 2, 0, 2, 0, 0, 0, 3, 1, 2, 3, 4, 255, 255, 255, 255, 0, 0, 0, 16, 255, 255, 255, 254,
            255, 255, 255, 255
        ]
    );
    let read = RipMsg::unpack(&bytes).unwrap();
    assert_eq!(read.command, RipCommand::Response);
    assert_eq!(read.entries, msg.entries);
    let request = RipMsg { command: RipCommand::Request, entries: Vec::new() }.pack();
    assert_eq!(request, vec![0, 1, 0, 0]);
    assert_eq!(RipMsg::unpack(&request).unwrap().command, RipCommand::Request);
}

#[test]
fn malformed_rip_messages() {
    assert_eq!(RipMsg::unpack(&[0, 1, 0]).err(), Some(RipError::TooShort));
    assert_eq!(RipMsg::unpack(&[0, 1, 0, 0, 7]).err(), Some(RipError::IncompleteEntry(5)));
    assert_eq!(RipMsg::unpack(&[0, 3, 0, 0]).err(), Some(RipError::InvalidCommand(3)));
    let mut bytes = vec![0, 2, 0, 1];
    bytes.extend(RipEntry { cost: 17, address: 1, mask: 2 }.pack());
    assert_eq!(RipMsg::unpack(&bytes).err(), Some(RipError::CostTooHigh(17)));
    assert_eq!(RipEntry::unpack(&[0; 11]), Err(RipError::EntrySize(11)));
    // how many entries it claims to have does not matter
    let mut bytes = vec![0, 2, 0, 9];
    bytes.extend(entry(1, 5).pack());
    assert_eq!(RipMsg::unpack(&bytes).unwrap().entries, vec![entry(1, 5)]);
}

#[test]
fn too_many_entries_are_cut_off() {
    let msg = RipMsg { command: RipCommand::Response, entries: vec![entry(1, 5); 65537] };
    let bytes = msg.pack();
    assert_eq!(&bytes[..4], &[0, 2, 255, 255]);
    assert_eq!(bytes.len(), 4 + 12 * 65535);
}

#[test]
fn routes_are_learned_from_neighbors() {
    let mut table = ForwardingTable::new(&interfaces());
    let requests = table.make_request_and_send_to_all();
    assert_eq!(requests.len(), 2);
    assert_eq!(requests[0].destination_address(), THEIRS[0]);
    assert_eq!(requests[1].data(), &[0, 1, 0, 0]);

    let packets = table.handle_rip(&rip(THEIRS[0], RipCommand::Response, vec![entry(2, FAR)]), NOW);
    let route = RoutingEntry {
        next_hop: 0,
        cost: 3,
        expiration_time: Some(NOW + ROUTE_LIFETIME),
    };
    assert_eq!(table.get_table()[&FAR], route);
    // the neighbor that it came from gets it poisoned
    assert_eq!(packets.len(), 2);
    assert_eq!(packets[0].destination_address(), THEIRS[0]);
    assert_eq!(told(&packets[0]), vec![(FAR, INFINITY_COST)]);
    assert_eq!(told(&packets[1]), vec![(FAR, 3)]);

    // no better, and from another neighbor
    let packets = table.handle_rip(&rip(THEIRS[1], RipCommand::Response, vec![entry(2, FAR)]), NOW);
    assert!(packets.is_empty());
    // better
    table.handle_rip(&rip(THEIRS[1], RipCommand::Response, vec![entry(1, FAR)]), NOW);
    assert_eq!(table.get_table()[&FAR].next_hop, 1);
    // worse, but the word of the same neighbor
    table.handle_rip(&rip(THEIRS[1], RipCommand::Response, vec![entry(16, FAR)]), NOW + 5);
    assert_eq!(table.get_table()[&FAR].cost, INFINITY_COST);
}

#[test]
fn own_routes_stand() {
    let mut table = ForwardingTable::new(&interfaces());
    let packet = rip(THEIRS[0], RipCommand::Response, vec![entry(0, OURS[1]), entry(0, OURS[0])]);
    assert!(table.handle_rip(&packet, NOW).is_empty());
    let own = RoutingEntry { next_hop: 1, cost: 0, expiration_time: None };
    assert_eq!(table.get_table()[&OURS[1]], own);
}

#[test]
fn requests_are_answered_and_strangers_ignored() {
    let mut table = ForwardingTable::new(&interfaces());
    let packets = table.handle_rip(&rip(THEIRS[1], RipCommand::Request, Vec::new()), NOW);
    assert_eq!(packets.len(), 2);
    // our own addresses cost nothing, even to the neighbor on their own link
    assert_eq!(told(&packets[1]), vec![(OURS[0], 0), (OURS[1], 0)]);
    assert_eq!(table.keep_alive().len(), 2);
    assert!(table.handle_rip(&rip(FAR, RipCommand::Request, Vec::new()), NOW).is_empty());
    let junk = IpPacket::new(THEIRS[0], OURS[0], Protocol::RIP, 0, 2, &[1], 2, true, &[]).unwrap();
    assert!(table.handle_rip(&junk, NOW).is_empty());
}

#[test]
fn dead_routes_are_given_up() {
    let mut interfaces = interfaces();
    let mut table = ForwardingTable::new(&interfaces);
    table.handle_rip(&rip(THEIRS[0], RipCommand::Response, vec![entry(1, FAR)]), NOW);
    table.handle_rip(&rip(THEIRS[1], RipCommand::Response, vec![entry(1, FAR + 1)]), NOW);
    assert!(table.reap(&interfaces, NOW + ROUTE_LIFETIME).is_empty());
    assert_eq!(table.get_next_hop(FAR, &interfaces), Some(0));

    interfaces[1].down();
    let packets = table.reap(&interfaces, NOW);
    assert_eq!(told(&packets[0]), vec![(FAR + 1, INFINITY_COST)]);
    assert_eq!(table.get_next_hop(FAR + 1, &interfaces), None);
    assert!(table.reap(&interfaces, NOW).is_empty());

    let packets = table.reap(&interfaces, NOW + ROUTE_LIFETIME + 1);
    assert_eq!(told(&packets[0]), vec![(FAR, INFINITY_COST)]);
    assert_eq!(table.get_next_hop(FAR, &interfaces), None);
    // our own addresses never expire
    assert_eq!(table.get_next_hop(OURS[1], &interfaces), Some(1));
    // a neighbor on a live link is reached directly, one on a dead link is not
    assert_eq!(table.get_next_hop(THEIRS[0], &interfaces), Some(0));
    assert_eq!(table.get_next_hop(THEIRS[1], &interfaces), None);
}

#[test]
fn packets_are_delivered_forwarded_or_dropped() {
    let layer = IpLayer::new(interfaces());
    let make = |destination: u32, ttl: u8| {
        IpPacket::new(FAR, destination, Protocol::Test, 0, ttl, b"x", 2, true, &[]).unwrap().pack()
    };
    assert!(matches!(layer.recv(&make(OURS[1], 0)), RecvAction::Deliver(_)));
    assert!(matches!(layer.recv(&make(FAR, 0)), RecvAction::Expired));
    match layer.recv(&make(FAR, 3)) {
        RecvAction::Forward(packet) => {
            assert_eq!(packet.time_to_live(), 2);
            assert!(packet.validate_checksum().is_ok());
            assert_eq!(packet.destination_address(), FAR);
        }
        _ => panic!("should have been forwarded"),
    }
    assert!(matches!(
        layer.recv(&[1, 2]),
        RecvAction::Malformed(IpPacketError::TooShort(2))
    ));
}

#[test]
fn packets_leave_by_the_next_hop() {
    let mut layer = IpLayer::new(interfaces());
    let packet = layer.send(THEIRS[1], Protocol::Test, b"hi").unwrap();
    let (id, bytes) = layer.outgoing(packet).unwrap();
    assert_eq!(id, 1);
    // a packet without a source gets ours
    assert_eq!(IpPacket::unpack(&bytes).unwrap().source_address(), OURS[1]);
    let packet = IpPacket::new(7, THEIRS[0], Protocol::Test, 0, 2, b"", 2, true, &[]).unwrap();
    let (_, bytes) = layer.outgoing(packet).unwrap();
    assert_eq!(IpPacket::unpack(&bytes).unwrap().source_address(), 7);
    let packet = layer.send(FAR, Protocol::Test, b"hi").unwrap();
    assert!(layer.outgoing(packet).is_none());
    assert!(layer.send(FAR, Protocol::Test, &vec![0; 65516]).is_none());

    assert_eq!(layer.get_src_from_dst(THEIRS[0]), Some(OURS[0]));
    assert_eq!(layer.get_src_from_dst(FAR), None);
    layer.handle_rip(&rip(THEIRS[1], RipCommand::Response, vec![entry(1, FAR)]), NOW);
    assert_eq!(layer.get_src_from_dst(FAR), Some(OURS[1]));
    assert_eq!(
        layer.routes().iter().map(|r| r.0).collect::<Vec<u32>>(),
        vec![OURS[0], OURS[1], FAR]
    );
    assert_eq!(layer.toggle_interface(1, State::DOWN), Ok(()));
    assert_eq!(layer.toggle_interface(2, State::DOWN), Err(UnknownInterface));
    assert_eq!(layer.reap(NOW).len(), 2);
    assert_eq!(layer.routes().len(), 2);
    assert_eq!(layer.toggle_interface(1, State::UP), Ok(()));
}

#[test]
fn handlers_are_looked_up() {
    let mut layer = IpLayer::new(interfaces());
    let packet = IpPacket::new_with_defaults(OURS[0], Protocol::Tcp, b"").unwrap();
    assert_eq!(layer.handle_packet(&packet), Err(NoHandler(Protocol::Tcp)));
    layer.register_handler(Protocol::Tcp);
    assert_eq!(layer.handle_packet(&packet), Ok(Protocol::Tcp));
    let packet = IpPacket::new_with_defaults(OURS[0], Protocol::RIP, b"").unwrap();
    assert_eq!(layer.handle_packet(&packet), Ok(Protocol::RIP));
    assert!(layer.is_our_ip(OURS[0]));
    assert!(!layer.is_our_ip(FAR));
}

#[test]
fn links() {
    let mut layer = LinkLayer::new(interfaces());
    assert_eq!(layer.get_state(0), Ok(State::UP));
    assert_eq!(layer.send_targets(None), vec![link(5000), link(5001)]);
    assert_eq!(layer.send_targets(Some(1)), vec![link(5001)]);
    assert_eq!(layer.recv_interface(link(5001)), Some(1));
    assert_eq!(layer.recv_interface(link(5002)), None);
    assert_eq!(layer.down(1), Ok(()));
    assert_eq!(layer.get_state(1), Ok(State::DOWN));
    assert_eq!(layer.send_targets(None), vec![link(5000)]);
    assert!(layer.send_targets(Some(1)).is_empty());
    assert_eq!(layer.recv_interface(link(5001)), None);
    assert_eq!(layer.up(1), Ok(()));
    assert_eq!(layer.up(2), Err(UnknownInterface));
    assert_eq!(layer.down(2), Err(UnknownInterface));
    assert_eq!(layer.get_state(2), Err(UnknownInterface));
    assert_eq!(layer.get_our_ip(1), Ok(OURS[1]));
    assert_eq!(layer.get_our_ip(2), Err(UnknownInterface));
    assert_eq!(layer.get_interfaces().len(), 2);
}

#[test]
fn interfaces_are_shown() {
    let mut all = interfaces();
    all[0].down();
    assert_eq!(all[0].state(), State::DOWN);
    assert_eq!(
        all[0].to_string(false),
        "0: status DOWN, their_ip 10.0.0.2, our_ip 10.0.0.1"
    );
    assert_eq!(
        all[1].to_string(true),
        "1: status UP, outgoing_link localhost:5001, their_ip 10.0.1.2, our_ip 10.0.1.1"
    );
    all[0].up();
    assert_eq!(all[0].state(), State::UP);
    let r = Interface::new(0, "h:1".to_string(), &[ResolvedAddr::V6], 1, 2);
    assert_eq!(r.err(), Some(InvalidSocketAddr));
    assert_eq!(State::from_str("up"), Ok(State::UP));
    assert_eq!(State::from_str("down"), Ok(State::DOWN));
    assert_eq!(State::from_str("UP"), Err(UnknownState));
}

#[test]
fn routes_are_shown() {
    let route = RoutingEntry { next_hop: 12, cost: 3, expiration_time: Some(5_900_000_000) };
    assert_eq!(route.to_string(false, 0), "next_hop 12, cost 3");
    assert_eq!(route.to_string(true, 0), "next_hop 12, cost 3, time_remaining Some(5)");
    assert_eq!(
        route.to_string(true, 6_000_000_000),
        "next_hop 12, cost 3, time_remaining Some(0)"
    );
    let own = RoutingEntry { next_hop: 0, cost: 0, expiration_time: None };
    assert_eq!(own.to_string(true, 0), "next_hop 0, cost 0, time_remaining None");
}
