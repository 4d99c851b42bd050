use ip_tcp::ip::ip_packet::IpPacket;
use ip_tcp::ip::protocol::Protocol;
use ip_tcp::tcp::send_buffer::{
    CongestionControlInfo, CongestionControlStrategy, SendBufferError, SendBufferState,
};
use ip_tcp::tcp::tcp_header::{
    build_tcp_packet, checksum_of_segment, parse_tcp_packet, IpTcpPacket, Ipv4Header,
    MalformedTcpHeader, TcpHeader,
};
use ip_tcp::tcp::tcp_internal::{debug_assert_state_valid, SocketAddr};
use ip_tcp::tcp::tcp_stream::{CloseStep, StreamSendThreadMsg, TcpStream};
use ip_tcp::tcp::{TcpStreamState, VALID_SYN_STATES};

const NOW: u64 = 20_000_000_000;
const CLIENT: u32 = 0x0a00_0001;
const SERVER: u32 = 0x0a00_0002;

fn header(syn: bool, ack: bool, fin: bool, seq: u32, ack_num: u32) -> TcpHeader {
    TcpHeader {
        source_port: 80,
        destination_port: 10000,
        sequence_number: seq,
        acknowledgment_number: ack_num,
        fin,
        syn,
        ack,
        window_size: 1000,
        checksum: 0,
    }
}

/// Sends everything that the stream wants to send and returns the packets.
fn drain(stream: &mut TcpStream, now: u64) -> Vec<IpPacket> {
    assert!(stream.send_buffer.can_retry(now));
    let step = stream.run_send_buffer(now);
    let mut packets = Vec::new();
    for msg in step.messages {
        if let Some(packet) = stream.send_thread_step(msg).packet {
            packets.push(packet);
        }
    }
    packets
}

/// Delivers a packet and returns what is sent because of it, the reply first.
fn deliver(stream: &mut TcpStream, packet: &IpPacket, now: u64) -> Vec<IpPacket> {
    let bytes = packet.pack();
    let packet = IpPacket::unpack(&bytes).unwrap();
    let (ip, tcp, data) = parse_tcp_packet(&packet).unwrap();
    let mut packets = Vec::new();
    packets.extend(stream.reply(&ip, &tcp));
    let outcome = stream.process((ip, tcp, data), true, now);
    assert!(!outcome.stopped);
    if let Some(msg) = outcome.answer {
        packets.extend(stream.send_thread_step(msg).packet);
    }
    if outcome.wake_send_thread {
        packets.extend(drain(stream, now));
    }
    packets
}

fn seq_ack(packet: &IpPacket) -> (bool, bool, bool, u32, u32, u16, usize) {
    let (_, h, data) = parse_tcp_packet(packet).unwrap();
    (h.syn, h.ack, h.fin, h.sequence_number, h.acknowledgment_number, h.window_size, data.len())
}

fn connected() -> (TcpStream, TcpStream) {
    let mut client = TcpStream::connect(
        CLIENT,
        10000,
        SERVER,
        80,
        0,
        CongestionControlStrategy::No,
        NOW,
    );
    let mut server = TcpStream::listen(80, 0);
    assert_eq!(client.state(), TcpStreamState::SynSent);
    assert_eq!(server.state(), TcpStreamState::Listen);

    let syn = drain(&mut client, NOW);
    assert_eq!(seq_ack(&syn[0]), (true, false, false, 0, 0, 65535, 0));
    let syn_ack = deliver(&mut server, &syn[0], NOW);
    assert_eq!(server.state(), TcpStreamState::SynReceived);
    assert_eq!(seq_ack(&syn_ack[0]), (true, true, false, 0, 1, 65535, 0));
    let ack = deliver(&mut client, &syn_ack[0], NOW);
    assert_eq!(client.state(), TcpStreamState::Established);
    assert_eq!(seq_ack(&ack[0]), (false, true, false, 1, 1, 65535, 0));
    assert!(deliver(&mut server, &ack[0], NOW).is_empty());
    assert_eq!(server.state(), TcpStreamState::Established);
    (client, server)
}

#[test]
fn handshake_establishes_both_ends() {
    let (client, server) = connected();
    assert_eq!(server.destination(), Some(SocketAddr { ip: CLIENT, port: 10000 }));
    assert_eq!(server.source_ip(), Some(SERVER));
    assert_eq!(server.source_port(), 80);
    assert_eq!(client.destination(), Some(SocketAddr { ip: SERVER, port: 80 }));
    assert_eq!(client.get_window_size(), 65535);
    assert_eq!(client.window_size(), Some((65535, 65535, 7040)));
    assert_eq!(TcpStream::listen(1, 7).window_size(), None);
    assert_eq!(TcpStream::listen(1, 7).socket_id(), 7);
}

#[test]
fn data_is_acked_and_read() {
    let (mut client, mut server) = connected();
    let data: Vec<u8> = (0..1000u32).map(|i| i as u8).collect();
    assert_eq!(client.send(&data), Ok(Some(1000)));
    let segments = drain(&mut client, NOW);
    assert_eq!(seq_ack(&segments[0]), (false, true, false, 1, 1, 65535, 1000));
    let acks = deliver(&mut server, &segments[0], NOW);
    assert_eq!(seq_ack(&acks[0]), (false, true, false, 1, 1001, 64535, 0));
    deliver(&mut client, &acks[0], NOW);
    assert!(client.send_buffer.window.elems.is_empty());

    let (read, msg) = server.recv(600);
    assert_eq!(read, &data[..600]);
    assert!(matches!(msg, Some(StreamSendThreadMsg::UpdateWindowSize(65135))));
    assert!(server.send_thread_step(msg.unwrap()).packet.is_none());
    assert_eq!(server.internal.last_window_size, 65135);
    assert_eq!(server.recv(600).0, &data[600..]);
    assert!(server.recv(600).0.is_empty());
}

#[test]
fn teardown_goes_through_all_states() {
    let (mut client, mut server) = connected();
    assert_eq!(client.close(NOW), Ok(CloseStep::FinQueued));
    assert_eq!(client.state(), TcpStreamState::FinWait1);
    assert_eq!(client.close(NOW), Err(SendBufferError::ConnectionClosing));
    let fin = drain(&mut client, NOW);
    assert_eq!(seq_ack(&fin[0]), (false, false, true, 1, 0, 65535, 0));
    let ack = deliver(&mut server, &fin[0], NOW);
    assert_eq!(server.state(), TcpStreamState::CloseWait);
    assert_eq!(seq_ack(&ack[0]), (false, true, false, 1, 2, 65535, 0));
    // a duplicate is acked again
    assert_eq!(deliver(&mut server, &fin[0], NOW).len(), 1);
    deliver(&mut client, &ack[0], NOW);
    assert_eq!(client.state(), TcpStreamState::FinWait2);

    assert_eq!(server.close(NOW), Ok(CloseStep::FinQueued));
    assert_eq!(server.state(), TcpStreamState::LastAck);
    let fin = drain(&mut server, NOW);
    let ack = deliver(&mut client, &fin[0], NOW);
    assert_eq!(client.state(), TcpStreamState::TimeWait);
    deliver(&mut server, &ack[0], NOW);
    assert_eq!(server.state(), TcpStreamState::Closed);
    // closed is final
    assert!(deliver(&mut server, &ack[0], NOW).is_empty());
    assert_eq!(server.state(), TcpStreamState::Closed);
    assert_eq!(server.close(NOW), Err(SendBufferError::ConnectionClosing));
}

#[test]
fn fin_waits_for_queued_data() {
    let (mut client, _) = connected();
    assert_eq!(client.send(&[1, 2, 3]), Ok(Some(3)));
    assert_eq!(client.close(NOW), Ok(CloseStep::Wait));
    assert_eq!(client.state(), TcpStreamState::Established);
    assert_eq!(drain(&mut client, NOW).len(), 1);
    assert_eq!(client.close(NOW), Ok(CloseStep::FinQueued));
    let fin = drain(&mut client, NOW);
    assert_eq!(seq_ack(&fin[0]).3, 4);
}

#[test]
fn simultaneous_close() {
    let (mut client, mut server) = connected();
    client.close(NOW).unwrap();
    server.close(NOW).unwrap();
    let client_fin = drain(&mut client, NOW);
    let server_fin = drain(&mut server, NOW);
    let server_ack = deliver(&mut server, &client_fin[0], NOW);
    assert_eq!(server.state(), TcpStreamState::Closing);
    deliver(&mut client, &server_ack[0], NOW);
    assert_eq!(client.state(), TcpStreamState::FinWait2);
    let client_ack = deliver(&mut client, &server_fin[0], NOW);
    assert_eq!(client.state(), TcpStreamState::TimeWait);
    deliver(&mut server, &client_ack[0], NOW);
    assert_eq!(server.state(), TcpStreamState::TimeWait);
}

#[test]
fn simultaneous_open() {
    let mut a = TcpStream::connect(CLIENT, 10000, SERVER, 80, 0, CongestionControlStrategy::No, NOW);
    let ip = Ipv4Header { source: SERVER, destination: CLIENT };
    let syn = header(true, false, false, 500, 0);
    let reply = a.reply(&ip, &syn).unwrap();
    assert_eq!(seq_ack(&reply), (false, true, false, 1, 501, 65535, 0));
    a.process((ip, syn, Vec::new()), true, NOW);
    assert_eq!(a.state(), TcpStreamState::SynReceived);
    assert_eq!(a.internal.initial_ack, Some(501));
    // from now on the retried syn carries an ack
    let packets = drain(&mut a, NOW);
    assert_eq!(seq_ack(&packets[0]), (true, true, false, 0, 501, 65535, 0));
    a.process((ip, header(false, true, false, 501, 1), Vec::new()), true, NOW);
    assert_eq!(a.state(), TcpStreamState::Established);
    assert_eq!(a.send_buffer.state, SendBufferState::Ready);
}

#[test]
fn acks_that_cannot_be_sent() {
    let ip = Ipv4Header { source: SERVER, destination: CLIENT };
    let connect = || {
        TcpStream::connect(CLIENT, 10000, SERVER, 80, 0, CongestionControlStrategy::No, NOW)
    };
    let mut a = connect();
    let outcome = a.process((ip, header(true, true, false, 0, 1), Vec::new()), false, NOW);
    assert!(!outcome.stopped);
    assert_eq!(a.state(), TcpStreamState::SynSent);
    let mut b = connect();
    b.process((ip, header(true, false, false, 0, 0), Vec::new()), false, NOW);
    assert_eq!(b.state(), TcpStreamState::Closed);
    let (mut c, _) = connected();
    let packet: IpTcpPacket = (ip, header(false, true, true, 1, 1), vec![1, 2]);
    let outcome = c.process(packet, false, NOW);
    assert!(outcome.stopped);
    assert!(!outcome.notify_reader);
    assert_eq!(c.state(), TcpStreamState::Closed);
    assert!(c.recv(9).0.is_empty());
}

#[test]
fn streams_without_a_peer() {
    let mut s = TcpStream::listen(80, 3);
    // only a syn counts
    let ip = Ipv4Header { source: CLIENT, destination: SERVER };
    s.process((ip, header(false, true, false, 9, 9), vec![1]), true, NOW);
    assert_eq!(s.state(), TcpStreamState::Listen);
    assert_eq!(s.send(&[1]), Ok(None));
    assert_eq!(s.close(NOW), Ok(CloseStep::Done));
    assert_eq!(s.state(), TcpStreamState::Closed);

    let mut c = TcpStream::connect(CLIENT, 1, SERVER, 2, 0, CongestionControlStrategy::No, NOW);
    assert_eq!(c.close(NOW), Ok(CloseStep::Done));
    c.set_state(TcpStreamState::Listen);
    assert_eq!(c.state(), TcpStreamState::Listen);
}

#[test]
fn shutdown_closes_the_stream() {
    let (mut client, _) = connected();
    let outcome = client.send_thread_step(StreamSendThreadMsg::Shutdown);
    assert!(outcome.stopped);
    assert!(outcome.packet.is_none());
    assert_eq!(client.state(), TcpStreamState::Closed);
}

#[test]
fn room_for_acks_matters_where_they_are_taken() {
    let (mut client, _) = connected();
    let mut info = CongestionControlInfo::new();
    info.last_ack = 7;
    info.dup_ack_count = u8::MAX;
    client.send_buffer.window.congestion_control = CongestionControlStrategy::Reno(info);
    assert!(!client.can_process(&header(false, true, false, 1, 7), true));
    assert!(client.can_process(&header(false, true, false, 1, 8), true));
    // no ack, or a fin that ends the stream
    assert!(client.can_process(&header(false, false, false, 1, 7), true));
    assert!(!client.can_process(&header(false, true, true, 1, 7), true));
    assert!(client.can_process(&header(false, true, true, 1, 7), false));
    // acks are not counted in this state
    client.set_state(TcpStreamState::Closing);
    assert!(client.can_process(&header(false, true, false, 1, 7), true));
}

#[test]
fn reno_streams() {
    let s = TcpStream::connect(
        CLIENT,
        1,
        SERVER,
        2,
        0,
        CongestionControlStrategy::Reno(CongestionControlInfo::new()),
        NOW,
    );
    assert!(matches!(s.send_buffer.window.congestion_control, CongestionControlStrategy::Reno(_)));
}

#[test]
fn segments_survive_the_wire() {
    let h = TcpHeader {
        source_port: 0x1234,
        destination_port: 0x5678,
        sequence_number: 0x9abc_def0,
        acknowledgment_number: 0x0102_0304,
        fin: true,
        syn: false,
        ack: true,
        window_size: 0xfedc,
        checksum: 0x4321,
    };
    let packet = build_tcp_packet(CLIENT, SERVER, &h, &[7, 8]);
    assert_eq!(packet.protocol(), Protocol::Tcp);
    assert_eq!(
        packet.data(),
        &[
            0x12, 0x34, 0x56, 0x78, 0x9a, 0xbc, 0xde, 0xf0, 1, 2, 3, 4, 0x50, 0x11, 0xfe, 0xdc,
            0x43, 0x21, 0, 0, 7, 8
        ]
    );
    let unpacked = IpPacket::unpack(&packet.pack()).unwrap();
    let (ip, tcp, data) = parse_tcp_packet(&unpacked).unwrap();
    assert_eq!(ip, Ipv4Header { source: CLIENT, destination: SERVER });
    assert_eq!(tcp, h);
    assert_eq!(data, vec![7, 8]);
}

#[test]
fn tcp_options_are_skipped() {
    let mut segment = vec![0u8; 26];
    segment[12] = 0x60;
    segment[13] = 0x02;
    segment[24] = 5;
    segment[25] = 6;
    let packet = IpPacket::new_with_defaults(SERVER, Protocol::Tcp, &segment).unwrap();
    let (_, tcp, data) = parse_tcp_packet(&packet).unwrap();
    assert!(tcp.syn && !tcp.ack && !tcp.fin);
    assert_eq!(data, vec![5, 6]);
}

#[test]
fn malformed_segments_are_refused() {
    let parse = |segment: &[u8]| {
        let packet = IpPacket::new_with_defaults(SERVER, Protocol::Tcp, segment).unwrap();
        parse_tcp_packet(&packet)
    };
    assert_eq!(parse(&[0u8; 19]), Err(MalformedTcpHeader));
    // a header that is shorter than a header, and one that is longer than the segment
    assert_eq!(parse(&[0u8; 20]), Err(MalformedTcpHeader));
    assert_eq!(parse(&[0x60u8; 20]), Err(MalformedTcpHeader));
}

#[test]
fn tcp_checksum_of_a_known_segment() {
    let h = TcpHeader {
        source_port: 1,
        destination_port: 2,
        sequence_number: 3,
        acknowledgment_number: 4,
        fin: false,
        syn: true,
        ack: false,
        window_size: 5,
        checksum: 99,
    };
    // the complement of c0a8 + 1 + c0a8 + 2 + 6 + 16 + 1 + 2 + 3 + 4 + 5002 + 5 + 0102
    assert_eq!(checksum_of_segment(0xc0a8_0001, 0xc0a8_0002, &h, &[1, 2]), 0x2d7c);
    let with_data = checksum_of_segment(0xc0a8_0001, 0xc0a8_0002, &h, &[1, 3]);
    assert_eq!(with_data, 0x2d7b);
    // a last byte without a partner counts as 0300
    assert_eq!(checksum_of_segment(0xc0a8_0001, 0xc0a8_0002, &h, &[1, 2, 3]), 0x2a7b);
    // many carries
    assert_eq!(checksum_of_segment(0xc0a8_0001, 0xc0a8_0002, &h, &[0xff; 1401]), 0x2a06);
    // a payload that brings the sum to ffff
    assert_eq!(checksum_of_segment(0xc0a8_0001, 0xc0a8_0002, &h, &[0x2e, 0x7e]), 0);
    let h = TcpHeader {
        source_port: u16::MAX,
        destination_port: u16::MAX,
        sequence_number: u32::MAX,
        acknowledgment_number: u32::MAX,
        fin: true,
        syn: true,
        ack: true,
        window_size: u16::MAX,
        checksum: 0,
    };
    assert_eq!(checksum_of_segment(u32::MAX, u32::MAX, &h, &[0xff; 9]), 0xb0c8);
}

#[test]
fn valid_states() {
    assert!(debug_assert_state_valid(&TcpStreamState::SynSent, &VALID_SYN_STATES));
    assert!(!debug_assert_state_valid(&TcpStreamState::Closed, &VALID_SYN_STATES));
}
