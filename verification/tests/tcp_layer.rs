use ip_tcp::tcp::send_buffer::{CongestionControlStrategy, SendBufferError};
use ip_tcp::tcp::socket::{SocketSide, UnknownSide};
use ip_tcp::tcp::tcp_header::{Ipv4Header, TcpHeader};
use ip_tcp::tcp::tcp_layer::{SocketPortAvailablity, TcpLayer, TcpLayerError};
use ip_tcp::tcp::tcp_listener::TcpListener;
use ip_tcp::tcp::tcp_stream::CloseStep;
use ip_tcp::tcp::TcpStreamState;

const NOW: u64 = 20_000_000_000;
const US: u32 = 0x0a00_0001;
const THEM: u32 = 0x0a00_0002;

fn header(source_port: u16, destination_port: u16, syn: bool, ack: bool) -> TcpHeader {
    TcpHeader {
        source_port,
        destination_port,
        sequence_number: 100,
        acknowledgment_number: 1,
        fin: false,
        syn,
        ack,
        window_size: 1000,
        checksum: 0,
    }
}

const TO_US: Ipv4Header = Ipv4Header { source: THEM, destination: US };

#[test]
fn ports_are_picked_in_order() {
    let mut ports = SocketPortAvailablity::new();
    assert_eq!(ports.get_new_port(), 10000);
    assert_eq!(ports.get_new_port(), 10001);
    assert_eq!(ports.get_new_port(), 10002);
    assert!(ports.contains_port(10001));
    assert!(ports.add_port(10010));
    assert!(!ports.add_port(10010));
    // the first gap is before 10010
    assert_eq!(ports.get_new_port(), 10004);
    assert!(ports.remove_port(10010));
    assert!(!ports.remove_port(10010));
    assert_eq!(ports.get_new_socket(), 0);
    assert_eq!(ports.get_new_socket(), 1);
}

#[test]
fn small_ports_do_not_matter() {
    let mut ports = SocketPortAvailablity::new();
    ports.add_port(80);
    assert_eq!(ports.get_new_port(), 10001);
    let mut ports = SocketPortAvailablity::new();
    ports.add_port(20000);
    assert_eq!(ports.get_new_port(), 10001);
}

#[test]
fn packets_go_to_their_connection_first() {
    let mut layer = TcpLayer::new();
    assert_eq!(layer.dispatch(&TO_US, &header(80, 10000, false, true)), None);
    let a = layer.connect(US, THEM, 80, CongestionControlStrategy::No, NOW);
    let listener = layer.listen(22).unwrap();
    let b = layer.connect(US, THEM, 81, CongestionControlStrategy::No, NOW);
    let last = layer.listen(23).unwrap();
    assert_eq!((a, listener, b, last), (0, 1, 2, 3));
    let port_a = layer.streams[&a].source_port();
    let port_b = layer.streams[&b].source_port();
    assert_ne!(port_a, port_b);
    assert_eq!(layer.dispatch(&TO_US, &header(80, port_a, false, true)), Some(a));
    assert_eq!(layer.dispatch(&TO_US, &header(81, port_b, false, true)), Some(b));
    // any other goes to the listener on its port
    assert_eq!(layer.dispatch(&TO_US, &header(81, 22, true, false)), Some(listener));
    assert_eq!(layer.dispatch(&TO_US, &header(81, 23, true, false)), Some(last));
    // and nowhere if there is none
    assert_eq!(layer.dispatch(&TO_US, &header(81, 24, true, false)), None);
    assert_eq!(layer.dispatch(&TO_US, &header(81, port_a, false, true)), None);
    let other = Ipv4Header { source: THEM + 1, destination: US };
    assert_eq!(layer.dispatch(&other, &header(80, port_a, false, true)), None);
}

#[test]
fn listeners_have_ports_of_their_own() {
    let mut layer = TcpLayer::new();
    let listener = TcpListener::bind(22, &mut layer).unwrap();
    assert_eq!(listener.socket_id, 0);
    assert_eq!(TcpListener::bind(22, &mut layer), Err(TcpLayerError::PortInUse(22)));
    assert_eq!(layer.sockets_and_ports.next_socket_id, 1);
    assert!(layer.sockets_and_ports.used_ports.contains(&22));
    assert_eq!(TcpListener::bind(23, &mut layer).unwrap().socket_id, 1);
    let stream = &layer.streams[&0];
    assert_eq!(stream.source_port(), 22);
    assert!(stream.recv_buffer.win.is_none());
    assert_eq!(stream.send_buffer.window.starting_sequence, 1);
}

#[test]
fn sockets_are_served() {
    let mut layer = TcpLayer::new();
    assert_eq!(layer.send(5, &[1]), Err(TcpLayerError::UnknownSocket(5)));
    assert_eq!(layer.recv(5, 1).err(), Some(TcpLayerError::UnknownSocket(5)));
    assert_eq!(layer.close(5, NOW), Err(TcpLayerError::UnknownSocket(5)));
    assert_eq!(layer.shutdown(5, SocketSide::Both, NOW), Err(TcpLayerError::UnknownSocket(5)));
    assert_eq!(layer.window(5), Err(TcpLayerError::UnknownSocket(5)));

    let listener = TcpListener::bind(80, &mut layer).unwrap();
    assert_eq!(TcpListener::bind(80, &mut layer), Err(TcpLayerError::PortInUse(80)));
    let id = listener.socket_id;
    assert_eq!(layer.send(id, &[1]), Err(TcpLayerError::ListenerSocket));
    assert_eq!(layer.recv(id, 1).err(), Some(TcpLayerError::ListenerSocket));
    assert_eq!(layer.window(id), Ok(None));
    assert_eq!(listener.accept(&layer), Ok(None));

    let outcome = layer.process(id, (TO_US, header(9, 80, true, false), Vec::new()), true, NOW);
    assert!(outcome.wake_send_thread);
    assert_eq!(listener.accept(&layer), Ok(Some(id)));
    layer.process(id, (TO_US, header(9, 80, false, true), Vec::new()), true, NOW);
    let mut data = header(9, 80, false, true);
    data.sequence_number = 101;
    let outcome = layer.process(id, (TO_US, data, vec![4, 5, 6]), true, NOW);
    assert!(outcome.notify_reader);
    assert_eq!(layer.recv(id, 2).unwrap().0, vec![4, 5]);
    assert_eq!(layer.window(id), Ok(Some((65534, 1000, 7040))));
    assert_eq!(layer.send(id, &[1, 2]), Ok(Some(2)));
    assert_eq!(layer.sockets().len(), 1);
    assert_eq!(layer.sockets()[0].internal.state, TcpStreamState::Established);
    assert_eq!(layer.close(id, NOW), Ok(CloseStep::Wait));
    assert_eq!(layer.streams.get_mut(&id).unwrap().run_send_buffer(NOW).messages.len(), 1);
    assert_eq!(layer.shutdown(id, SocketSide::Write, NOW), Ok(CloseStep::FinQueued));
    assert_eq!(
        layer.close(id, NOW),
        Err(TcpLayerError::Stream(SendBufferError::ConnectionClosing))
    );
    assert_eq!(
        layer.send(id, &[1]),
        Err(TcpLayerError::Stream(SendBufferError::ConnectionClosing))
    );
    layer.cleanup(id);
    assert!(layer.sockets().is_empty());
    assert!(!layer.sockets_and_ports.contains_port(80));
    assert_eq!(listener.accept(&layer), Err(TcpLayerError::UnknownSocket(id)));
}

#[test]
fn sides_have_names() {
    assert_eq!(SocketSide::from_str("r"), Ok(SocketSide::Read));
    assert_eq!(SocketSide::from_str("read"), Ok(SocketSide::Read));
    assert_eq!(SocketSide::from_str("w"), Ok(SocketSide::Write));
    assert_eq!(SocketSide::from_str("write"), Ok(SocketSide::Write));
    assert_eq!(SocketSide::from_str("both"), Ok(SocketSide::Both));
    assert_eq!(SocketSide::from_str("b"), Err(UnknownSide));
}
