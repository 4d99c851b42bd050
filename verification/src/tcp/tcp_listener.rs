use vstd::prelude::*;

use super::send_buffer::CongestionControlStrategy;
use super::socket::SocketId;
use super::tcp_layer::{is_waiting, TcpLayer, TcpLayerError};
use super::tcp_internal::TcpStreamInternal;
use super::{Port, TcpStreamState, MAX_WINDOW_SIZE};

verus! {

broadcast use vstd::std_specs::btree::group_btree_axioms;

#[derive(Debug, Clone, Copy, PartialEq, Eq, Structural)]
pub struct TcpListener {
    pub socket_id: SocketId,
}

impl TcpListener {
    /// A listener on a port that is not used yet.
    pub fn bind(src_port: Port, layer: &mut TcpLayer) -> (result: Result<
        TcpListener,
        TcpLayerError,
    >)
        requires
            old(layer).wf(),
            old(layer).sockets_and_ports.next_socket_id < usize::MAX,
        ensures
            final(layer).wf(),
            if old(layer).sockets_and_ports.used_ports@.contains(src_port) {
                &&& result == Err::<TcpListener, TcpLayerError>(TcpLayerError::PortInUse(src_port))
                &&& final(layer).streams == old(layer).streams
                &&& final(layer).sockets_and_ports.used_ports@ == old(
                    layer,
                ).sockets_and_ports.used_ports@
                &&& final(layer).sockets_and_ports.next_socket_id == old(
                    layer,
                ).sockets_and_ports.next_socket_id
            } else {
                let socket_id = old(layer).sockets_and_ports.next_socket_id;
                let stream = final(layer).streams@[socket_id];
                &&& result == Ok::<TcpListener, TcpLayerError>(TcpListener { socket_id })
                &&& final(layer).sockets_and_ports.next_socket_id == socket_id + 1
                &&& final(layer).streams@ == old(layer).streams@.insert(socket_id, stream)
                &&& final(layer).sockets_and_ports.used_ports@ == old(
                    layer,
                ).sockets_and_ports.used_ports@.insert(src_port)
                &&& stream.internal == (TcpStreamInternal {
                    source_ip: None,
                    source_port: src_port,
                    destination_ip: None,
                    destination_port: None,
                    initial_sequence_number: 0,
                    initial_ack: None,
                    last_ack: None,
                    last_window_size: MAX_WINDOW_SIZE as u16,
                    next_seq: 1,
                    state: TcpStreamState::Listen,
                    socket_id,
                })
                &&& stream.recv_buffer.win is None
                &&& stream.send_buffer.is_new(0, CongestionControlStrategy::No)
            },
    {
        match layer.listen(src_port) {
            Ok(socket_id) => Ok(TcpListener { socket_id }),
            Err(e) => Err(e),
        }
    }

    /// The socket of a peer that has connected, or none if the caller has to wait for one.
    pub fn accept(&self, layer: &TcpLayer) -> (result: Result<Option<SocketId>, TcpLayerError>)
        ensures
            result == if !layer.streams@.contains_key(self.socket_id) {
                Err::<Option<SocketId>, TcpLayerError>(
                    TcpLayerError::UnknownSocket(self.socket_id),
                )
            } else if is_waiting(layer.streams@[self.socket_id]) {
                Ok(None)
            } else {
                Ok(Some(self.socket_id))
            },
    {
        match layer.streams.get(&self.socket_id) {
            Some(stream) => {
                if stream.destination().is_none() {
                    Ok(None)
                } else {
                    Ok(Some(self.socket_id))
                }
            },
            None => Err(TcpLayerError::UnknownSocket(self.socket_id)),
        }
    }
}

/// A listener that is bound waits on its port, and accepts once a peer has connected to it, never
/// before. It is known by the socket that listens.
pub proof fn law_accepting(
    listener: &TcpListener,
    layer: &TcpLayer,
    result: Result<Option<SocketId>, TcpLayerError>,
)
    requires
        call_ensures(TcpListener::accept, (listener, layer), result),
    ensures
        !layer.streams@.contains_key(listener.socket_id) ==> result == Err::<
            Option<SocketId>,
            TcpLayerError,
        >(TcpLayerError::UnknownSocket(listener.socket_id)),
        layer.streams@.contains_key(listener.socket_id) ==> {
            let internal = layer.streams@[listener.socket_id].internal;
            let peer = internal.destination_ip is Some && internal.destination_port is Some;
            result == Ok::<Option<SocketId>, TcpLayerError>(
                if peer {
                    Some(listener.socket_id)
                } else {
                    None
                },
            )
        },
{
}

/// Binding a listener to a port that is not used opens a socket that listens there; a port that is
/// used is refused.
pub proof fn law_binding(
    port: Port,
    layer: &mut TcpLayer,
    result: Result<TcpListener, TcpLayerError>,
)
    requires
        old(layer).wf(),
        call_ensures(TcpListener::bind, (port, layer), result),
    ensures
        result is Ok <==> !old(layer).sockets_and_ports.used_ports@.contains(port),
        result is Err ==> result == Err::<TcpListener, TcpLayerError>(
            TcpLayerError::PortInUse(port),
        ) && final(layer).streams@ == old(layer).streams@,
        result is Ok ==> {
            let id = (result->Ok_0).socket_id;
            let internal = final(layer).streams@[id].internal;
            &&& !old(layer).streams@.contains_key(id)
            &&& final(layer).streams@.contains_key(id)
            &&& internal.state == TcpStreamState::Listen
            &&& internal.source_port == port
            &&& internal.destination_ip is None
            &&& final(layer).sockets_and_ports.used_ports@ == old(layer).sockets_and_ports.used_ports@.insert(port)
        },
{
}

} // verus!
