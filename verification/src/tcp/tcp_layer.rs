//! The sockets of a node: which ports are taken, which stream a packet is for, and what can be
//! asked of which socket.

use std::collections::{BTreeMap, BTreeSet};

use vstd::prelude::*;

use super::send_buffer::{CongestionControlStrategy, SendBufferError, SendBufferState};
use super::socket::{SocketId, SocketSide};
use super::tcp_header::{IpTcpPacket, Ipv4Header, TcpHeader};
use super::tcp_internal::TcpStreamInternal;
use super::tcp_stream::{CloseStep, ProcessOutcome, StreamSendThreadMsg, TcpStream};
use super::{Port, TcpStreamState, MAX_WINDOW_SIZE, TCP_BUF_SIZE};
use crate::ip::Ipv4Addr;
use crate::misc::ordered::{lists_ids, lists_ports, sorted_ids, sorted_ports};

verus! {

broadcast use vstd::std_specs::btree::group_btree_axioms;

pub const START_PORT: Port = 10000;

pub struct SocketPortAvailablity {
    pub used_ports: BTreeSet<Port>,
    pub next_socket_id: SocketId,
}

/// Whether the port at place `i` among the used ones in order leaves a gap before it.
pub open spec fn gap_before(ports: Seq<Port>, i: int) -> bool {
    &&& 0 <= i < ports.len()
    &&& START_PORT + i + 1 < ports[i]
}

/// Whether `port` is what is picked given the used ports in order: a port in the first gap, or one
/// past as many as are used.
pub open spec fn picks_port(ports: Seq<Port>, port: Port) -> bool {
    ||| {
        &&& forall|i: int| !#[trigger] gap_before(ports, i)
        &&& port == START_PORT + ports.len()
    }
    ||| exists|i: int|
        {
            &&& #[trigger] gap_before(ports, i)
            &&& forall|j: int| 0 <= j < i ==> !#[trigger] gap_before(ports, j)
            &&& port == START_PORT + i + 1
        }
}

impl SocketPortAvailablity {
    pub fn new() -> (sockets_and_ports: SocketPortAvailablity)
        ensures
            sockets_and_ports.used_ports@ == Set::<Port>::empty(),
            sockets_and_ports.next_socket_id == 0,
    {
        SocketPortAvailablity { used_ports: BTreeSet::new(), next_socket_id: 0 }
    }

    pub fn get_new_socket(&mut self) -> (id: SocketId)
        requires
            old(self).next_socket_id < usize::MAX,
        ensures
            id == old(self).next_socket_id,
            final(self).next_socket_id == old(self).next_socket_id + 1,
            final(self).used_ports == old(self).used_ports,
    {
        let s: SocketId = self.next_socket_id;
        self.next_socket_id = self.next_socket_id + 1;
        s
    }

    pub fn get_new_port(&mut self) -> (port: Port)
        requires
            START_PORT + old(self).used_ports@.len() <= 65535,
        ensures
            exists|ports: Seq<Port>|
                {
                    &&& #[trigger] lists_ports(ports, old(self).used_ports@)
                    &&& ports.len() == old(self).used_ports@.len()
                    &&& picks_port(ports, port)
                },
            final(self).used_ports@ == old(self).used_ports@.insert(port),
            final(self).next_socket_id == old(self).next_socket_id,
    {
        let ports: Vec<Port> = sorted_ports(&self.used_ports);
        let mut prev_port: Port = START_PORT;
        let mut i: usize = 0;
        while i < ports.len()
            invariant
                i <= ports@.len(),
                START_PORT + ports@.len() <= 65535,
                prev_port == START_PORT + i,
                *self == *old(self),
                lists_ports(ports@, self.used_ports@),
                ports@.len() == self.used_ports@.len(),
                forall|j: int| 0 <= j < i ==> !#[trigger] gap_before(ports@, j),
            decreases ports@.len() - i,
        {
            if prev_port + 1 < ports[i] {
                assert(gap_before(ports@, i as int));
                assert(picks_port(ports@, (prev_port + 1) as u16));
                self.used_ports.insert(prev_port + 1);
                return prev_port + 1;
            }
            prev_port = prev_port + 1;
            i += 1;
        }
        assert(picks_port(ports@, prev_port));
        self.used_ports.insert(prev_port);
        prev_port
    }

    pub fn contains_port(&self, port: Port) -> (contains: bool)
        ensures
            contains == self.used_ports@.contains(port),
    {
        self.used_ports.contains(&port)
    }

    pub fn add_port(&mut self, port: Port) -> (added: bool)
        ensures
            added == !old(self).used_ports@.contains(port),
            final(self).used_ports@ == old(self).used_ports@.insert(port),
            final(self).next_socket_id == old(self).next_socket_id,
    {
        self.used_ports.insert(port)
    }

    pub fn remove_port(&mut self, port: Port) -> (removed: bool)
        ensures
            removed == old(self).used_ports@.contains(port),
            final(self).used_ports@ == old(self).used_ports@.remove(port),
            final(self).next_socket_id == old(self).next_socket_id,
    {
        self.used_ports.remove(&port)
    }
}

/// The port that is picked is one that is not used yet, as long as the used ports have a gap or do
/// not reach as far as there are of them.
pub proof fn law_new_port_is_free(ports: Seq<Port>, used: Set<Port>, port: Port)
    requires
        lists_ports(ports, used),
        picks_port(ports, port),
        (exists|i: int| gap_before(ports, i)) || forall|i: int|
            0 <= i < ports.len() ==> #[trigger] ports[i] < START_PORT + ports.len(),
    ensures
        !used.contains(port),
        port >= START_PORT,
{
    if used.contains(port) {
        let k = choose|k: int| 0 <= k < ports.len() && ports[k] == port;
        if exists|i: int| gap_before(ports, i) {
            let i = choose|i: int|
                {
                    &&& #[trigger] gap_before(ports, i)
                    &&& forall|j: int| 0 <= j < i ==> !#[trigger] gap_before(ports, j)
                    &&& port == START_PORT + i + 1
                };
            if k >= i {
                if k > i {
                    assert(ports[i] < ports[k]);
                }
            } else {
                assert(!gap_before(ports, k));
            }
        }
    }
}

pub struct TcpLayer {
    pub sockets_and_ports: SocketPortAvailablity,
    pub streams: BTreeMap<SocketId, TcpStream>,
}

/// Why a request on a socket was turned down.
#[derive(Debug, Clone, Copy, PartialEq, Eq, Structural)]
pub enum TcpLayerError {
    UnknownSocket(SocketId),
    /// Operation not supported on listener socket
    ListenerSocket,
    PortInUse(Port),
    Stream(SendBufferError),
}

/// One line of the list of sockets.
#[derive(Debug, Clone, Copy, PartialEq, Eq, Structural)]
pub struct SocketInfo {
    pub socket_id: SocketId,
    pub internal: TcpStreamInternal,
}

/// Whether a packet belongs to the connection that a stream is an end of.
pub open spec fn is_exact_match(stream: TcpStream, ip: Ipv4Header, tcp: TcpHeader) -> bool {
    &&& stream.internal.source_port == tcp.destination_port
    &&& stream.internal.source_ip == Some(ip.destination)
    &&& stream.internal.destination_ip == Some(ip.source)
    &&& stream.internal.destination_port == Some(tcp.source_port)
}

/// Whether a stream waits for a peer.
pub open spec fn is_waiting(stream: TcpStream) -> bool {
    stream.internal.destination_ip is None || stream.internal.destination_port is None
}

/// Whether a stream waits for a peer on the port that a packet is for.
pub open spec fn awaits(stream: TcpStream, tcp: TcpHeader) -> bool {
    is_waiting(stream) && stream.internal.source_port == tcp.destination_port
}

impl TcpLayer {
    /// The streams are well formed and known by their socket ids, none of which will be given out
    /// again, and a stream with a peer has an address of its own.
    pub open spec fn wf(self) -> bool {
        forall|id: SocketId| #[trigger]
            self.streams@.contains_key(id) ==> {
                &&& self.streams@[id].wf()
                &&& self.streams@[id].internal.socket_id == id
                &&& id < self.sockets_and_ports.next_socket_id
                &&& !is_waiting(self.streams@[id]) ==> self.streams@[id].internal.source_ip is Some
            }
    }

    /// Whether a packet goes to the stream with socket `id`: the first one whose connection the
    /// packet belongs to, or else the last one that waits for a peer on the packet's port.
    pub open spec fn goes_to(self, ip: Ipv4Header, tcp: TcpHeader, id: SocketId) -> bool {
        &&& self.streams@.contains_key(id)
        &&& if is_exact_match(self.streams@[id], ip, tcp) {
            forall|other: SocketId| #[trigger]
                self.streams@.contains_key(other) && other < id ==> !is_exact_match(
                    self.streams@[other],
                    ip,
                    tcp,
                )
        } else {
            &&& awaits(self.streams@[id], tcp)
            &&& forall|other: SocketId| #[trigger]
                self.streams@.contains_key(other) ==> !is_exact_match(
                    self.streams@[other],
                    ip,
                    tcp,
                )
            &&& forall|other: SocketId| #[trigger]
                self.streams@.contains_key(other) && other > id ==> !awaits(
                    self.streams@[other],
                    tcp,
                )
        }
    }

    /// Whether a packet is for the stream with socket `id`, or for none.
    pub open spec fn dispatches(
        self,
        ip: Ipv4Header,
        tcp: TcpHeader,
        id: Option<SocketId>,
    ) -> bool {
        match id {
            Some(id) => self.goes_to(ip, tcp, id),
            None => forall|id: SocketId| #[trigger]
                self.streams@.contains_key(id) ==> !is_exact_match(self.streams@[id], ip, tcp)
                    && !awaits(self.streams@[id], tcp),
        }
    }

    pub fn new() -> (layer: TcpLayer)
        ensures
            layer.wf(),
            layer.streams@ == Map::<SocketId, TcpStream>::empty(),
            layer.sockets_and_ports.used_ports@ == Set::<Port>::empty(),
            layer.sockets_and_ports.next_socket_id == 0,
    {
        TcpLayer { sockets_and_ports: SocketPortAvailablity::new(), streams: BTreeMap::new() }
    }

    /// The stream that a packet is for. None if there is none, in which case it is dropped.
    pub fn dispatch(&self, ip_header: &Ipv4Header, tcp_header: &TcpHeader) -> (id: Option<SocketId>)
        requires
            self.wf(),
        ensures
            self.dispatches(*ip_header, *tcp_header, id),
    {
        let ids: Vec<SocketId> = sorted_ids(&self.streams);
        let mut waiting: Option<SocketId> = None;
        let mut i: usize = 0;
        while i < ids.len()
            invariant
                i <= ids@.len(),
                self.wf(),
                lists_ids(ids@, self.streams@.dom()),
                forall|k: int|
                    0 <= k < i ==> !is_exact_match(
                        self.streams@[#[trigger] ids@[k]],
                        *ip_header,
                        *tcp_header,
                    ),
                match waiting {
                    Some(id) => exists|w: int|
                        {
                            &&& 0 <= w < i
                            &&& #[trigger] ids@[w] == id
                            &&& awaits(self.streams@[id], *tcp_header)
                            &&& forall|k: int|
                                w < k < i ==> !awaits(
                                    self.streams@[#[trigger] ids@[k]],
                                    *tcp_header,
                                )
                        },
                    None => forall|k: int|
                        0 <= k < i ==> !awaits(self.streams@[#[trigger] ids@[k]], *tcp_header),
                },
            decreases ids@.len() - i,
        {
            let id: SocketId = ids[i];
            proof {
                assert(ids@.contains(id));
                assert(self.streams@.dom().contains(id));
                assert(self.streams@.contains_key(id));
            }
            let cur_stream = self.streams.get(&id).unwrap();
            match cur_stream.destination() {
                Some(destination) => {
                    if cur_stream.source_port() == tcp_header.destination_port {
                        let our_src_ip: Ipv4Addr = cur_stream.source_ip().unwrap();
                        if our_src_ip == ip_header.destination && destination.port
                            == tcp_header.source_port && destination.ip == ip_header.source {
                            proof {
                                assert forall|other: SocketId| #[trigger]
                                    self.streams@.contains_key(other) && other < id implies
                                    !is_exact_match(
                                    self.streams@[other],
                                    *ip_header,
                                    *tcp_header,
                                ) by {
                                    assert(self.streams@.dom().contains(other));
                                    let k = choose|k: int| 0 <= k < ids@.len() && ids@[k] == other;
                                    if k > i {
                                        assert(ids@[i as int] < ids@[k]);
                                    }
                                }
                            }
                            return Some(id);
                        }
                    }
                },
                None => {
                    if cur_stream.source_port() == tcp_header.destination_port {
                        waiting = Some(id);
                        assert(ids@[i as int] == id);
                    }
                },
            }
            i += 1;
        }
        proof {
            assert forall|other: SocketId| #[trigger]
                self.streams@.contains_key(other) implies !is_exact_match(
                self.streams@[other],
                *ip_header,
                *tcp_header,
            ) by {
                assert(self.streams@.dom().contains(other));
                let k = choose|k: int| 0 <= k < ids@.len() && ids@[k] == other;
            }
            match waiting {
                Some(id) => {
                    let w = choose|w: int|
                        {
                            &&& 0 <= w < i
                            &&& #[trigger] ids@[w] == id
                            &&& awaits(self.streams@[id], *tcp_header)
                            &&& forall|k: int|
                                w < k < i ==> !awaits(
                                    self.streams@[#[trigger] ids@[k]],
                                    *tcp_header,
                                )
                        };
                    assert(ids@.contains(id));
                    assert(self.streams@.dom().contains(id));
                    assert forall|other: SocketId| #[trigger]
                        self.streams@.contains_key(other) && other > id implies !awaits(
                        self.streams@[other],
                        *tcp_header,
                    ) by {
                        assert(self.streams@.dom().contains(other));
                        let k = choose|k: int| 0 <= k < ids@.len() && ids@[k] == other;
                        if k < w {
                            assert(ids@[k] < ids@[w]);
                        }
                    }
                },
                None => {
                    assert forall|other: SocketId| #[trigger]
                        self.streams@.contains_key(other) implies !awaits(
                        self.streams@[other],
                        *tcp_header,
                    ) by {
                        assert(self.streams@.dom().contains(other));
                        let k = choose|k: int| 0 <= k < ids@.len() && ids@[k] == other;
                    }
                },
            }
        }
        waiting
    }
}

impl TcpLayer {
    /// Whether `post` differs from this layer in the stream with socket `id` only.
    pub open spec fn changes_only(self, post: TcpLayer, id: SocketId) -> bool {
        &&& self.streams@.contains_key(id)
        &&& post.streams@ == self.streams@.insert(id, post.streams@[id])
        &&& post.sockets_and_ports == self.sockets_and_ports
    }

    /// Whether requests on socket `id` reach a stream.
    pub open spec fn serves(self, id: SocketId) -> Result<(), TcpLayerError> {
        if !self.streams@.contains_key(id) {
            Err(TcpLayerError::UnknownSocket(id))
        } else if self.streams@[id].internal.state == TcpStreamState::Listen {
            Err(TcpLayerError::ListenerSocket)
        } else {
            Ok(())
        }
    }

    /// Queues data to be sent on a socket. Returns how much of it there was room for, or none if the
    /// caller has to wait until the connection is established.
    pub fn send(&mut self, socket_id: SocketId, data: &[u8]) -> (result: Result<
        Option<usize>,
        TcpLayerError,
    >)
        requires
            old(self).wf(),
        ensures
            final(self).wf(),
            match old(self).serves(socket_id) {
                Err(e) => result == Err::<Option<usize>, TcpLayerError>(e) && *final(self) == *old(
                    self,
                ),
                Ok(()) => {
                    let pre = old(self).streams@[socket_id];
                    let post = final(self).streams@[socket_id];
                    &&& old(self).changes_only(*final(self), socket_id)
                    &&& post.internal == pre.internal
                    &&& post.recv_buffer == pre.recv_buffer
                    &&& match result {
                        Ok(written) => pre.send_buffer.writes(post.send_buffer, data@, Ok(written)),
                        Err(TcpLayerError::Stream(e)) => pre.send_buffer.writes(
                            post.send_buffer,
                            data@,
                            Err(e),
                        ),
                        Err(_) => false,
                    }
                },
            },
    {
        match self.streams.get(&socket_id) {
            Some(stream) => {
                if stream.state() == TcpStreamState::Listen {
                    return Err(TcpLayerError::ListenerSocket);
                }
            },
            None => return Err(TcpLayerError::UnknownSocket(socket_id)),
        }
        let mut stream = self.streams.remove(&socket_id).unwrap();
        let result = stream.send(data);
        self.streams.insert(socket_id, stream);
        assert(self.streams@ =~= old(self).streams@.insert(socket_id, self.streams@[socket_id]));
        match result {
            Ok(written) => Ok(written),
            Err(e) => Err(TcpLayerError::Stream(e)),
        }
    }

    /// Reads up to `num_bytes` bytes from a socket without waiting for more, and tells the window
    /// size to advertise from now on, if it changed.
    pub fn recv(&mut self, socket_id: SocketId, num_bytes: usize) -> (result: Result<
        (Vec<u8>, Option<StreamSendThreadMsg>),
        TcpLayerError,
    >)
        requires
            old(self).wf(),
            old(self).serves(socket_id) is Ok ==> old(self).streams@[socket_id].recv_buffer.win is Some,
        ensures
            final(self).wf(),
            match old(self).serves(socket_id) {
                Err(e) => result == Err::<(Vec<u8>, Option<StreamSendThreadMsg>), TcpLayerError>(e)
                    && *final(self) == *old(self),
                Ok(()) => {
                    let pre = old(self).streams@[socket_id];
                    let post = final(self).streams@[socket_id];
                    let n = if num_bytes < pre.recv_buffer.buf@.len() {
                        num_bytes as int
                    } else {
                        pre.recv_buffer.buf@.len() as int
                    };
                    &&& old(self).changes_only(*final(self), socket_id)
                    &&& post.internal == pre.internal
                    &&& post.send_buffer == pre.send_buffer
                    &&& result matches Ok((data, msg))
                    &&& data@ == pre.recv_buffer.buf@.take(n)
                    &&& n == 0 ==> msg is None && post.recv_buffer == pre.recv_buffer
                    &&& n > 0 ==> pre.recv_buffer.reads(post.recv_buffer, n) && msg == Some(
                        StreamSendThreadMsg::UpdateWindowSize(
                            (post.recv_buffer.win->0).size() as u16,
                        ),
                    )
                },
            },
    {
        match self.streams.get(&socket_id) {
            Some(stream) => {
                if stream.state() == TcpStreamState::Listen {
                    return Err(TcpLayerError::ListenerSocket);
                }
            },
            None => return Err(TcpLayerError::UnknownSocket(socket_id)),
        }
        let mut stream = self.streams.remove(&socket_id).unwrap();
        let read = stream.recv(num_bytes);
        self.streams.insert(socket_id, stream);
        assert(self.streams@ =~= old(self).streams@.insert(socket_id, self.streams@[socket_id]));
        Ok(read)
    }

    /// Closes one side of a socket. Only the write side can be closed.
    pub fn shutdown(&mut self, socket_id: SocketId, shutdown_method: SocketSide, now: u64) -> (
        result: Result<CloseStep, TcpLayerError>)
        requires
            old(self).wf(),
            old(self).streams@.contains_key(socket_id) ==> shutdown_method == SocketSide::Write,
        ensures
            final(self).wf(),
            old(self).closes(*final(self), socket_id, now, result),
    {
        self.close(socket_id, now)
    }

    /// `post` is this layer after a request to close socket `id`, and `result` is what came of it.
    pub open spec fn closes(
        self,
        post: TcpLayer,
        id: SocketId,
        now: u64,
        result: Result<CloseStep, TcpLayerError>,
    ) -> bool {
        if !self.streams@.contains_key(id) {
            &&& result == Err::<CloseStep, TcpLayerError>(TcpLayerError::UnknownSocket(id))
            &&& post == self
        } else {
            &&& self.changes_only(post, id)
            &&& match result {
                Ok(step) => self.streams@[id].closes(post.streams@[id], now, Ok(step)),
                Err(TcpLayerError::Stream(e)) => self.streams@[id].closes(
                    post.streams@[id],
                    now,
                    Err(e),
                ),
                Err(_) => false,
            }
        }
    }

    /// This is v_close, not CLOSE in RFC
    pub fn close(&mut self, socket_id: SocketId, now: u64) -> (result: Result<
        CloseStep,
        TcpLayerError,
    >)
        requires
            old(self).wf(),
        ensures
            final(self).wf(),
            old(self).closes(*final(self), socket_id, now, result),
    {
        if !self.streams.contains_key(&socket_id) {
            return Err(TcpLayerError::UnknownSocket(socket_id));
        }
        let mut stream = self.streams.remove(&socket_id).unwrap();
        let result = stream.close(now);
        self.streams.insert(socket_id, stream);
        assert(self.streams@ =~= old(self).streams@.insert(socket_id, self.streams@[socket_id]));
        match result {
            Ok(step) => Ok(step),
            Err(e) => Err(TcpLayerError::Stream(e)),
        }
    }

    /// Opens a socket that connects to a peer from a port that is picked for it. The send thread of
    /// its send buffer has to be woken up.
    pub fn connect(
        &mut self,
        source_ip: Ipv4Addr,
        destination_ip: Ipv4Addr,
        destination_port: Port,
        congestion_control: CongestionControlStrategy,
        now: u64,
    ) -> (id: SocketId)
        requires
            old(self).wf(),
            START_PORT + old(self).sockets_and_ports.used_ports@.len() <= 65535,
            old(self).sockets_and_ports.next_socket_id < usize::MAX,
        ensures
            final(self).wf(),
            id == old(self).sockets_and_ports.next_socket_id,
            final(self).sockets_and_ports.next_socket_id == id + 1,
            final(self).streams@ == old(self).streams@.insert(id, final(self).streams@[id]),
            ({
                let stream = final(self).streams@[id];
                &&& stream.internal == (TcpStreamInternal {
                    source_ip: Some(source_ip),
                    source_port: stream.internal.source_port,
                    destination_ip: Some(destination_ip),
                    destination_port: Some(destination_port),
                    initial_sequence_number: 0,
                    initial_ack: None,
                    last_ack: None,
                    last_window_size: MAX_WINDOW_SIZE as u16,
                    next_seq: 1,
                    state: TcpStreamState::SynSent,
                    socket_id: id,
                })
                &&& stream.recv_buffer.win is None
                &&& stream.has_queued_syn(congestion_control, now)
                &&& final(self).sockets_and_ports.used_ports@ == old(
                    self,
                ).sockets_and_ports.used_ports@.insert(stream.internal.source_port)
                &&& exists|ports: Seq<Port>|
                    {
                        &&& #[trigger] lists_ports(ports, old(self).sockets_and_ports.used_ports@)
                        &&& picks_port(ports, stream.internal.source_port)
                    }
            }),
    {
        let source_port: Port = self.sockets_and_ports.get_new_port();
        let socket_id: SocketId = self.sockets_and_ports.get_new_socket();
        let stream = TcpStream::connect(
            source_ip,
            source_port,
            destination_ip,
            destination_port,
            socket_id,
            congestion_control,
            now,
        );
        self.streams.insert(socket_id, stream);
        assert(self.streams@ =~= old(self).streams@.insert(socket_id, self.streams@[socket_id]));
        socket_id
    }

    /// Opens a socket that waits for a peer to connect to a port.
    pub fn listen(&mut self, port: Port) -> (result: Result<SocketId, TcpLayerError>)
        requires
            old(self).wf(),
            old(self).sockets_and_ports.next_socket_id < usize::MAX,
        ensures
            final(self).wf(),
            if old(self).sockets_and_ports.used_ports@.contains(port) {
                &&& result == Err::<SocketId, TcpLayerError>(TcpLayerError::PortInUse(port))
                &&& final(self).streams == old(self).streams
                &&& final(self).sockets_and_ports.used_ports@ == old(
                    self,
                ).sockets_and_ports.used_ports@
                &&& final(self).sockets_and_ports.next_socket_id == old(
                    self,
                ).sockets_and_ports.next_socket_id
            } else {
                let id = old(self).sockets_and_ports.next_socket_id;
                let stream = final(self).streams@[id];
                &&& result == Ok::<SocketId, TcpLayerError>(id)
                &&& final(self).sockets_and_ports.next_socket_id == id + 1
                &&& final(self).sockets_and_ports.used_ports@ == old(
                    self,
                ).sockets_and_ports.used_ports@.insert(port)
                &&& final(self).streams@ == old(self).streams@.insert(id, stream)
                &&& stream.internal == (TcpStreamInternal {
                    source_ip: None,
                    source_port: port,
                    destination_ip: None,
                    destination_port: None,
                    initial_sequence_number: 0,
                    initial_ack: None,
                    last_ack: None,
                    last_window_size: MAX_WINDOW_SIZE as u16,
                    next_seq: 1,
                    state: TcpStreamState::Listen,
                    socket_id: id,
                })
                &&& stream.recv_buffer.win is None
                &&& stream.send_buffer.is_new(0, CongestionControlStrategy::No)
            },
    {
        if self.sockets_and_ports.contains_port(port) {
            return Err(TcpLayerError::PortInUse(port));
        }
        let _ = self.sockets_and_ports.add_port(port);
        let socket_id: SocketId = self.sockets_and_ports.get_new_socket();
        let stream = TcpStream::listen(port, socket_id);
        self.streams.insert(socket_id, stream);
        assert(self.streams@ =~= old(self).streams@.insert(socket_id, self.streams@[socket_id]));
        Ok(socket_id)
    }

    /// Forgets a socket and frees its port.
    pub fn cleanup(&mut self, socket_id: SocketId)
        requires
            old(self).wf(),
        ensures
            final(self).wf(),
            final(self).streams@ == old(self).streams@.remove(socket_id),
            final(self).sockets_and_ports.next_socket_id == old(
                self,
            ).sockets_and_ports.next_socket_id,
            final(self).sockets_and_ports.used_ports@ == if old(self).streams@.contains_key(
                socket_id,
            ) {
                old(self).sockets_and_ports.used_ports@.remove(
                    old(self).streams@[socket_id].internal.source_port,
                )
            } else {
                old(self).sockets_and_ports.used_ports@
            },
    {
        if let Some(stream) = self.streams.remove(&socket_id) {
            let _ = self.sockets_and_ports.remove_port(stream.source_port());
        }
        assert(self.streams@ =~= old(self).streams@.remove(socket_id));
    }

    /// The sockets in order of their ids.
    pub fn sockets(&self) -> (sockets: Vec<SocketInfo>)
        requires
            self.wf(),
        ensures
            exists|ids: Seq<SocketId>|
                {
                    &&& #[trigger] lists_ids(ids, self.streams@.dom())
                    &&& sockets@ == Seq::new(
                        ids.len(),
                        |i: int|
                            SocketInfo {
                                socket_id: ids[i],
                                internal: self.streams@[ids[i]].internal,
                            },
                    )
                },
    {
        let ids: Vec<SocketId> = sorted_ids(&self.streams);
        let ghost all = Seq::new(
            ids@.len(),
            |i: int|
                SocketInfo { socket_id: ids@[i], internal: self.streams@[ids@[i]].internal },
        );
        let mut sockets: Vec<SocketInfo> = Vec::new();
        let mut i: usize = 0;
        while i < ids.len()
            invariant
                i <= ids@.len(),
                lists_ids(ids@, self.streams@.dom()),
                all == Seq::new(
                    ids@.len(),
                    |i: int|
                        SocketInfo {
                            socket_id: ids@[i],
                            internal: self.streams@[ids@[i]].internal,
                        },
                ),
                sockets@ == all.take(i as int),
            decreases ids@.len() - i,
        {
            let id: SocketId = ids[i];
            assert(ids@.contains(id));
            assert(self.streams@.dom().contains(id));
            let internal = self.streams.get(&id).unwrap().internal;
            sockets.push(SocketInfo { socket_id: id, internal });
            assert(sockets@ =~= all.take(i + 1));
            i += 1;
        }
        assert(sockets@ =~= all);
        sockets
    }

    /// The window sizes of a socket: ours, theirs and that for sending. None before a peer is known.
    pub fn window(&self, socket_id: SocketId) -> (result: Result<
        Option<(u16, u16, u16)>,
        TcpLayerError,
    >)
        requires
            self.wf(),
        ensures
            if self.streams@.contains_key(socket_id) {
                result matches Ok(sizes) && self.streams@[socket_id].has_windows(sizes)
            } else {
                result == Err::<Option<(u16, u16, u16)>, TcpLayerError>(
                    TcpLayerError::UnknownSocket(socket_id),
                )
            },
    {
        match self.streams.get(&socket_id) {
            Some(stream) => Ok(stream.window_size()),
            None => Err(TcpLayerError::UnknownSocket(socket_id)),
        }
    }
}

impl TcpLayer {
    /// Hands a packet to the stream that it is for, see `TcpStream::process`.
    pub fn process(
        &mut self,
        socket_id: SocketId,
        packet: IpTcpPacket,
        reply_sent: bool,
        now: u64,
    ) -> (outcome: ProcessOutcome)
        requires
            old(self).wf(),
            old(self).streams@.contains_key(socket_id),
            packet.2@.len() <= u32::MAX - TCP_BUF_SIZE,
            old(self).streams@[socket_id].takes_ack(packet.1, reply_sent) ==> old(
                self,
            ).streams@[socket_id].send_buffer.window.can_count(packet.1.acknowledgment_number),
        ensures
            final(self).wf(),
            old(self).changes_only(*final(self), socket_id),
            old(self).streams@[socket_id].processes(
                final(self).streams@[socket_id],
                packet.0,
                packet.1,
                packet.2@,
                reply_sent,
                now,
                outcome,
            ),
    {
        let mut stream = self.streams.remove(&socket_id).unwrap();
        let outcome = stream.process(packet, reply_sent, now);
        self.streams.insert(socket_id, stream);
        assert(self.streams@ =~= old(self).streams@.insert(socket_id, self.streams@[socket_id]));
        outcome
    }
}

/// A packet of a connection that we are an end of never goes to a stream that waits for a peer.
pub proof fn law_connections_come_first(
    layer: TcpLayer,
    ip: Ipv4Header,
    tcp: TcpHeader,
    connected: SocketId,
    id: SocketId,
)
    requires
        layer.streams@.contains_key(connected),
        is_exact_match(layer.streams@[connected], ip, tcp),
        layer.goes_to(ip, tcp, id),
    ensures
        is_exact_match(layer.streams@[id], ip, tcp),
        id <= connected,
{
}

/// A packet goes only to a stream on the port that it is for: a listener gets what comes for its
/// own port, and nothing else.
pub proof fn law_packets_keep_to_their_port(
    layer: TcpLayer,
    ip: Ipv4Header,
    tcp: TcpHeader,
    id: SocketId,
)
    requires
        layer.goes_to(ip, tcp, id),
    ensures
        layer.streams@[id].internal.source_port == tcp.destination_port,
{
}

/// The only listener on a port gets every packet for that port that belongs to no connection, and
/// no other stream gets it.
pub proof fn law_listener_gets_what_comes_for_its_port(
    layer: TcpLayer,
    ip: Ipv4Header,
    tcp: TcpHeader,
    listener: SocketId,
)
    requires
        layer.streams@.contains_key(listener),
        awaits(layer.streams@[listener], tcp),
        forall|other: SocketId| #[trigger]
            layer.streams@.contains_key(other) ==> {
                &&& !is_exact_match(layer.streams@[other], ip, tcp)
                &&& other != listener ==> !awaits(layer.streams@[other], tcp)
            },
    ensures
        forall|id: SocketId| #[trigger] layer.goes_to(ip, tcp, id) <==> id == listener,
{
    assert forall|id: SocketId| #[trigger] layer.goes_to(ip, tcp, id) implies id == listener by {
        if id != listener {
            assert(layer.streams@.contains_key(id));
        }
    }
}

/// A packet of a connection goes to an end of that connection, the one with the lowest socket if
/// there are several, whatever else there is.
pub proof fn law_connections_get_their_packets(
    layer: &TcpLayer,
    ip: &Ipv4Header,
    tcp: &TcpHeader,
    id: Option<SocketId>,
    connected: SocketId,
)
    requires
        layer.wf(),
        layer.streams@.contains_key(connected),
        ({
            let internal = layer.streams@[connected].internal;
            &&& internal.source_port == tcp.destination_port
            &&& internal.source_ip == Some(ip.destination)
            &&& internal.destination_ip == Some(ip.source)
            &&& internal.destination_port == Some(tcp.source_port)
        }),
        call_ensures(TcpLayer::dispatch, (layer, ip, tcp), id),
    ensures
        id is Some,
        id->0 <= connected,
        layer.streams@.contains_key(id->0),
        ({
            let internal = layer.streams@[id->0].internal;
            &&& internal.source_port == tcp.destination_port
            &&& internal.source_ip == Some(ip.destination)
            &&& internal.destination_ip == Some(ip.source)
            &&& internal.destination_port == Some(tcp.source_port)
        }),
{
    assert(layer.dispatches(*ip, *tcp, id));
}

/// A packet that belongs to no connection goes to a stream that waits on the packet's port for a
/// peer, the one with the highest socket if there are several.
pub proof fn law_listeners_get_the_rest(
    layer: &TcpLayer,
    ip: &Ipv4Header,
    tcp: &TcpHeader,
    id: Option<SocketId>,
    listener: SocketId,
)
    requires
        layer.wf(),
        layer.streams@.contains_key(listener),
        layer.streams@[listener].internal.source_port == tcp.destination_port,
        layer.streams@[listener].internal.destination_ip is None,
        forall|other: SocketId| #[trigger]
            layer.streams@.contains_key(other) ==> {
                let internal = layer.streams@[other].internal;
                ||| internal.source_port != tcp.destination_port
                ||| internal.source_ip != Some(ip.destination)
                ||| internal.destination_ip != Some(ip.source)
                ||| internal.destination_port != Some(tcp.source_port)
            },
        call_ensures(TcpLayer::dispatch, (layer, ip, tcp), id),
    ensures
        id is Some,
        listener <= id->0,
        layer.streams@.contains_key(id->0),
        layer.streams@[id->0].internal.source_port == tcp.destination_port,
        layer.streams@[id->0].internal.destination_ip is None || layer.streams@[
            id->0
        ].internal.destination_port is None,
{
    assert(layer.dispatches(*ip, *tcp, id));
}

/// A packet goes to no stream only if none is on its port that waits for a peer or has the packet's
/// ends for its own.
pub proof fn law_only_strays_are_dropped(
    layer: &TcpLayer,
    ip: &Ipv4Header,
    tcp: &TcpHeader,
    id: Option<SocketId>,
    other: SocketId,
)
    requires
        layer.wf(),
        call_ensures(TcpLayer::dispatch, (layer, ip, tcp), id),
        layer.streams@.contains_key(other),
        layer.streams@[other].internal.source_port == tcp.destination_port,
    ensures
        id is None ==> {
            let internal = layer.streams@[other].internal;
            &&& internal.destination_ip is Some
            &&& internal.destination_port is Some
            &&& internal.source_ip != Some(ip.destination) || internal.destination_ip != Some(
                ip.source,
            ) || internal.destination_port != Some(tcp.source_port)
        },
        id is Some ==> layer.streams@[id->0].internal.source_port == tcp.destination_port,
{
    assert(layer.dispatches(*ip, *tcp, id));
}

/// Listening on a port that is not used opens a socket that no other one had, which waits on that
/// port for a peer. A port that is used is refused, and nothing changes.
pub proof fn law_listening(layer: &mut TcpLayer, port: Port, result: Result<SocketId, TcpLayerError>)
    requires
        old(layer).wf(),
        call_ensures(TcpLayer::listen, (layer, port), result),
    ensures
        old(layer).sockets_and_ports.used_ports@.contains(port) ==> {
            &&& result == Err::<SocketId, TcpLayerError>(TcpLayerError::PortInUse(port))
            &&& final(layer).streams@ == old(layer).streams@
            &&& final(layer).sockets_and_ports.used_ports@ == old(layer).sockets_and_ports.used_ports@
        },
        !old(layer).sockets_and_ports.used_ports@.contains(port) ==> {
            let id = result->Ok_0;
            let stream = final(layer).streams@[id];
            &&& result is Ok
            &&& !old(layer).streams@.contains_key(id)
            &&& final(layer).streams@.contains_key(id)
            &&& forall|other: SocketId|
                other != id ==> (#[trigger] final(layer).streams@.contains_key(other) <==> old(layer).streams@.contains_key(other)) && final(layer).streams@[other] == old(layer).streams@[other]
            &&& final(layer).sockets_and_ports.used_ports@.contains(port)
            &&& stream.internal.state == TcpStreamState::Listen
            &&& stream.internal.source_port == port
            &&& stream.internal.destination_ip is None
            &&& stream.internal.destination_port is None
            &&& stream.internal.next_seq == stream.internal.initial_sequence_number.wrapping_add(1)
            &&& stream.internal.last_window_size == 65535
        },
{
}

/// Connecting opens a socket that no other one had, from a port of 10000 or above that counts as
/// used from then on, to the peer that was named.
pub proof fn law_connecting(
    layer: &mut TcpLayer,
    source_ip: Ipv4Addr,
    destination_ip: Ipv4Addr,
    destination_port: Port,
    congestion_control: CongestionControlStrategy,
    now: u64,
    id: SocketId,
)
    requires
        old(layer).wf(),
        call_ensures(
            TcpLayer::connect,
            (layer, source_ip, destination_ip, destination_port, congestion_control, now),
            id,
        ),
    ensures
        !old(layer).streams@.contains_key(id),
        final(layer).streams@.contains_key(id),
        forall|other: SocketId|
            other != id ==> (#[trigger] final(layer).streams@.contains_key(other) <==> old(layer).streams@.contains_key(other)) && final(layer).streams@[other] == old(layer).streams@[other],
        ({
            let internal = final(layer).streams@[id].internal;
            &&& internal.state == TcpStreamState::SynSent
            &&& internal.source_ip == Some(source_ip)
            &&& internal.destination_ip == Some(destination_ip)
            &&& internal.destination_port == Some(destination_port)
            &&& internal.source_port >= 10000
            &&& internal.next_seq == internal.initial_sequence_number.wrapping_add(1)
            &&& internal.last_window_size == 65535
            &&& final(layer).sockets_and_ports.used_ports@ == old(layer).sockets_and_ports.used_ports@.insert(internal.source_port)
        }),
{
}

/// Ports are picked from 10000 on, one past as many as are used at most: the first is 10000, and as
/// long as those used follow each other from there, so does the next.
pub proof fn law_ports_are_picked_densely(ports: Seq<Port>, port: Port)
    requires
        picks_port(ports, port),
    ensures
        10000 <= port <= 10000 + ports.len(),
        (forall|i: int| 0 <= i < ports.len() ==> #[trigger] ports[i] == 10000 + i) ==> port == 10000
            + ports.len(),
{
    if forall|i: int| 0 <= i < ports.len() ==> #[trigger] ports[i] == 10000 + i {
        assert forall|i: int| !#[trigger] gap_before(ports, i) by {}
    }
}

/// A socket that is forgotten is gone, its port can be used again, and no other socket changes.
pub proof fn law_forgetting(layer: &mut TcpLayer, id: SocketId)
    requires
        old(layer).wf(),
        call_ensures(TcpLayer::cleanup, (layer, id), ()),
    ensures
        !final(layer).streams@.contains_key(id),
        forall|other: SocketId|
            other != id ==> (#[trigger] final(layer).streams@.contains_key(other) <==> old(layer).streams@.contains_key(other)) && final(layer).streams@[other] == old(layer).streams@[other],
        old(layer).streams@.contains_key(id) ==> !final(layer).sockets_and_ports.used_ports@.contains(old(layer).streams@[id].internal.source_port),
        forall|port: Port|
            port != old(layer).streams@[id].internal.source_port ==> (#[trigger] final(layer).sockets_and_ports.used_ports@.contains(port) <==> old(layer).sockets_and_ports.used_ports@.contains(port)),
{
}

/// Sending on a socket writes to its stream and changes nothing else. An unknown socket and a
/// listener are refused.
pub proof fn law_sending(
    layer: &mut TcpLayer,
    id: SocketId,
    data: &[u8],
    result: Result<Option<usize>, TcpLayerError>,
)
    requires
        old(layer).wf(),
        call_ensures(TcpLayer::send, (layer, id, data), result),
    ensures
        forall|other: SocketId|
            (#[trigger] final(layer).streams@.contains_key(other) <==> old(layer).streams@.contains_key(other)) && (other != id ==> final(layer).streams@[other]
                == old(layer).streams@[other]),
        !old(layer).streams@.contains_key(id) ==> result == Err::<Option<usize>, TcpLayerError>(
            TcpLayerError::UnknownSocket(id),
        ),
        old(layer).streams@.contains_key(id) ==> {
            let pre = old(layer).streams@[id];
            let post = final(layer).streams@[id];
            let written = post.send_buffer.buf.data@.len() - pre.send_buffer.buf.data@.len();
            &&& pre.internal.state == TcpStreamState::Listen ==> result == Err::<
                Option<usize>,
                TcpLayerError,
            >(TcpLayerError::ListenerSocket)
            &&& pre.internal.state != TcpStreamState::Listen && (pre.send_buffer.state
                == SendBufferState::Ready || pre.send_buffer.state == SendBufferState::Queueing)
                ==> {
                &&& result == Ok::<Option<usize>, TcpLayerError>(Some(written as usize))
                &&& post.send_buffer.buf.data@ == pre.send_buffer.buf.data@ + data@.take(written)
                &&& 0 <= written
                &&& written == data@.len() || post.send_buffer.buf.data@.len() == 65535
            }
        },
{
}

/// Reading from a socket gives its stream's first readable bytes, and changes nothing else. An
/// unknown socket and a listener are refused.
pub proof fn law_receiving(
    layer: &mut TcpLayer,
    id: SocketId,
    num_bytes: usize,
    result: Result<(Vec<u8>, Option<StreamSendThreadMsg>), TcpLayerError>,
)
    requires
        old(layer).wf(),
        call_ensures(TcpLayer::recv, (layer, id, num_bytes), result),
    ensures
        forall|other: SocketId|
            (#[trigger] final(layer).streams@.contains_key(other) <==> old(layer).streams@.contains_key(other)) && (other != id ==> final(layer).streams@[other]
                == old(layer).streams@[other]),
        !old(layer).streams@.contains_key(id) ==> result == Err::<
            (Vec<u8>, Option<StreamSendThreadMsg>),
            TcpLayerError,
        >(TcpLayerError::UnknownSocket(id)),
        old(layer).streams@.contains_key(id) ==> {
            let before = old(layer).streams@[id].recv_buffer.buf@;
            let after = final(layer).streams@[id].recv_buffer.buf@;
            let read = (result->Ok_0).0@;
            &&& old(layer).streams@[id].internal.state == TcpStreamState::Listen ==> result == Err::<
                (Vec<u8>, Option<StreamSendThreadMsg>),
                TcpLayerError,
            >(TcpLayerError::ListenerSocket)
            &&& old(layer).streams@[id].internal.state != TcpStreamState::Listen ==> {
                &&& result is Ok
                &&& read + after == before
                &&& read.len() == num_bytes || (read.len() < num_bytes && after.len() == 0)
            }
        },
{
    if old(layer).streams@.contains_key(id) && old(layer).streams@[id].internal.state
        != TcpStreamState::Listen {
        let before = old(layer).streams@[id].recv_buffer.buf@;
        let after = final(layer).streams@[id].recv_buffer.buf@;
        assert((result->Ok_0).0@ + after =~= before);
    }
}

/// The list of sockets has every socket once, in order, with the state of its stream.
pub proof fn law_sockets_are_listed(layer: &TcpLayer, sockets: Vec<SocketInfo>)
    requires
        layer.wf(),
        call_ensures(TcpLayer::sockets, (layer,), sockets),
    ensures
        forall|i: int, j: int|
            0 <= i < j < sockets@.len() ==> (#[trigger] sockets@[i]).socket_id < (
            #[trigger] sockets@[j]).socket_id,
        forall|i: int|
            0 <= i < sockets@.len() ==> layer.streams@.contains_key(
                (#[trigger] sockets@[i]).socket_id,
            ) && sockets@[i].internal == layer.streams@[sockets@[i].socket_id].internal,
        forall|id: SocketId| #[trigger]
            layer.streams@.contains_key(id) ==> exists|i: int|
                0 <= i < sockets@.len() && (#[trigger] sockets@[i]).socket_id == id,
{
    let ids = choose|ids: Seq<SocketId>|
        {
            &&& #[trigger] lists_ids(ids, layer.streams@.dom())
            &&& sockets@ == Seq::new(
                ids.len(),
                |i: int|
                    SocketInfo { socket_id: ids[i], internal: layer.streams@[ids[i]].internal },
            )
        };
    assert forall|i: int| 0 <= i < sockets@.len() implies layer.streams@.contains_key(
        (#[trigger] sockets@[i]).socket_id,
    ) && sockets@[i].internal == layer.streams@[sockets@[i].socket_id].internal by {
        assert(ids.contains(ids[i]));
        assert(layer.streams@.dom().contains(ids[i]));
    }
    assert forall|i: int, j: int| 0 <= i < j < sockets@.len() implies (
    #[trigger] sockets@[i]).socket_id < (#[trigger] sockets@[j]).socket_id by {
        assert(ids[i] < ids[j]);
    }
    assert forall|id: SocketId| #[trigger] layer.streams@.contains_key(id) implies exists|i: int|
        0 <= i < sockets@.len() && (#[trigger] sockets@[i]).socket_id == id by {
        assert(layer.streams@.dom().contains(id));
        assert(ids.contains(id));
        let i = choose|i: int| 0 <= i < ids.len() && ids[i] == id;
        assert(sockets@[i].socket_id == id);
    }
}

/// A packet changes the stream that it is handed to, as it would alone, and no other socket.
pub proof fn law_packets_change_one_stream(
    layer: &mut TcpLayer,
    id: SocketId,
    packet: IpTcpPacket,
    reply_sent: bool,
    now: u64,
    outcome: ProcessOutcome,
)
    requires
        old(layer).wf(),
        call_ensures(TcpLayer::process, (layer, id, packet, reply_sent, now), outcome),
    ensures
        old(layer).streams@[id].processes(
            final(layer).streams@[id],
            packet.0,
            packet.1,
            packet.2@,
            reply_sent,
            now,
            outcome,
        ),
        forall|other: SocketId|
            (#[trigger] final(layer).streams@.contains_key(other) <==> old(layer).streams@.contains_key(other)) && (other != id ==> final(layer).streams@[other]
                == old(layer).streams@[other]),
        final(layer).sockets_and_ports == old(layer).sockets_and_ports,
{
}

/// Closing a socket closes its stream, as it would alone, and no other. An unknown one is refused.
pub proof fn law_closing_a_socket(
    layer: &mut TcpLayer,
    id: SocketId,
    now: u64,
    result: Result<CloseStep, TcpLayerError>,
)
    requires
        old(layer).wf(),
        call_ensures(TcpLayer::close, (layer, id, now), result) || call_ensures(
            TcpLayer::shutdown,
            (layer, id, SocketSide::Write, now),
            result,
        ),
    ensures
        !old(layer).streams@.contains_key(id) ==> result == Err::<CloseStep, TcpLayerError>(
            TcpLayerError::UnknownSocket(id),
        ),
        forall|other: SocketId|
            (#[trigger] final(layer).streams@.contains_key(other) <==> old(layer).streams@.contains_key(other)) && (other != id ==> final(layer).streams@[other]
                == old(layer).streams@[other]),
        old(layer).streams@.contains_key(id) ==> match result {
            Ok(step) => old(layer).streams@[id].closes(final(layer).streams@[id], now, Ok(step)),
            Err(TcpLayerError::Stream(e)) => old(layer).streams@[id].closes(
                final(layer).streams@[id],
                now,
                Err(e),
            ),
            Err(_) => false,
        },
{
}

/// The windows of a socket are those of its stream; an unknown socket is refused.
pub proof fn law_windows_of_a_socket(
    layer: &TcpLayer,
    id: SocketId,
    result: Result<Option<(u16, u16, u16)>, TcpLayerError>,
)
    requires
        layer.wf(),
        call_ensures(TcpLayer::window, (layer, id), result),
    ensures
        !layer.streams@.contains_key(id) ==> result == Err::<
            Option<(u16, u16, u16)>,
            TcpLayerError,
        >(TcpLayerError::UnknownSocket(id)),
        layer.streams@.contains_key(id) ==> {
            let stream = layer.streams@[id];
            let sizes = result->Ok_0;
            &&& result is Ok
            &&& sizes is Some <==> stream.recv_buffer.win is Some
            &&& sizes is Some ==> {
                &&& (sizes->0).0 == 65535 - stream.recv_buffer.buf@.len()
                &&& (sizes->0).1 == stream.send_buffer.window.recv_window_size
            }
        },
{
}

} // verus!
