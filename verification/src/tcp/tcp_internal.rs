//! The state of a stream apart from its buffers, and the packets that it sends.

use vstd::prelude::*;

use super::socket::SocketId;
use super::tcp_header::{
    build_tcp_packet, checksum_of_segment, tcp_packet, TcpHeader,
};
use super::{
    Port, TcpStreamState, VALID_ACK_STATES, VALID_FIN_STATES, VALID_SEND_STATES, VALID_SYN_STATES,
};
use crate::ip::ip_packet::{IpPacket, PacketParts};
use crate::ip::Ipv4Addr;

verus! {

/// An address and a port.
#[derive(Debug, Clone, Copy, PartialEq, Eq, Structural)]
pub struct SocketAddr {
    pub ip: Ipv4Addr,
    pub port: Port,
}

#[derive(Debug, Clone, Copy, PartialEq, Eq, Structural)]
pub struct TcpStreamInternal {
    pub source_ip: Option<Ipv4Addr>,
    /// Constant properties of the stream
    pub source_port: u16,
    /// This should only be none if we are in the LISTEN state
    pub destination_ip: Option<Ipv4Addr>,
    pub destination_port: Option<u16>,
    pub initial_sequence_number: u32,
    /// This is set equal to the initial_sequence_number of the other node + 1
    pub initial_ack: Option<u32>,
    /// Used to set sequence number on acks and ack number of data packets
    pub last_ack: Option<u32>,
    /// Last window size
    pub last_window_size: u16,
    pub next_seq: u32,
    /// state
    pub state: TcpStreamState,
    pub socket_id: SocketId,
}

/// Helper function for validates valid state transitions
pub fn debug_assert_state_valid(
    curr_state: &TcpStreamState,
    valid_states: &[TcpStreamState],
) -> (valid: bool)
    ensures
        valid == valid_states@.contains(*curr_state),
{
    let mut i: usize = 0;
    while i < valid_states.len()
        invariant
            i <= valid_states@.len(),
            forall|k: int| 0 <= k < i ==> #[trigger] valid_states@[k] != *curr_state,
        decreases valid_states@.len() - i,
    {
        if valid_states[i] == *curr_state {
            assert(valid_states@[i as int] == *curr_state);
            return true;
        }
        i += 1;
    }
    false
}

impl TcpStreamInternal {
    /// Whether both ends of the stream are known.
    pub open spec fn connected(self) -> bool {
        self.source_ip is Some && self.destination_ip is Some && self.destination_port is Some
    }

    /// The header that all segments of the stream start from.
    pub open spec fn default_header(self) -> TcpHeader {
        TcpHeader {
            source_port: self.source_port,
            destination_port: self.destination_port->0,
            sequence_number: self.initial_sequence_number,
            acknowledgment_number: 0,
            fin: false,
            syn: false,
            ack: false,
            window_size: self.last_window_size,
            checksum: 0,
        }
    }

    /// The packet that carries `header` and `data` to the other end, with the checksum filled in.
    pub open spec fn packet(self, header: TcpHeader, data: Seq<u8>) -> PacketParts {
        let source = self.source_ip->0;
        let destination = self.destination_ip->0;
        tcp_packet(source, destination, header.with_checksum(source, destination, data), data)
    }

    pub open spec fn syn_packet(self) -> PacketParts {
        self.packet(TcpHeader { syn: true, ..self.default_header() }, Seq::empty())
    }

    pub open spec fn syn_ack_packet(self) -> PacketParts {
        self.packet(
            TcpHeader {
                syn: true,
                ack: true,
                acknowledgment_number: self.initial_ack->0,
                ..self.default_header()
            },
            Seq::empty(),
        )
    }

    pub open spec fn ack_packet(self, ack: u32) -> PacketParts {
        self.packet(
            TcpHeader {
                ack: true,
                sequence_number: self.next_seq,
                acknowledgment_number: ack,
                ..self.default_header()
            },
            Seq::empty(),
        )
    }

    pub open spec fn fin_packet(self, seq_num: u32) -> PacketParts {
        self.packet(
            TcpHeader { fin: true, sequence_number: seq_num, ..self.default_header() },
            Seq::empty(),
        )
    }

    pub open spec fn data_packet(self, seq_num: u32, data: Seq<u8>) -> PacketParts {
        self.packet(
            TcpHeader {
                ack: true,
                sequence_number: seq_num,
                acknowledgment_number: self.last_ack->0,
                ..self.default_header()
            },
            data,
        )
    }

    /// Whether an ack can be sent: the states in which data or a fin can come in.
    pub open spec fn can_ack(self) -> bool {
        VALID_ACK_STATES@.contains(self.state) || self.state == TcpStreamState::Closing
            || self.state == TcpStreamState::LastAck
    }

    pub fn send_syn(&self) -> (packet: IpPacket)
        requires
            VALID_SYN_STATES@.contains(self.state),
            self.connected(),
        ensures
            packet@ == self.syn_packet(),
            packet@.wf(),
    {
        let mut msg = self.make_default_tcp_header();
        msg.syn = true;
        msg.sequence_number = self.initial_sequence_number;
        let no_data: [u8; 0] = [];
        assert(no_data@ =~= Seq::<u8>::empty());
        self.send_tcp_packet(msg, no_data.as_slice())
    }

    pub fn send_syn_ack(&self) -> (packet: IpPacket)
        requires
            VALID_SYN_STATES@.contains(self.state),
            self.connected(),
            self.initial_ack is Some,
        ensures
            packet@ == self.syn_ack_packet(),
            packet@.wf(),
    {
        let mut msg = self.make_default_tcp_header();
        msg.syn = true;
        msg.ack = true;
        msg.sequence_number = self.initial_sequence_number;
        msg.acknowledgment_number = self.initial_ack.unwrap();
        let no_data: [u8; 0] = [];
        assert(no_data@ =~= Seq::<u8>::empty());
        self.send_tcp_packet(msg, no_data.as_slice())
    }

    pub fn send_ack(&self, ack: u32) -> (packet: IpPacket)
        requires
            self.can_ack(),
            self.connected(),
        ensures
            packet@ == self.ack_packet(ack),
            packet@.wf(),
    {
        let mut msg = self.make_default_tcp_header();
        msg.ack = true;
        msg.sequence_number = self.next_seq;
        msg.acknowledgment_number = ack;
        let no_data: [u8; 0] = [];
        assert(no_data@ =~= Seq::<u8>::empty());
        self.send_tcp_packet(msg, no_data.as_slice())
    }

    pub fn send_fin(&self, seq_num: u32) -> (packet: IpPacket)
        requires
            VALID_FIN_STATES@.contains(self.state),
            self.connected(),
        ensures
            packet@ == self.fin_packet(seq_num),
            packet@.wf(),
    {
        let mut msg = self.make_default_tcp_header();
        msg.fin = true;
        msg.sequence_number = seq_num;
        let no_data: [u8; 0] = [];
        assert(no_data@ =~= Seq::<u8>::empty());
        self.send_tcp_packet(msg, no_data.as_slice())
    }

    pub fn send_data(&self, seq_num: u32, data: Vec<u8>) -> (packet: IpPacket)
        requires
            VALID_SEND_STATES@.contains(self.state),
            self.connected(),
            self.last_ack is Some,
            40 + data@.len() <= 65535,
        ensures
            packet@ == self.data_packet(seq_num, data@),
            packet@.wf(),
    {
        let mut msg = self.make_default_tcp_header();
        msg.ack = true;
        msg.sequence_number = seq_num;
        msg.acknowledgment_number = self.last_ack.unwrap();
        self.send_tcp_packet(msg, data.as_slice())
    }

    /// Makes the packet for a segment, checksum and all.
    pub fn send_tcp_packet(&self, header: TcpHeader, data: &[u8]) -> (packet: IpPacket)
        requires
            self.source_ip is Some,
            self.destination_ip is Some,
            40 + data@.len() <= 65535,
        ensures
            packet@ == self.packet(header, data@),
            packet@.wf(),
    {
        let source: Ipv4Addr = self.source_ip.unwrap();
        let destination: Ipv4Addr = self.destination_ip.unwrap();
        let mut header = header;
        header.checksum = checksum_of_segment(source, destination, &header, data);
        build_tcp_packet(source, destination, &header, data)
    }

    pub fn make_default_tcp_header(&self) -> (header: TcpHeader)
        requires
            self.destination_port is Some,
        ensures
            header == self.default_header(),
    {
        TcpHeader::new(
            self.source_port,
            self.destination_port.unwrap(),
            self.initial_sequence_number,
            self.last_window_size,
        )
    }

    pub fn destination(&self) -> (destination: Option<SocketAddr>)
        ensures
            destination == match (self.destination_ip, self.destination_port) {
                (Some(ip), Some(port)) => Some(SocketAddr { ip, port }),
                _ => None,
            },
    {
        match (self.destination_ip, self.destination_port) {
            (Some(ip), Some(port)) => Some(SocketAddr { ip, port }),
            _ => None,
        }
    }

    pub fn source_ip(&self) -> (ip: Option<Ipv4Addr>)
        ensures
            ip == self.source_ip,
    {
        self.source_ip
    }

    pub fn source_port(&self) -> (port: Port)
        ensures
            port == self.source_port,
    {
        self.source_port
    }

    /// If destination_ip is None then we set both fields, otherwise the values were already set
    /// correctly
    pub fn set_destination_or_check(&mut self, destination_ip: Ipv4Addr, destination_port: Port)
        requires
            match old(self).destination_ip {
                Some(ip) => ip == destination_ip && old(self).destination_port == Some(
                    destination_port,
                ),
                None => old(self).destination_port is None,
            },
        ensures
            *final(self) == (TcpStreamInternal {
                destination_ip: Some(destination_ip),
                destination_port: Some(destination_port),
                ..*old(self)
            }),
    {
        match self.destination_ip {
            Some(_) => (),
            None => {
                self.destination_ip = Some(destination_ip);
                self.destination_port = Some(destination_port);
            },
        }
    }

    /// set initial_ack based on syn
    pub fn set_initial_ack(&mut self, ack: u32)
        ensures
            *final(self) == (TcpStreamInternal {
                initial_ack: Some(ack),
                last_ack: Some(ack),
                ..*old(self)
            }),
    {
        self.initial_ack = Some(ack);
        self.last_ack = Some(ack);
    }

    /// set source_ip based on syn
    pub fn set_source_ip(&mut self, source_ip: Ipv4Addr)
        ensures
            *final(self) == (TcpStreamInternal { source_ip: Some(source_ip), ..*old(self) }),
    {
        self.source_ip = Some(source_ip);
    }

    /// get stream state
    pub fn state(&self) -> (state: TcpStreamState)
        ensures
            state == self.state,
    {
        self.state
    }
}

} // verus!
