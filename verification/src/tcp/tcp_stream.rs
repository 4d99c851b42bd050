//! A stream: the TCP state machine around a receive and a send buffer.

use vstd::prelude::*;

use super::recv_buffer::{law_in_order_data_is_read_back, RecvBuffer};
use super::send_buffer::{
    first_due, CongestionControlStrategy, SendBuffer, SendBufferError, SendBufferState, SendStep,
    WindowElementType, MAX_RETRIES, MAX_TIME,
};
use super::socket::SocketId;
use super::tcp_header::{
    law_segment_round_trip, tcp_checksum, tcp_of, IpTcpPacket, Ipv4Header, TcpHeader,
};
use super::tcp_internal::{debug_assert_state_valid, SocketAddr, TcpStreamInternal};
use super::{
    Port, TcpStreamState, MAX_WINDOW_SIZE, TCP_BUF_SIZE, VALID_ACK_STATES, VALID_FIN_STATES,
    VALID_SEND_STATES, VALID_SYN_STATES,
};
use crate::ip::ip_packet::{IpPacket, PacketParts};
use crate::ip::Ipv4Addr;

verus! {

/// What the buffers ask the stream's send thread to do.
#[derive(Debug)]
pub enum StreamSendThreadMsg {
    Syn,
    /// sequence number, data
    Outgoing(u32, Vec<u8>),
    /// ack num and window size
    Ack(u32, u16),
    /// new window size after read
    UpdateWindowSize(u16),
    /// sequence number
    Fin(u32),
    /// Sent in the case the stream has shutdown (i.e. we've sent too many retries with no acks)
    Shutdown,
}

/// A `StreamSendThreadMsg` as a mathematical value.
pub enum SendThreadMsg {
    Syn,
    Outgoing(u32, Seq<u8>),
    Ack(u32, u16),
    UpdateWindowSize(u16),
    Fin(u32),
    Shutdown,
}

impl View for StreamSendThreadMsg {
    type V = SendThreadMsg;

    open spec fn view(&self) -> SendThreadMsg {
        match self {
            StreamSendThreadMsg::Syn => SendThreadMsg::Syn,
            StreamSendThreadMsg::Outgoing(seq, data) => SendThreadMsg::Outgoing(*seq, data@),
            StreamSendThreadMsg::Ack(ack, size) => SendThreadMsg::Ack(*ack, *size),
            StreamSendThreadMsg::UpdateWindowSize(size) => SendThreadMsg::UpdateWindowSize(*size),
            StreamSendThreadMsg::Fin(seq) => SendThreadMsg::Fin(*seq),
            StreamSendThreadMsg::Shutdown => SendThreadMsg::Shutdown,
        }
    }
}

pub open spec fn msgs_view(msgs: Seq<StreamSendThreadMsg>) -> Seq<SendThreadMsg> {
    msgs.map_values(|msg: StreamSendThreadMsg| msg@)
}

pub struct TcpStream {
    pub internal: TcpStreamInternal,
    /// data
    pub recv_buffer: RecvBuffer,
    pub send_buffer: SendBuffer,
}

/// What a packet did to a stream.
pub struct ProcessOutcome {
    /// What the send thread is to send because of the packet's data
    pub answer: Option<StreamSendThreadMsg>,
    /// Whether the send thread of the send buffer has to be woken up
    pub wake_send_thread: bool,
    /// Whether there may be something new to read
    pub notify_reader: bool,
    /// Round trip times that the packet's ack shows
    pub rtts: Vec<u64>,
    /// Whether the listen thread ends
    pub stopped: bool,
}

/// What the send thread does with a message.
pub struct SendThreadOutcome {
    /// What to hand to the IP layer
    pub packet: Option<IpPacket>,
    /// Whether the send thread ends
    pub stopped: bool,
}

/// What closing a stream did.
#[derive(Debug, Clone, Copy, PartialEq, Eq, Structural)]
pub enum CloseStep {
    /// Nothing is left to be done
    Done,
    /// A fin is queued and the send thread of the send buffer has to be woken up
    FinQueued,
    /// The fin has to wait until all data is in the window
    Wait,
}

impl TcpStream {
    pub open spec fn wf(self) -> bool {
        &&& self.recv_buffer.wf()
        &&& self.send_buffer.wf()
        &&& match self.internal.state {
            TcpStreamState::Closed => true,
            TcpStreamState::Listen => {
                &&& self.internal.destination_ip is None
                &&& self.internal.destination_port is None
                &&& self.send_buffer.state == SendBufferState::Init
                &&& self.recv_buffer.buf@.len() == 0
            },
            TcpStreamState::SynSent => {
                &&& self.internal.connected()
                &&& self.send_buffer.state != SendBufferState::Init
                &&& self.recv_buffer.buf@.len() == 0
            },
            TcpStreamState::FinWait1 | TcpStreamState::Closing | TcpStreamState::LastAck => {
                &&& self.internal.connected()
                &&& self.internal.initial_ack is Some
                &&& self.internal.last_ack is Some
                &&& self.recv_buffer.win is Some
                &&& self.send_buffer.state == SendBufferState::FinSent || self.send_buffer.state
                    == SendBufferState::_Closed
            },
            _ => {
                &&& self.internal.connected()
                &&& self.internal.initial_ack is Some
                &&& self.internal.last_ack is Some
                &&& self.recv_buffer.win is Some
                &&& self.send_buffer.state != SendBufferState::Init
            },
        }
    }

    /// Whether a packet with this header is acked on the spot, before anything else is done.
    pub open spec fn reply_due(self, header: TcpHeader) -> bool {
        match self.internal.state {
            TcpStreamState::SynSent => header.syn,
            TcpStreamState::Established
            | TcpStreamState::FinWait1
            | TcpStreamState::FinWait2
            | TcpStreamState::CloseWait
            | TcpStreamState::Closing
            | TcpStreamState::LastAck => header.fin,
            _ => false,
        }
    }

    /// The ack that is sent on the spot.
    pub open spec fn reply_packet(self, ip: Ipv4Header, header: TcpHeader) -> PacketParts {
        let ack = header.sequence_number.wrapping_add(1);
        if self.internal.state == TcpStreamState::SynSent && !header.ack {
            (TcpStreamInternal {
                source_ip: Some(ip.destination),
                ..self.internal
            }).ack_packet(ack)
        } else {
            self.internal.ack_packet(ack)
        }
    }

    /// Whether the ack of a fin could not be sent, which ends the stream.
    pub open spec fn fin_unacked(self, header: TcpHeader, reply_sent: bool) -> bool {
        self.reply_due(header) && !reply_sent && self.internal.state != TcpStreamState::SynSent
    }

    /// Whether the packet acks our fin.
    pub open spec fn acks_fin(self, header: TcpHeader) -> bool {
        header.ack && header.acknowledgment_number == self.internal.next_seq
    }

    /// The state that a packet leads to.
    pub open spec fn next_state(self, header: TcpHeader, reply_sent: bool) -> TcpStreamState {
        let state = self.internal.state;
        if self.fin_unacked(header, reply_sent) {
            TcpStreamState::Closed
        } else {
            match state {
                TcpStreamState::Listen if header.syn => TcpStreamState::SynReceived,
                TcpStreamState::SynReceived if header.ack => TcpStreamState::Established,
                TcpStreamState::SynSent if header.syn && header.ack && reply_sent =>
                    TcpStreamState::Established,
                TcpStreamState::SynSent if header.syn && !header.ack && reply_sent =>
                    TcpStreamState::SynReceived,
                TcpStreamState::SynSent if header.syn && !header.ack => TcpStreamState::Closed,
                TcpStreamState::Established if header.fin => TcpStreamState::CloseWait,
                TcpStreamState::FinWait1 if header.fin => TcpStreamState::Closing,
                TcpStreamState::FinWait1 if self.acks_fin(header) => TcpStreamState::FinWait2,
                TcpStreamState::FinWait2 if header.fin => TcpStreamState::TimeWait,
                TcpStreamState::Closing if self.acks_fin(header) => TcpStreamState::TimeWait,
                TcpStreamState::LastAck if self.acks_fin(header) => TcpStreamState::Closed,
                _ => state,
            }
        }
    }

    /// Everything but the buffers after a packet: the handshake fixes the ends of the stream and
    /// the first ack number.
    pub open spec fn internal_after(
        self,
        ip: Ipv4Header,
        header: TcpHeader,
        reply_sent: bool,
    ) -> TcpStreamInternal {
        let ack = header.sequence_number.wrapping_add(1);
        let next = TcpStreamInternal {
            state: self.next_state(header, reply_sent),
            ..self.internal
        };
        match self.internal.state {
            TcpStreamState::Listen if header.syn => TcpStreamInternal {
                source_ip: Some(ip.destination),
                destination_ip: Some(ip.source),
                destination_port: Some(header.source_port),
                initial_ack: Some(ack),
                last_ack: Some(ack),
                ..next
            },
            TcpStreamState::SynSent => TcpStreamInternal {
                source_ip: if header.syn && !header.ack {
                    Some(ip.destination)
                } else {
                    self.internal.source_ip
                },
                initial_ack: Some(ack),
                last_ack: Some(ack),
                ..next
            },
            _ => next,
        }
    }

    /// Whether the packet's data goes to the receive buffer.
    pub open spec fn takes_data(self, header: TcpHeader, data: Seq<u8>, reply_sent: bool) -> bool {
        &&& data.len() > 0
        &&& !self.fin_unacked(header, reply_sent)
        &&& match self.internal.state {
            TcpStreamState::Established | TcpStreamState::FinWait1 | TcpStreamState::FinWait2 =>
                true,
            _ => false,
        }
    }

    /// Whether the packet's ack number goes to the send buffer.
    pub open spec fn takes_ack(self, header: TcpHeader, reply_sent: bool) -> bool {
        &&& header.ack
        &&& !self.fin_unacked(header, reply_sent)
        &&& match self.internal.state {
            TcpStreamState::Established
            | TcpStreamState::FinWait1
            | TcpStreamState::FinWait2
            | TcpStreamState::CloseWait => true,
            _ => false,
        }
    }

    /// Whether the packet stops the retries of our fin.
    pub open spec fn takes_ack_of_fin(self, header: TcpHeader, reply_sent: bool) -> bool {
        &&& self.acks_fin(header)
        &&& !self.fin_unacked(header, reply_sent)
        &&& match self.internal.state {
            TcpStreamState::FinWait1 => !header.fin,
            TcpStreamState::Closing | TcpStreamState::LastAck => true,
            _ => false,
        }
    }

    /// The receive buffer after a packet, and what is answered to the packet's data.
    pub open spec fn recv_buffer_after(
        self,
        post: RecvBuffer,
        header: TcpHeader,
        data: Seq<u8>,
        reply_sent: bool,
        answer: Option<StreamSendThreadMsg>,
    ) -> bool {
        if (self.internal.state == TcpStreamState::Listen || self.internal.state
            == TcpStreamState::SynSent) && header.syn {
            &&& self.recv_buffer.starts(post, header.sequence_number)
            &&& answer is None
        } else if self.takes_data(header, data, reply_sent) {
            &&& self.recv_buffer.handles(post, header.sequence_number, data)
            &&& answer == self.recv_buffer.answer(post)
        } else {
            &&& post == self.recv_buffer
            &&& answer is None
        }
    }

    /// The send buffer after a packet.
    pub open spec fn send_buffer_after(
        self,
        post: SendBuffer,
        header: TcpHeader,
        reply_sent: bool,
        now: u64,
        rtts: Seq<u64>,
    ) -> bool {
        let pre = self.send_buffer;
        if self.internal.state == TcpStreamState::Listen && header.syn {
            pre.queues_syn(post, now) && rtts.len() == 0
        } else if self.internal.state == TcpStreamState::SynReceived && header.ack
            || self.internal.state == TcpStreamState::SynSent && header.syn && header.ack {
            pre.takes_ack_of_syn(post, header.window_size) && rtts.len() == 0
        } else if self.takes_ack_of_fin(header, reply_sent) && self.takes_ack(header, reply_sent) {
            exists|mid: SendBuffer| #[trigger]
                pre.takes_ack_of_fin(mid) && mid.takes_ack(
                    post,
                    header.acknowledgment_number,
                    header.window_size,
                    now,
                    rtts,
                )
        } else if self.takes_ack_of_fin(header, reply_sent) {
            pre.takes_ack_of_fin(post) && rtts.len() == 0
        } else if self.takes_ack(header, reply_sent) {
            pre.takes_ack(
                post,
                header.acknowledgment_number,
                header.window_size,
                now,
                rtts,
            )
        } else {
            post == pre && rtts.len() == 0
        }
    }

    /// Whether the send thread of the send buffer has to be woken up after a packet.
    pub open spec fn wakes(self, header: TcpHeader, reply_sent: bool) -> bool {
        ||| self.internal.state == TcpStreamState::Listen && header.syn
        ||| self.takes_ack(header, reply_sent) && (self.send_buffer.window.acked_or_probed(
            header.acknowledgment_number,
        ) > 0 || self.send_buffer.window.fast_retry(header.acknowledgment_number))
    }

    /// `post` is this stream after a packet, and `outcome` is what else came of it.
    pub open spec fn processes(
        self,
        post: TcpStream,
        ip: Ipv4Header,
        header: TcpHeader,
        data: Seq<u8>,
        reply_sent: bool,
        now: u64,
        outcome: ProcessOutcome,
    ) -> bool {
        &&& post.internal == self.internal_after(ip, header, reply_sent)
        &&& self.recv_buffer_after(post.recv_buffer, header, data, reply_sent, outcome.answer)
        &&& self.send_buffer_after(post.send_buffer, header, reply_sent, now, outcome.rtts@)
        &&& outcome.wake_send_thread == self.wakes(header, reply_sent)
        &&& outcome.notify_reader == self.takes_data(header, data, reply_sent)
        &&& outcome.stopped == self.fin_unacked(header, reply_sent)
    }

    /// The ack that a packet calls for on the spot, if it does. It has to be sent before the packet
    /// is processed.
    pub fn reply(&self, ip_header: &Ipv4Header, tcp_header: &TcpHeader) -> (reply: Option<IpPacket>)
        requires
            self.wf(),
        ensures
            match reply {
                Some(packet) => {
                    &&& self.reply_due(*tcp_header)
                    &&& packet@ == self.reply_packet(*ip_header, *tcp_header)
                    &&& packet@.wf()
                },
                None => !self.reply_due(*tcp_header),
            },
    {
        proof {
            lemma_ack_states();
        }
        let ack_num: u32 = tcp_header.sequence_number.wrapping_add(1);
        match self.internal.state {
            TcpStreamState::SynSent => {
                if tcp_header.syn {
                    let mut internal = self.internal;
                    if !tcp_header.ack {
                        internal.set_source_ip(ip_header.destination);
                    }
                    Some(internal.send_ack(ack_num))
                } else {
                    None
                }
            },
            TcpStreamState::Established
            | TcpStreamState::FinWait1
            | TcpStreamState::FinWait2
            | TcpStreamState::CloseWait
            | TcpStreamState::Closing
            | TcpStreamState::LastAck => {
                if tcp_header.fin {
                    Some(self.internal.send_ack(ack_num))
                } else {
                    None
                }
            },
            _ => None,
        }
    }
}

impl TcpStream {
    /// Hands the ack and the data of a packet to the buffers.
    fn handle_incoming_ack_data(
        &mut self,
        tcp_header: &TcpHeader,
        data: &[u8],
        now: u64,
        outcome: &mut ProcessOutcome,
    )
        requires
            old(self).recv_buffer.wf(),
            old(self).send_buffer.wf(),
            old(self).recv_buffer.win is Some,
            data@.len() <= u32::MAX - TCP_BUF_SIZE,
            tcp_header.ack ==> old(self).send_buffer.window.can_count(
                tcp_header.acknowledgment_number,
            ),
            old(outcome).rtts@.len() == 0,
            old(outcome).answer is None,
            !old(outcome).wake_send_thread,
            !old(outcome).notify_reader,
        ensures
            final(self).internal == old(self).internal,
            final(self).recv_buffer.wf(),
            final(self).send_buffer.wf(),
            final(self).recv_buffer.win is Some,
            final(self).send_buffer.state == old(self).send_buffer.state,
            final(self).send_buffer.window.fin_queued() == old(self).send_buffer.window.fin_queued(),
            final(outcome).stopped == old(outcome).stopped,
            final(outcome).notify_reader == (data@.len() > 0),
            if data@.len() > 0 {
                &&& old(self).recv_buffer.handles(
                    final(self).recv_buffer,
                    tcp_header.sequence_number,
                    data@,
                )
                &&& final(outcome).answer == old(self).recv_buffer.answer(final(self).recv_buffer)
            } else {
                &&& final(self).recv_buffer == old(self).recv_buffer
                &&& final(outcome).answer is None
            },
            if tcp_header.ack {
                &&& old(self).send_buffer.takes_ack(
                    final(self).send_buffer,
                    tcp_header.acknowledgment_number,
                    tcp_header.window_size,
                    now,
                    final(outcome).rtts@,
                )
                &&& final(outcome).wake_send_thread == (old(
                    self,
                ).send_buffer.window.acked_or_probed(tcp_header.acknowledgment_number) > 0 || old(
                    self,
                ).send_buffer.window.fast_retry(tcp_header.acknowledgment_number))
            } else {
                &&& final(self).send_buffer == old(self).send_buffer
                &&& final(outcome).rtts@.len() == 0
                &&& !final(outcome).wake_send_thread
            },
    {
        if tcp_header.ack {
            let acked = self.send_buffer.handle_ack(
                tcp_header.acknowledgment_number,
                tcp_header.window_size,
                now,
            );
            outcome.wake_send_thread = acked.wake_send_thread;
            outcome.rtts = acked.rtts;
        }
        if data.len() > 0 {
            outcome.answer = self.recv_buffer.handle_seq(tcp_header.sequence_number, data);
            outcome.notify_reader = true;
        }
    }

    /// Whether the counters have room for the packet's ack, where it goes to the send buffer.
    pub fn can_process(&self, tcp_header: &TcpHeader, reply_sent: bool) -> (can: bool)
        ensures
            can == (self.takes_ack(*tcp_header, reply_sent) ==> self.send_buffer.window.can_count(
                tcp_header.acknowledgment_number,
            )),
    {
        let takes_acks: bool = match self.internal.state {
            TcpStreamState::Established
            | TcpStreamState::FinWait1
            | TcpStreamState::FinWait2
            | TcpStreamState::CloseWait => true,
            _ => false,
        };
        // a fin is acked in each of these states
        !tcp_header.ack || !takes_acks || (tcp_header.fin && !reply_sent)
            || self.send_buffer.window.can_count_ack(tcp_header.acknowledgment_number)
    }

    /// Advances the stream by a packet that was received for it. `reply_sent` says whether the ack
    /// that `reply` gives for the packet could be sent; without one it does not matter.
    #[verifier::spinoff_prover]
    #[verifier::rlimit(60)]
    pub fn process(&mut self, packet: IpTcpPacket, reply_sent: bool, now: u64) -> (outcome:
        ProcessOutcome)
        requires
            old(self).wf(),
            packet.2@.len() <= u32::MAX - TCP_BUF_SIZE,
            old(self).takes_ack(packet.1, reply_sent) ==> old(self).send_buffer.window.can_count(
                packet.1.acknowledgment_number,
            ),
        ensures
            final(self).wf(),
            old(self).processes(
                *final(self),
                packet.0,
                packet.1,
                packet.2@,
                reply_sent,
                now,
                outcome,
            ),
    {
        let (ip_header, tcp_header, data) = packet;
        let mut outcome = ProcessOutcome {
            answer: None,
            wake_send_thread: false,
            notify_reader: false,
            rtts: Vec::new(),
            stopped: false,
        };
        let ghost pre = *self;
        let acks_fin: bool = tcp_header.ack && tcp_header.acknowledgment_number
            == self.internal.next_seq;
        match self.internal.state {
            TcpStreamState::Listen => {
                if tcp_header.syn {
                    self.internal.set_destination_or_check(
                        ip_header.source,
                        tcp_header.source_port,
                    );
                    self.internal.set_source_ip(ip_header.destination);
                    self.recv_buffer.set_initial_seq_num_data(tcp_header.sequence_number);
                    self.internal.set_initial_ack(tcp_header.sequence_number.wrapping_add(1));
                    // Note ack will be sent on the syn since we are in SynReceived
                    let _ = self.send_buffer.send_syn(now);
                    outcome.wake_send_thread = true;
                    self.internal.state = TcpStreamState::SynReceived;
                }
            },
            TcpStreamState::SynReceived => {
                if tcp_header.ack {
                    // an error could be because of a duplicate syn ack
                    let _ = self.send_buffer.handle_ack_of_syn(tcp_header.window_size);
                    self.internal.state = TcpStreamState::Established;
                }
            },
            TcpStreamState::SynSent => {
                self.internal.set_initial_ack(tcp_header.sequence_number.wrapping_add(1));
                if tcp_header.ack && tcp_header.syn {
                    self.recv_buffer.set_initial_seq_num_data(tcp_header.sequence_number);
                    // an error could be because of a duplicate syn ack
                    let _ = self.send_buffer.handle_ack_of_syn(tcp_header.window_size);
                    if reply_sent {
                        self.internal.state = TcpStreamState::Established;
                    }
                } else if tcp_header.syn && !tcp_header.ack {
                    self.recv_buffer.set_initial_seq_num_data(tcp_header.sequence_number);
                    self.internal.set_source_ip(ip_header.destination);
                    if reply_sent {
                        self.internal.state = TcpStreamState::SynReceived;
                    } else {
                        self.internal.state = TcpStreamState::Closed;
                    }
                }
            },
            TcpStreamState::Established => {
                if tcp_header.fin && !reply_sent {
                    self.internal.state = TcpStreamState::Closed;
                    outcome.stopped = true;
                    return outcome;
                }
                if tcp_header.fin {
                    self.internal.state = TcpStreamState::CloseWait;
                }
                self.handle_incoming_ack_data(&tcp_header, data.as_slice(), now, &mut outcome);
            },
            TcpStreamState::Closed => {
                // this should probably never happen
            },
            TcpStreamState::FinWait1 => {
                if tcp_header.fin && !reply_sent {
                    self.internal.state = TcpStreamState::Closed;
                    outcome.stopped = true;
                    return outcome;
                }
                if tcp_header.fin {
                    self.internal.state = TcpStreamState::Closing;
                } else if acks_fin {
                    self.send_buffer.handle_ack_of_fin();
                    self.internal.state = TcpStreamState::FinWait2;
                }
                self.handle_incoming_ack_data(&tcp_header, data.as_slice(), now, &mut outcome);
            },
            TcpStreamState::FinWait2 => {
                if tcp_header.fin && !reply_sent {
                    self.internal.state = TcpStreamState::Closed;
                    outcome.stopped = true;
                    return outcome;
                }
                if tcp_header.fin {
                    self.internal.state = TcpStreamState::TimeWait;
                }
                self.handle_incoming_ack_data(&tcp_header, data.as_slice(), now, &mut outcome);
            },
            TcpStreamState::CloseWait => {
                // handle dup fin
                if tcp_header.fin && !reply_sent {
                    self.internal.state = TcpStreamState::Closed;
                    outcome.stopped = true;
                    return outcome;
                }
                let no_data: [u8; 0] = [];
                self.handle_incoming_ack_data(&tcp_header, no_data.as_slice(), now, &mut outcome);
            },
            TcpStreamState::Closing => {
                // handle dup fin
                if tcp_header.fin && !reply_sent {
                    self.internal.state = TcpStreamState::Closed;
                    outcome.stopped = true;
                    return outcome;
                }
                if acks_fin {
                    self.send_buffer.handle_ack_of_fin();
                    self.internal.state = TcpStreamState::TimeWait;
                }
            },
            TcpStreamState::TimeWait => (),
            TcpStreamState::LastAck => {
                // handle dup fin
                if tcp_header.fin && !reply_sent {
                    self.internal.state = TcpStreamState::Closed;
                    outcome.stopped = true;
                    return outcome;
                }
                if acks_fin {
                    self.send_buffer.handle_ack_of_fin();
                    self.internal.state = TcpStreamState::Closed;
                }
            },
        }
        outcome
    }
}

impl TcpStream {
    /// The packet that a message of the buffers leads to.
    pub open spec fn packet_for(self, msg: SendThreadMsg) -> Option<PacketParts> {
        let internal = self.internal_for(msg);
        let state = self.internal.state;
        match msg {
            SendThreadMsg::Syn => match state {
                TcpStreamState::Listen | TcpStreamState::SynSent => Some(internal.syn_packet()),
                TcpStreamState::SynReceived => Some(internal.syn_ack_packet()),
                _ => None,
            },
            SendThreadMsg::Outgoing(seq_num, data) => if VALID_SEND_STATES@.contains(state) {
                Some(internal.data_packet(seq_num, data))
            } else {
                None
            },
            SendThreadMsg::Ack(ack_num, _) => if VALID_ACK_STATES@.contains(state) {
                Some(internal.ack_packet(ack_num))
            } else {
                None
            },
            SendThreadMsg::UpdateWindowSize(_) => None,
            SendThreadMsg::Fin(seq_num) => if VALID_FIN_STATES@.contains(state) {
                Some(internal.fin_packet(seq_num))
            } else {
                None
            },
            SendThreadMsg::Shutdown => None,
        }
    }

    /// Everything but the buffers after a message of the buffers: data and a fin move the next
    /// sequence number on, an ack is remembered for the data packets to come.
    pub open spec fn internal_for(self, msg: SendThreadMsg) -> TcpStreamInternal {
        let state = self.internal.state;
        match msg {
            SendThreadMsg::Outgoing(seq_num, data) if VALID_SEND_STATES@.contains(state) && seq_num
                >= self.internal.next_seq => TcpStreamInternal {
                next_seq: seq_num.wrapping_add(data.len() as u32),
                ..self.internal
            },
            SendThreadMsg::Ack(ack_num, window_size) => TcpStreamInternal {
                last_window_size: window_size,
                last_ack: Some(ack_num),
                ..self.internal
            },
            SendThreadMsg::UpdateWindowSize(window_size) => TcpStreamInternal {
                last_window_size: window_size,
                ..self.internal
            },
            SendThreadMsg::Fin(seq_num) if VALID_FIN_STATES@.contains(state) && seq_num
                >= self.internal.next_seq => TcpStreamInternal {
                next_seq: seq_num.wrapping_add(1),
                ..self.internal
            },
            SendThreadMsg::Shutdown => TcpStreamInternal {
                state: TcpStreamState::Closed,
                ..self.internal
            },
            _ => self.internal,
        }
    }

    /// One step of the send thread: sending packets from the send buffer, and acks for received
    /// data from the recv buffer.
    pub fn send_thread_step(&mut self, msg: StreamSendThreadMsg) -> (outcome: SendThreadOutcome)
        requires
            old(self).wf(),
            old(self).internal.state != TcpStreamState::Closed,
            old(self).internal.state == TcpStreamState::Listen ==> !(msg is Syn),
            msg matches StreamSendThreadMsg::Outgoing(_, data) ==> 40 + data@.len() <= 65535,
        ensures
            final(self).wf(),
            final(self).internal == old(self).internal_for(msg@),
            final(self).recv_buffer == old(self).recv_buffer,
            final(self).send_buffer == old(self).send_buffer,
            outcome.stopped == (msg is Shutdown),
            match outcome.packet {
                Some(packet) => old(self).packet_for(msg@) == Some(packet@) && packet@.wf(),
                None => old(self).packet_for(msg@) is None,
            },
    {
        proof {
            lemma_ack_states();
            lemma_syn_states();
            lemma_live_states();
        }
        let ghost pre = *self;
        match msg {
            StreamSendThreadMsg::Syn => {
                let packet = match self.internal.state {
                    TcpStreamState::Listen | TcpStreamState::SynSent => Some(
                        self.internal.send_syn(),
                    ),
                    TcpStreamState::SynReceived => Some(self.internal.send_syn_ack()),
                    _ => None,
                };
                SendThreadOutcome { packet, stopped: false }
            },
            StreamSendThreadMsg::Outgoing(seq_num, data) => {
                if !debug_assert_state_valid(
                    &self.internal.state,
                    VALID_SEND_STATES.as_slice(),
                ) {
                    return SendThreadOutcome { packet: None, stopped: false };
                }
                if seq_num >= self.internal.next_seq {
                    self.internal.next_seq = seq_num.wrapping_add(data.len() as u32);
                }
                let packet = self.internal.send_data(seq_num, data);
                SendThreadOutcome { packet: Some(packet), stopped: false }
            },
            StreamSendThreadMsg::Ack(ack_num, window_size) => {
                self.internal.last_window_size = window_size;
                self.internal.last_ack = Some(ack_num);
                let packet = if debug_assert_state_valid(
                    &self.internal.state,
                    VALID_ACK_STATES.as_slice(),
                ) {
                    Some(self.internal.send_ack(ack_num))
                } else {
                    None
                };
                SendThreadOutcome { packet, stopped: false }
            },
            StreamSendThreadMsg::UpdateWindowSize(window_size) => {
                self.internal.last_window_size = window_size;
                SendThreadOutcome { packet: None, stopped: false }
            },
            StreamSendThreadMsg::Fin(seq_num) => {
                if !debug_assert_state_valid(&self.internal.state, VALID_FIN_STATES.as_slice()) {
                    return SendThreadOutcome { packet: None, stopped: false };
                }
                if seq_num >= self.internal.next_seq {
                    self.internal.next_seq = seq_num.wrapping_add(1);
                }
                let packet = self.internal.send_fin(seq_num);
                SendThreadOutcome { packet: Some(packet), stopped: false }
            },
            StreamSendThreadMsg::Shutdown => {
                self.internal.state = TcpStreamState::Closed;
                SendThreadOutcome { packet: None, stopped: true }
            },
        }
    }

    /// A stream with the given ends. Its initial sequence number is zero.
    fn new(
        source_ip: Option<Ipv4Addr>,
        source_port: Port,
        destination_ip: Option<Ipv4Addr>,
        destination_port: Option<Port>,
        initial_state: TcpStreamState,
        socket_id: SocketId,
        congestion_control: CongestionControlStrategy,
    ) -> (stream: TcpStream)
        ensures
            stream.internal == (TcpStreamInternal {
                source_ip,
                source_port,
                destination_ip,
                destination_port,
                initial_sequence_number: 0,
                initial_ack: None,
                last_ack: None,
                last_window_size: MAX_WINDOW_SIZE as u16,
                next_seq: 1,
                state: initial_state,
                socket_id,
            }),
            stream.recv_buffer.wf(),
            stream.recv_buffer.win is None,
            stream.recv_buffer.buf@.len() == 0,
            stream.send_buffer.wf(),
            stream.send_buffer.settled(),
            stream.send_buffer.is_new(0, congestion_control),
    {
        let initial_sequence_number: u32 = 0;
        TcpStream {
            internal: TcpStreamInternal {
                source_ip,
                source_port,
                destination_ip,
                destination_port,
                initial_sequence_number,
                initial_ack: None,
                last_ack: None,
                last_window_size: MAX_WINDOW_SIZE as u16,
                next_seq: initial_sequence_number.wrapping_add(1),
                state: initial_state,
                socket_id,
            },
            recv_buffer: RecvBuffer::new(),
            send_buffer: SendBuffer::new(initial_sequence_number, congestion_control),
        }
    }

    /// Whether nothing has been done with the send buffer but queueing a syn.
    pub open spec fn has_queued_syn(
        self,
        congestion_control: CongestionControlStrategy,
        now: u64,
    ) -> bool {
        exists|fresh: SendBuffer| #[trigger]
            fresh.is_new(0, congestion_control) && fresh.queues_syn(self.send_buffer, now)
    }

    /// A stream that waits for a peer to connect to `source_port`.
    pub fn listen(source_port: Port, socket_id: SocketId) -> (stream: TcpStream)
        ensures
            stream.wf(),
            stream.internal == (TcpStreamInternal {
                source_ip: None,
                source_port,
                destination_ip: None,
                destination_port: None,
                initial_sequence_number: 0,
                initial_ack: None,
                last_ack: None,
                last_window_size: MAX_WINDOW_SIZE as u16,
                next_seq: 1,
                state: TcpStreamState::Listen,
                socket_id,
            }),
            stream.recv_buffer.win is None,
            stream.recv_buffer.buf@.len() == 0,
            stream.send_buffer.is_new(0, CongestionControlStrategy::No),
    {
        TcpStream::new(
            None,
            source_port,
            None,
            None,
            TcpStreamState::Listen,
            socket_id,
            CongestionControlStrategy::No,
        )
    }

    /// A stream that has queued the syn to a peer. The send thread of its send buffer has to be
    /// woken up.
    pub fn connect(
        source_ip: Ipv4Addr,
        source_port: Port,
        destination_ip: Ipv4Addr,
        destination_port: Port,
        socket_id: SocketId,
        congestion_control: CongestionControlStrategy,
        now: u64,
    ) -> (stream: TcpStream)
        ensures
            stream.wf(),
            stream.internal == (TcpStreamInternal {
                source_ip: Some(source_ip),
                source_port,
                destination_ip: Some(destination_ip),
                destination_port: Some(destination_port),
                initial_sequence_number: 0,
                initial_ack: None,
                last_ack: None,
                last_window_size: MAX_WINDOW_SIZE as u16,
                next_seq: 1,
                state: TcpStreamState::SynSent,
                socket_id,
            }),
            stream.recv_buffer.win is None,
            stream.recv_buffer.buf@.len() == 0,
            stream.send_buffer.settled(),
            stream.has_queued_syn(congestion_control, now),
    {
        let mut new_stream = TcpStream::new(
            Some(source_ip),
            source_port,
            Some(destination_ip),
            Some(destination_port),
            TcpStreamState::SynSent,
            socket_id,
            congestion_control,
        );
        let ghost fresh = new_stream.send_buffer;
        let _ = new_stream.send_buffer.send_syn(now);
        assert(fresh.is_new(0, congestion_control));
        new_stream
    }

    pub fn destination(&self) -> (destination: Option<SocketAddr>)
        ensures
            destination == match (self.internal.destination_ip, self.internal.destination_port) {
                (Some(ip), Some(port)) => Some(SocketAddr { ip, port }),
                _ => None,
            },
    {
        self.internal.destination()
    }

    pub fn source_ip(&self) -> (ip: Option<Ipv4Addr>)
        ensures
            ip == self.internal.source_ip,
    {
        self.internal.source_ip()
    }

    pub fn source_port(&self) -> (port: Port)
        ensures
            port == self.internal.source_port,
    {
        self.internal.source_port()
    }

    /// get stream state
    pub fn state(&self) -> (state: TcpStreamState)
        ensures
            state == self.internal.state,
    {
        self.internal.state()
    }

    pub fn socket_id(&self) -> (id: SocketId)
        ensures
            id == self.internal.socket_id,
    {
        self.internal.socket_id
    }

    /// get window size
    pub fn get_window_size(&self) -> (size: u16)
        requires
            self.recv_buffer.wf(),
            self.recv_buffer.win is Some,
        ensures
            size == TCP_BUF_SIZE - self.recv_buffer.buf@.len(),
    {
        self.recv_buffer.window_size()
    }

    /// Whether `sizes` are the room in our receive window, in theirs and in our send window. None
    /// before a peer is known.
    pub open spec fn has_windows(self, sizes: Option<(u16, u16, u16)>) -> bool {
        match sizes {
            Some((ours, theirs, send)) => {
                &&& self.recv_buffer.win is Some
                &&& ours == TCP_BUF_SIZE - self.recv_buffer.buf@.len()
                &&& theirs == self.send_buffer.window.recv_window_size
                &&& send == if self.send_buffer.window.max_size
                    < self.send_buffer.window.bytes_in_window {
                    0
                } else {
                    (self.send_buffer.window.max_size
                        - self.send_buffer.window.bytes_in_window) as u16
                }
            },
            None => self.recv_buffer.win is None,
        }
    }

    /// The room in our receive window, in theirs and in our send window. None before a peer is
    /// known.
    pub fn window_size(&self) -> (sizes: Option<(u16, u16, u16)>)
        requires
            self.recv_buffer.wf(),
        ensures
            self.has_windows(sizes),
    {
        if self.recv_buffer.win.is_none() {
            return None;
        }
        Some(
            (
                self.recv_buffer.window_size(),
                self.send_buffer.their_recv_window_size(),
                self.send_buffer.window_size(),
            ),
        )
    }

    /// Queues data to be sent. Returns how much of it there was room for, or none if the caller has
    /// to wait until the connection is established.
    pub fn send(&mut self, data: &[u8]) -> (result: Result<Option<usize>, SendBufferError>)
        requires
            old(self).wf(),
        ensures
            final(self).wf(),
            final(self).internal == old(self).internal,
            final(self).recv_buffer == old(self).recv_buffer,
            old(self).send_buffer.writes(final(self).send_buffer, data@, result),
    {
        self.send_buffer.write_data(data)
    }

    /// Reads up to `num_bytes` bytes without waiting for more, and tells the window size to
    /// advertise from now on, if it changed.
    pub fn recv(&mut self, num_bytes: usize) -> (read: (Vec<u8>, Option<StreamSendThreadMsg>))
        requires
            old(self).wf(),
            old(self).recv_buffer.win is Some,
        ensures
            final(self).wf(),
            final(self).internal == old(self).internal,
            final(self).send_buffer == old(self).send_buffer,
            ({
                let n = if num_bytes < old(self).recv_buffer.buf@.len() {
                    num_bytes as int
                } else {
                    old(self).recv_buffer.buf@.len() as int
                };
                &&& read.0@ == old(self).recv_buffer.buf@.take(n)
                &&& n == 0 ==> read.1 is None && final(self).recv_buffer == old(self).recv_buffer
                &&& n > 0 ==> old(self).recv_buffer.reads(final(self).recv_buffer, n) && read.1
                    == Some(
                    StreamSendThreadMsg::UpdateWindowSize(
                        (final(self).recv_buffer.win->0).size() as u16,
                    ),
                )
            }),
    {
        let mut data: Vec<u8> = vec![0u8; num_bytes];
        let (bytes_read, msg) = self.recv_buffer.read_data(data.as_mut_slice());
        data.truncate(bytes_read);
        assert(data@ =~= old(self).recv_buffer.buf@.take(bytes_read as int));
        (data, msg)
    }

    /// `post` is this stream after a request to close it, and `result` is what came of it.
    pub open spec fn closes(
        self,
        post: TcpStream,
        now: u64,
        result: Result<CloseStep, SendBufferError>,
    ) -> bool {
        &&& post.recv_buffer == self.recv_buffer
        &&& match self.internal.state {
            TcpStreamState::Listen | TcpStreamState::SynSent => {
                &&& result == Ok::<CloseStep, SendBufferError>(CloseStep::Done)
                &&& post.send_buffer == self.send_buffer
                &&& post.internal == (TcpStreamInternal {
                    state: TcpStreamState::Closed,
                    ..self.internal
                })
            },
            TcpStreamState::SynReceived => {
                &&& result == Ok::<CloseStep, SendBufferError>(CloseStep::Done)
                &&& post == self
            },
            TcpStreamState::Established | TcpStreamState::CloseWait => {
                &&& self.send_buffer.queues_fin(post.send_buffer, now)
                &&& match self.send_buffer.state {
                    SendBufferState::Ready => {
                        &&& result == Ok::<CloseStep, SendBufferError>(CloseStep::FinQueued)
                        &&& post.internal == (TcpStreamInternal {
                            state: if self.internal.state == TcpStreamState::Established {
                                TcpStreamState::FinWait1
                            } else {
                                TcpStreamState::LastAck
                            },
                            ..self.internal
                        })
                    },
                    SendBufferState::FinSent | SendBufferState::_Closed => {
                        &&& result == Err::<CloseStep, SendBufferError>(
                            SendBufferError::ConnectionClosing,
                        )
                        &&& post.internal == self.internal
                    },
                    _ => {
                        &&& result == Ok::<CloseStep, SendBufferError>(CloseStep::Wait)
                        &&& post.internal == self.internal
                    },
                }
            },
            _ => {
                &&& result == Err::<CloseStep, SendBufferError>(SendBufferError::ConnectionClosing)
                &&& post == self
            },
        }
    }

    /// Close is a overloaded term when dealing with sockets. This function corresponds to the
    /// sending the CLOSE command as described in the RFC. This corresponds to calling shutdown with
    /// the method set to write.
    pub fn close(&mut self, now: u64) -> (result: Result<CloseStep, SendBufferError>)
        requires
            old(self).wf(),
        ensures
            final(self).wf(),
            old(self).closes(*final(self), now, result),
    {
        match self.internal.state {
            TcpStreamState::Listen | TcpStreamState::SynSent => {
                self.internal.state = TcpStreamState::Closed;
                Ok(CloseStep::Done)
            },
            TcpStreamState::SynReceived => Ok(CloseStep::Done),
            TcpStreamState::Established => {
                let queued: bool = self.send_buffer.send_fin(now)?;
                if !queued {
                    return Ok(CloseStep::Wait);
                }
                self.internal.state = TcpStreamState::FinWait1;
                Ok(CloseStep::FinQueued)
            },
            TcpStreamState::CloseWait => {
                // The RFC says to enter CLOSING state here, its flow chart says LAST-ACK; we follow
                // the chart
                let queued: bool = self.send_buffer.send_fin(now)?;
                if !queued {
                    return Ok(CloseStep::Wait);
                }
                self.internal.state = TcpStreamState::LastAck;
                Ok(CloseStep::FinQueued)
            },
            _ => Err(SendBufferError::ConnectionClosing),
        }
    }

    /// One run of the send thread of the stream's send buffer.
    pub fn run_send_buffer(&mut self, now: u64) -> (step: SendStep)
        requires
            old(self).wf(),
            now <= MAX_TIME,
            old(self).send_buffer.retry_in_buffer(now),
        ensures
            final(self).wf(),
            final(self).internal == old(self).internal,
            final(self).recv_buffer == old(self).recv_buffer,
            old(self).send_buffer.runs(final(self).send_buffer, now, step),
            old(self).send_buffer.settled() && !step.stopped ==> final(self).send_buffer.settled(),
    {
        self.send_buffer.send_step(now)
    }

    /// Marks the stream as being in a state, as when its threads end.
    pub fn set_state(&mut self, state: TcpStreamState)
        ensures
            final(self).internal == (TcpStreamInternal { state, ..old(self).internal }),
            final(self).recv_buffer == old(self).recv_buffer,
            final(self).send_buffer == old(self).send_buffer,
            old(self).wf() && state == TcpStreamState::Closed ==> final(self).wf(),
    {
        self.internal.state = state;
    }
}

/// A stream that is closed stays closed, whatever arrives or is still queued to be sent.
pub proof fn law_closed_is_final(
    stream: TcpStream,
    ip: Ipv4Header,
    header: TcpHeader,
    reply_sent: bool,
    msg: SendThreadMsg,
)
    requires
        stream.internal.state == TcpStreamState::Closed,
    ensures
        stream.internal_after(ip, header, reply_sent) == stream.internal,
        !stream.reply_due(header),
        stream.internal_for(msg).state == TcpStreamState::Closed,
{
}

/// Two fresh streams, one listening and one connecting, are both established once the syn, the syn
/// with its ack and the last ack have been exchanged, and each knows the other end.
pub proof fn law_three_way_handshake(
    client: TcpStream,
    server: TcpStream,
    ip_to_server: Ipv4Header,
    ip_to_client: Ipv4Header,
    syn: TcpHeader,
    syn_ack: TcpHeader,
    ack: TcpHeader,
    client_established: TcpStream,
    server_received: TcpStream,
)
    requires
        client.internal.state == TcpStreamState::SynSent,
        server.internal.state == TcpStreamState::Listen,
        syn.syn && !syn.ack,
        syn_ack.syn && syn_ack.ack,
        ack.ack,
        server_received.internal == server.internal_after(ip_to_server, syn, true),
        client_established.internal == client.internal_after(ip_to_client, syn_ack, true),
    ensures
        server_received.internal.state == TcpStreamState::SynReceived,
        client_established.internal.state == TcpStreamState::Established,
        server_received.next_state(ack, true) == TcpStreamState::Established,
        server_received.internal.destination_ip == Some(ip_to_server.source),
        server_received.internal.destination_port == Some(syn.source_port),
        server_received.internal.source_ip == Some(ip_to_server.destination),
        server_received.internal.initial_ack == Some(syn.sequence_number.wrapping_add(1)),
        client_established.internal.initial_ack == Some(syn_ack.sequence_number.wrapping_add(1)),
        client.reply_due(syn_ack),
{
}

/// A fin is acked in every state in which the stream is connected and the peer may still send one,
/// also when it comes again.
pub proof fn law_fin_is_acked(stream: TcpStream, header: TcpHeader)
    requires
        header.fin,
        match stream.internal.state {
            TcpStreamState::Established
            | TcpStreamState::FinWait1
            | TcpStreamState::FinWait2
            | TcpStreamState::CloseWait
            | TcpStreamState::Closing
            | TcpStreamState::LastAck => true,
            _ => false,
        },
    ensures
        stream.reply_due(header),
{
}

/// Data crosses: what a sender sends of its application's stream is a segment of the same stream at
/// its place to a receiver that follows the sender's sequence numbers. The sender's first byte that
/// has not been acked is `stream(start)`, the receiver waits for `stream(edge)`.
pub proof fn law_sent_is_received(
    sender: SendBuffer,
    receiver: RecvBuffer,
    stream: spec_fn(int) -> u8,
    start: int,
    edge: int,
    seq: u32,
    bytes: Seq<u8>,
)
    requires
        sender.wf(),
        receiver.wf(),
        receiver.win is Some,
        0 <= edge - start <= TCP_BUF_SIZE,
        (receiver.win->0).left == sender.buf.first_sequnce_number.wrapping_add(
            (edge - start) as u32,
        ),
        sender.sends_stretch(stream, start, SendThreadMsg::Outgoing(seq, bytes)),
    ensures
        receiver.is_segment(stream, edge, start + sender.buf.offset(seq), seq, bytes),
{
}

/// Acks cross back: what a receiver acks is what the sender drops, as long as the sender has it in
/// its window.
pub proof fn law_acked_is_dropped(
    sender: SendBuffer,
    receiver: RecvBuffer,
    start: int,
    edge: int,
)
    requires
        sender.wf(),
        receiver.wf(),
        receiver.win is Some,
        0 <= edge - start <= sender.window.bytes_in_window,
        (receiver.win->0).left == sender.buf.first_sequnce_number.wrapping_add(
            (edge - start) as u32,
        ),
    ensures
        sender.window.acked((receiver.win->0).current_ack) == edge - start,
{
}

/// Whether a packet carries `header` and `data` from us to the other end of a stream, under the
/// checksum that the addresses, the header and the data call for.
pub open spec fn carries_segment(
    internal: TcpStreamInternal,
    packet: PacketParts,
    header: TcpHeader,
    data: Seq<u8>,
) -> bool {
    let source = internal.source_ip->0;
    let destination = internal.destination_ip->0;
    let checksum = tcp_checksum(source, destination, header, data);
    tcp_of(packet) == Some(
        (Ipv4Header { source, destination }, TcpHeader { checksum, ..header }, data),
    )
}

proof fn lemma_packet_carries(internal: TcpStreamInternal, header: TcpHeader, data: Seq<u8>)
    requires
        40 + data.len() <= 65535,
    ensures
        carries_segment(internal, internal.packet(header, data), header, data),
{
    let source = internal.source_ip->0;
    let destination = internal.destination_ip->0;
    law_segment_round_trip(
        source,
        destination,
        header.with_checksum(source, destination, data),
        data,
    );
}

/// What the send buffer sends is what leaves for the peer: until our own fin is sent, before as
/// well as after the peer's, data goes out as a segment with its own sequence number and bytes that
/// acks what has come in. Otherwise none does. The next sequence number moves past the data unless
/// it was there already.
pub proof fn law_data_goes_out(
    stream: &mut TcpStream,
    seq: u32,
    data: Vec<u8>,
    outcome: SendThreadOutcome,
)
    requires
        old(stream).wf(),
        40 + data@.len() <= 65535,
        call_ensures(
            TcpStream::send_thread_step,
            (stream, StreamSendThreadMsg::Outgoing(seq, data)),
            outcome,
        ),
    ensures
        !outcome.stopped,
        final(stream).recv_buffer == old(stream).recv_buffer,
        final(stream).send_buffer == old(stream).send_buffer,
        match old(stream).internal.state {
            TcpStreamState::Established | TcpStreamState::CloseWait => {
                &&& outcome.packet is Some
                &&& carries_segment(
                    old(stream).internal,
                    (outcome.packet->0)@,
                    TcpHeader {
                        source_port: old(stream).internal.source_port,
                        destination_port: old(stream).internal.destination_port->0,
                        sequence_number: seq,
                        acknowledgment_number: old(stream).internal.last_ack->0,
                        fin: false,
                        syn: false,
                        ack: true,
                        window_size: old(stream).internal.last_window_size,
                        checksum: 0,
                    },
                    data@,
                )
                &&& final(stream).internal == (TcpStreamInternal {
                    next_seq: if seq >= old(stream).internal.next_seq {
                        seq.wrapping_add(data@.len() as u32)
                    } else {
                        old(stream).internal.next_seq
                    },
                    ..old(stream).internal
                })
            },
            _ => outcome.packet is None && final(stream).internal == old(stream).internal,
        },
{
    let pre = *old(stream);
    let internal = pre.internal_for(SendThreadMsg::Outgoing(seq, data@));
    lemma_send_states(pre.internal.state);
    assert(StreamSendThreadMsg::Outgoing(seq, data)@ == SendThreadMsg::Outgoing(seq, data@));
    if pre.internal.state == TcpStreamState::Established || pre.internal.state
        == TcpStreamState::CloseWait {
        let header = TcpHeader {
            source_port: pre.internal.source_port,
            destination_port: pre.internal.destination_port->0,
            sequence_number: seq,
            acknowledgment_number: pre.internal.last_ack->0,
            fin: false,
            syn: false,
            ack: true,
            window_size: pre.internal.last_window_size,
            checksum: 0,
        };
        assert(internal.data_packet(seq, data@) == internal.packet(header, data@));
        assert(internal.packet(header, data@) == pre.internal.packet(header, data@));
        lemma_packet_carries(pre.internal, header, data@);
    }
}

/// Data is sent in two states.
proof fn lemma_send_states(state: TcpStreamState)
    ensures
        VALID_SEND_STATES@.contains(state) <==> state == TcpStreamState::Established || state
            == TcpStreamState::CloseWait,
{
    assert(VALID_SEND_STATES@[0] == TcpStreamState::Established);
    assert(VALID_SEND_STATES@[1] == TcpStreamState::CloseWait);
}

/// What the receive buffer acks is what the peer is told: as long as the peer may send data, an ack
/// goes out with the ack number and the window that were asked for. Data that is sent later repeats
/// both.
pub proof fn law_acks_go_out(
    stream: &mut TcpStream,
    ack_num: u32,
    window_size: u16,
    outcome: SendThreadOutcome,
)
    requires
        old(stream).wf(),
        call_ensures(
            TcpStream::send_thread_step,
            (stream, StreamSendThreadMsg::Ack(ack_num, window_size)),
            outcome,
        ),
    ensures
        !outcome.stopped,
        final(stream).recv_buffer == old(stream).recv_buffer,
        final(stream).send_buffer == old(stream).send_buffer,
        final(stream).internal == (TcpStreamInternal {
            last_ack: Some(ack_num),
            last_window_size: window_size,
            ..old(stream).internal
        }),
        match old(stream).internal.state {
            TcpStreamState::SynSent
            | TcpStreamState::Established
            | TcpStreamState::FinWait1
            | TcpStreamState::FinWait2
            | TcpStreamState::CloseWait => {
                &&& outcome.packet is Some
                &&& carries_segment(
                    old(stream).internal,
                    (outcome.packet->0)@,
                    TcpHeader {
                        source_port: old(stream).internal.source_port,
                        destination_port: old(stream).internal.destination_port->0,
                        sequence_number: old(stream).internal.next_seq,
                        acknowledgment_number: ack_num,
                        fin: false,
                        syn: false,
                        ack: true,
                        window_size,
                        checksum: 0,
                    },
                    Seq::empty(),
                )
            },
            _ => outcome.packet is None,
        },
{
    let pre = *old(stream);
    let internal = pre.internal_for(SendThreadMsg::Ack(ack_num, window_size));
    let header = TcpHeader {
        source_port: pre.internal.source_port,
        destination_port: pre.internal.destination_port->0,
        sequence_number: pre.internal.next_seq,
        acknowledgment_number: ack_num,
        fin: false,
        syn: false,
        ack: true,
        window_size,
        checksum: 0,
    };
    lemma_ack_states();
    assert(internal.ack_packet(ack_num) == internal.packet(header, Seq::empty()));
    assert(internal.packet(header, Seq::empty()) == pre.internal.packet(header, Seq::empty()));
    lemma_packet_carries(pre.internal, header, Seq::empty());
}

/// A fin goes out under its own sequence number in every state in which we may have to send or
/// repeat one, and counts as one sequence number.
pub proof fn law_fins_go_out(stream: &mut TcpStream, seq: u32, outcome: SendThreadOutcome)
    requires
        old(stream).wf(),
        call_ensures(
            TcpStream::send_thread_step,
            (stream, StreamSendThreadMsg::Fin(seq)),
            outcome,
        ),
    ensures
        !outcome.stopped,
        final(stream).recv_buffer == old(stream).recv_buffer,
        final(stream).send_buffer == old(stream).send_buffer,
        match old(stream).internal.state {
            TcpStreamState::SynReceived
            | TcpStreamState::Established
            | TcpStreamState::FinWait1
            | TcpStreamState::Closing
            | TcpStreamState::CloseWait
            | TcpStreamState::LastAck => {
                &&& outcome.packet is Some
                &&& carries_segment(
                    old(stream).internal,
                    (outcome.packet->0)@,
                    TcpHeader {
                        source_port: old(stream).internal.source_port,
                        destination_port: old(stream).internal.destination_port->0,
                        sequence_number: seq,
                        acknowledgment_number: 0,
                        fin: true,
                        syn: false,
                        ack: false,
                        window_size: old(stream).internal.last_window_size,
                        checksum: 0,
                    },
                    Seq::empty(),
                )
                &&& final(stream).internal == (TcpStreamInternal {
                    next_seq: if seq >= old(stream).internal.next_seq {
                        seq.wrapping_add(1)
                    } else {
                        old(stream).internal.next_seq
                    },
                    ..old(stream).internal
                })
            },
            _ => outcome.packet is None && final(stream).internal == old(stream).internal,
        },
{
    let pre = *old(stream);
    let internal = pre.internal_for(SendThreadMsg::Fin(seq));
    let header = TcpHeader {
        source_port: pre.internal.source_port,
        destination_port: pre.internal.destination_port->0,
        sequence_number: seq,
        acknowledgment_number: 0,
        fin: true,
        syn: false,
        ack: false,
        window_size: pre.internal.last_window_size,
        checksum: 0,
    };
    lemma_fin_states(pre.internal.state);
    assert(internal.fin_packet(seq) == internal.packet(header, Seq::empty()));
    assert(internal.packet(header, Seq::empty()) == pre.internal.packet(header, Seq::empty()));
    lemma_packet_carries(pre.internal, header, Seq::empty());
}

/// A fin is sent in six states.
proof fn lemma_fin_states(state: TcpStreamState)
    ensures
        VALID_FIN_STATES@.contains(state) <==> match state {
            TcpStreamState::SynReceived
            | TcpStreamState::Established
            | TcpStreamState::FinWait1
            | TcpStreamState::Closing
            | TcpStreamState::CloseWait
            | TcpStreamState::LastAck => true,
            _ => false,
        },
{
    assert(VALID_FIN_STATES@[0] == TcpStreamState::SynReceived);
    assert(VALID_FIN_STATES@[1] == TcpStreamState::Established);
    assert(VALID_FIN_STATES@[2] == TcpStreamState::FinWait1);
    assert(VALID_FIN_STATES@[3] == TcpStreamState::Closing);
    assert(VALID_FIN_STATES@[4] == TcpStreamState::CloseWait);
    assert(VALID_FIN_STATES@[5] == TcpStreamState::LastAck);
}

/// A syn goes out under our initial sequence number: alone if we connect, with an ack of the
/// peer's syn if that came first, and not at all once the handshake is over.
pub proof fn law_syns_go_out(stream: &mut TcpStream, outcome: SendThreadOutcome)
    requires
        old(stream).wf(),
        old(stream).internal.state != TcpStreamState::Listen,
        call_ensures(TcpStream::send_thread_step, (stream, StreamSendThreadMsg::Syn), outcome),
    ensures
        !outcome.stopped,
        *final(stream) == *old(stream),
        match old(stream).internal.state {
            TcpStreamState::SynSent | TcpStreamState::SynReceived => {
                let answers = old(stream).internal.state == TcpStreamState::SynReceived;
                &&& outcome.packet is Some
                &&& carries_segment(
                    old(stream).internal,
                    (outcome.packet->0)@,
                    TcpHeader {
                        source_port: old(stream).internal.source_port,
                        destination_port: old(stream).internal.destination_port->0,
                        sequence_number: old(stream).internal.initial_sequence_number,
                        acknowledgment_number: if answers {
                            old(stream).internal.initial_ack->0
                        } else {
                            0
                        },
                        fin: false,
                        syn: true,
                        ack: answers,
                        window_size: old(stream).internal.last_window_size,
                        checksum: 0,
                    },
                    Seq::empty(),
                )
            },
            _ => outcome.packet is None,
        },
{
    let internal = old(stream).internal;
    let answers = internal.state == TcpStreamState::SynReceived;
    let header = TcpHeader {
        source_port: internal.source_port,
        destination_port: internal.destination_port->0,
        sequence_number: internal.initial_sequence_number,
        acknowledgment_number: if answers {
            internal.initial_ack->0
        } else {
            0
        },
        fin: false,
        syn: true,
        ack: answers,
        window_size: internal.last_window_size,
        checksum: 0,
    };
    if answers {
        assert(internal.syn_ack_packet() == internal.packet(header, Seq::empty()));
    } else {
        assert(internal.syn_packet() == internal.packet(header, Seq::empty()));
    }
    lemma_packet_carries(internal, header, Seq::empty());
}

/// What is told to the send thread beside segments: a new window is advertised from now on, and a
/// shutdown closes the stream and ends the thread. Neither sends anything.
pub proof fn law_other_messages(
    stream: &mut TcpStream,
    msg: StreamSendThreadMsg,
    outcome: SendThreadOutcome,
)
    requires
        msg is UpdateWindowSize || msg is Shutdown,
        call_ensures(TcpStream::send_thread_step, (stream, msg), outcome),
    ensures
        outcome.packet is None,
        outcome.stopped == (msg is Shutdown),
        final(stream).recv_buffer == old(stream).recv_buffer,
        final(stream).send_buffer == old(stream).send_buffer,
        final(stream).internal == match msg {
            StreamSendThreadMsg::UpdateWindowSize(window_size) => TcpStreamInternal {
                last_window_size: window_size,
                ..old(stream).internal
            },
            _ => TcpStreamInternal { state: TcpStreamState::Closed, ..old(stream).internal },
        },
{
}

/// A fin is acked on the spot in every state in which the stream is connected, also when it comes
/// again, and so is a syn that answers or crosses our own. The ack names the number after the one
/// that the packet came under. Nothing else gets a reply.
pub proof fn law_replies(
    stream: &TcpStream,
    ip: &Ipv4Header,
    header: &TcpHeader,
    reply: Option<IpPacket>,
)
    requires
        stream.wf(),
        call_ensures(TcpStream::reply, (stream, ip, header), reply),
    ensures
        reply is Some <==> match stream.internal.state {
            TcpStreamState::SynSent => header.syn,
            TcpStreamState::Established
            | TcpStreamState::FinWait1
            | TcpStreamState::FinWait2
            | TcpStreamState::CloseWait
            | TcpStreamState::Closing
            | TcpStreamState::LastAck => header.fin,
            _ => false,
        },
        reply is Some ==> carries_segment(
            TcpStreamInternal {
                source_ip: if stream.internal.state == TcpStreamState::SynSent && !header.ack {
                    Some(ip.destination)
                } else {
                    stream.internal.source_ip
                },
                ..stream.internal
            },
            (reply->0)@,
            TcpHeader {
                source_port: stream.internal.source_port,
                destination_port: stream.internal.destination_port->0,
                sequence_number: stream.internal.next_seq,
                acknowledgment_number: header.sequence_number.wrapping_add(1),
                fin: false,
                syn: false,
                ack: true,
                window_size: stream.internal.last_window_size,
                checksum: 0,
            },
            Seq::empty(),
        ),
{
    let internal = TcpStreamInternal {
        source_ip: if stream.internal.state == TcpStreamState::SynSent && !header.ack {
            Some(ip.destination)
        } else {
            stream.internal.source_ip
        },
        ..stream.internal
    };
    let ack_num = header.sequence_number.wrapping_add(1);
    let sent = TcpHeader {
        source_port: internal.source_port,
        destination_port: internal.destination_port->0,
        sequence_number: internal.next_seq,
        acknowledgment_number: ack_num,
        fin: false,
        syn: false,
        ack: true,
        window_size: internal.last_window_size,
        checksum: 0,
    };
    assert(internal.ack_packet(ack_num) == internal.packet(sent, Seq::empty()));
    lemma_packet_carries(internal, sent, Seq::empty());
}

/// As long as the peer may send data, in-order data that there is room for can be read right after
/// what could be read before, the reader is told, and the answer acks all of it. The ack moves on by
/// just as many bytes as can newly be read, and the window is the room that is left.
pub proof fn law_in_order_data_is_taken(
    stream: &mut TcpStream,
    packet: IpTcpPacket,
    reply_sent: bool,
    now: u64,
    outcome: ProcessOutcome,
)
    requires
        old(stream).wf(),
        old(stream).internal.state == TcpStreamState::Established || old(stream).internal.state
            == TcpStreamState::FinWait1 || old(stream).internal.state == TcpStreamState::FinWait2,
        0 < packet.2@.len() <= 65535 - old(stream).recv_buffer.buf@.len(),
        packet.1.sequence_number == (old(stream).recv_buffer.win->0).left,
        reply_sent || !packet.1.fin,
        call_ensures(TcpStream::process, (stream, packet, reply_sent, now), outcome),
    ensures
        ({
            let data = packet.2@;
            let before = old(stream).recv_buffer.buf@;
            let after = final(stream).recv_buffer.buf@;
            let n = after.len() - before.len();
            &&& outcome.notify_reader
            &&& !outcome.stopped
            &&& n >= data.len()
            &&& after.take((before.len() + data.len()) as int) == before + data
            &&& (old(stream).recv_buffer.win->0).intervals@.len() == 0 ==> after == before + data
            &&& outcome.answer == Some(
                StreamSendThreadMsg::Ack(
                    packet.1.sequence_number.wrapping_add(n as u32),
                    (65535 - after.len()) as u16,
                ),
            )
        }),
{
    let pre = old(stream).recv_buffer;
    let post = final(stream).recv_buffer;
    let data = packet.2@;
    let win = pre.win->0;
    assert(win.size() == 65535 - pre.buf@.len());
    assert(pre.handles(post, win.left, data));
    law_in_order_data_is_read_back(pre, post, data);
    let n = (post.win->0).left.wrapping_sub(win.left) as int;
    assert(post.buf@.len() == pre.buf@.len() + n);
    if win.intervals@.len() == 0 {
        if n > data.len() {
            assert(pre.held_after(win.left, data, data.len() as int));
            assert(!win.held(data.len() as int));
        }
        assert(post.buf@ =~= pre.buf@ + data);
    }
}

/// As long as the peer may send data, a segment that is out of order goes to the receive buffer as
/// well, and is answered with where the first gap is. In no other state does data change what can
/// be read.
pub proof fn law_data_goes_to_the_receive_buffer(
    stream: &mut TcpStream,
    packet: IpTcpPacket,
    reply_sent: bool,
    now: u64,
    outcome: ProcessOutcome,
)
    requires
        reply_sent || !packet.1.fin,
        call_ensures(TcpStream::process, (stream, packet, reply_sent, now), outcome),
    ensures
        match old(stream).internal.state {
            TcpStreamState::Established | TcpStreamState::FinWait1 | TcpStreamState::FinWait2 => {
                &&& outcome.notify_reader == (packet.2@.len() > 0)
                &&& packet.2@.len() > 0 ==> {
                    &&& old(stream).recv_buffer.handles(
                        final(stream).recv_buffer,
                        packet.1.sequence_number,
                        packet.2@,
                    )
                    &&& (old(stream).recv_buffer.win->0).left != (
                    old(stream).recv_buffer.win->0).right ==> outcome.answer == Some(
                        StreamSendThreadMsg::Ack(
                            (final(stream).recv_buffer.win->0).current_ack,
                            (final(stream).recv_buffer.win->0).right.wrapping_sub(
                                (final(stream).recv_buffer.win->0).left,
                            ) as u16,
                        ),
                    )
                }
                &&& packet.2@.len() == 0 ==> final(stream).recv_buffer == old(stream).recv_buffer
                    && outcome.answer is None
            },
            TcpStreamState::Listen | TcpStreamState::SynSent => {
                &&& outcome.answer is None
                &&& !outcome.notify_reader
                &&& final(stream).recv_buffer.buf == old(stream).recv_buffer.buf
            },
            _ => {
                &&& outcome.answer is None
                &&& !outcome.notify_reader
                &&& final(stream).recv_buffer == old(stream).recv_buffer
            },
        },
{
}

/// An ack of bytes in flight takes just these out of the send buffer, in every state in which we
/// may have data in flight: what comes next to be acked starts at the ack number, and the send
/// thread is woken up. The peer's window is what the packet says.
pub proof fn law_acks_are_taken(
    stream: &mut TcpStream,
    packet: IpTcpPacket,
    reply_sent: bool,
    now: u64,
    outcome: ProcessOutcome,
)
    requires
        old(stream).wf(),
        packet.1.ack,
        match old(stream).internal.state {
            TcpStreamState::Established
            | TcpStreamState::FinWait1
            | TcpStreamState::FinWait2
            | TcpStreamState::CloseWait => true,
            _ => false,
        },
        reply_sent || !packet.1.fin,
        call_ensures(TcpStream::process, (stream, packet, reply_sent, now), outcome),
    ensures
        ({
            let pre = old(stream).send_buffer;
            let post = final(stream).send_buffer;
            let ack_num = packet.1.acknowledgment_number;
            let k = ack_num.wrapping_sub(pre.window.starting_sequence) as int;
            &&& post.window.recv_window_size == packet.1.window_size
            &&& 0 < k <= pre.window.bytes_in_window ==> {
                &&& outcome.wake_send_thread
                &&& post.window.starting_sequence == ack_num
                &&& post.buf.first_sequnce_number == ack_num
                &&& post.window.bytes_in_window == pre.window.bytes_in_window - k
                &&& k <= pre.buf.data@.len() ==> post.buf.data@ == pre.buf.data@.skip(k)
                &&& k > pre.buf.data@.len() ==> post.buf.data@.len() == 0
            }
            &&& !(0 < k <= pre.window.bytes_in_window) && !pre.window.zero_window_probing ==> {
                &&& post.window.starting_sequence == pre.window.starting_sequence
                &&& post.window.bytes_in_window == pre.window.bytes_in_window
                &&& post.buf.data@ == pre.buf.data@
                &&& outcome.wake_send_thread == pre.window.fast_retry(ack_num)
            }
            &&& !(0 < k <= pre.window.bytes_in_window) && pre.window.zero_window_probing ==> {
                &&& outcome.wake_send_thread
                &&& !post.window.zero_window_probing
                &&& post.window.starting_sequence == pre.window.starting_sequence.wrapping_add(1)
                &&& pre.buf.data@.len() > 0 ==> post.buf.data@ == pre.buf.data@.skip(1)
            }
            &&& old(stream).internal.state != TcpStreamState::FinWait1 ==> post.state == pre.state
        }),
{
    let pre = old(stream).send_buffer;
    let post = final(stream).send_buffer;
    let ack_num = packet.1.acknowledgment_number;
    assert(pre.buf.data@.skip(0) =~= pre.buf.data@);
    if old(stream).takes_ack_of_fin(packet.1, reply_sent) {
        let mid = choose|mid: SendBuffer| #[trigger]
            pre.takes_ack_of_fin(mid) && mid.takes_ack(
                post,
                ack_num,
                packet.1.window_size,
                now,
                outcome.rtts@,
            );
        assert(mid.window.acked(ack_num) == pre.window.acked(ack_num));
    }
}

/// In no other state than while data may be in flight does an ack take bytes out of the send buffer.
pub proof fn law_other_states_take_no_acks(
    stream: &mut TcpStream,
    packet: IpTcpPacket,
    reply_sent: bool,
    now: u64,
    outcome: ProcessOutcome,
)
    requires
        match old(stream).internal.state {
            TcpStreamState::Established
            | TcpStreamState::FinWait1
            | TcpStreamState::FinWait2
            | TcpStreamState::CloseWait => false,
            _ => true,
        },
        call_ensures(TcpStream::process, (stream, packet, reply_sent, now), outcome),
    ensures
        final(stream).send_buffer.buf == old(stream).send_buffer.buf,
        final(stream).send_buffer.window.starting_sequence == old(stream).send_buffer.window.starting_sequence,
        final(stream).send_buffer.window.bytes_in_window == old(stream).send_buffer.window.bytes_in_window,
        outcome.rtts@.len() == 0,
        old(stream).internal.state != TcpStreamState::Listen ==> !outcome.wake_send_thread,
{
}

/// A listener that gets a syn answers it: it takes the packet's ends for its own, expects the number
/// after the syn's, and queues a syn of its own. Anything else it ignores.
pub proof fn law_listener_answers_a_syn(
    stream: &mut TcpStream,
    packet: IpTcpPacket,
    reply_sent: bool,
    now: u64,
    outcome: ProcessOutcome,
)
    requires
        old(stream).wf(),
        old(stream).internal.state == TcpStreamState::Listen,
        call_ensures(TcpStream::process, (stream, packet, reply_sent, now), outcome),
    ensures
        !outcome.stopped,
        outcome.wake_send_thread == packet.1.syn,
        !packet.1.syn ==> *final(stream) == *old(stream),
        packet.1.syn ==> {
            let expected = packet.1.sequence_number.wrapping_add(1);
            let win = final(stream).recv_buffer.win->0;
            let elems = final(stream).send_buffer.window.elems@;
            &&& final(stream).internal == (TcpStreamInternal {
                state: TcpStreamState::SynReceived,
                source_ip: Some(packet.0.destination),
                destination_ip: Some(packet.0.source),
                destination_port: Some(packet.1.source_port),
                initial_ack: Some(expected),
                last_ack: Some(expected),
                ..old(stream).internal
            })
            &&& final(stream).recv_buffer.win is Some
            &&& final(stream).recv_buffer.buf@.len() == 0
            &&& win.left == expected
            &&& win.current_ack == expected
            &&& win.right.wrapping_sub(win.left) == 65535
            &&& win.intervals@.len() == 0
            &&& final(stream).send_buffer.state == SendBufferState::SynSent
            &&& elems.len() == 1
            &&& elems[0].msg_type == WindowElementType::Syn
            &&& elems[0].time_to_retry == now
            &&& elems[0].num_retries == 0
        },
{
}

/// A connecting stream is established by a syn that acks its own, once the ack of it is sent: it
/// expects the number after the syn's, may send data, and knows the peer's window. A syn without an
/// ack crossed its own and has to be acked still.
pub proof fn law_connecting_stream_takes_a_syn(
    stream: &mut TcpStream,
    packet: IpTcpPacket,
    now: u64,
    outcome: ProcessOutcome,
)
    requires
        old(stream).wf(),
        old(stream).internal.state == TcpStreamState::SynSent,
        packet.1.syn,
        call_ensures(TcpStream::process, (stream, packet, true, now), outcome),
    ensures
        ({
            let expected = packet.1.sequence_number.wrapping_add(1);
            let win = final(stream).recv_buffer.win->0;
            &&& !outcome.stopped
            &&& final(stream).internal == (TcpStreamInternal {
                state: if packet.1.ack {
                    TcpStreamState::Established
                } else {
                    TcpStreamState::SynReceived
                },
                source_ip: if packet.1.ack {
                    old(stream).internal.source_ip
                } else {
                    Some(packet.0.destination)
                },
                initial_ack: Some(expected),
                last_ack: Some(expected),
                ..old(stream).internal
            })
            &&& final(stream).recv_buffer.win is Some
            &&& final(stream).recv_buffer.buf@.len() == 0
            &&& win.left == expected
            &&& win.current_ack == expected
            &&& win.right.wrapping_sub(win.left) == 65535
            &&& win.intervals@.len() == 0
            &&& packet.1.ack && old(stream).send_buffer.state == SendBufferState::SynSent ==> {
                &&& final(stream).send_buffer.state == SendBufferState::Ready
                &&& final(stream).send_buffer.window.recv_window_size == packet.1.window_size
                &&& final(stream).send_buffer.window.elems@.len() == 0
            }
            &&& !packet.1.ack ==> final(stream).send_buffer == old(stream).send_buffer
        }),
{
}

/// A stream that has answered a syn is established by the ack of its own, may then send data, and
/// knows the peer's window.
pub proof fn law_ack_of_our_syn_establishes(
    stream: &mut TcpStream,
    packet: IpTcpPacket,
    reply_sent: bool,
    now: u64,
    outcome: ProcessOutcome,
)
    requires
        old(stream).internal.state == TcpStreamState::SynReceived,
        call_ensures(TcpStream::process, (stream, packet, reply_sent, now), outcome),
    ensures
        !outcome.stopped,
        final(stream).recv_buffer == old(stream).recv_buffer,
        !packet.1.ack ==> final(stream).internal == old(stream).internal && final(stream).send_buffer == old(stream).send_buffer,
        packet.1.ack ==> final(stream).internal == (TcpStreamInternal {
            state: TcpStreamState::Established,
            ..old(stream).internal
        }),
        packet.1.ack && old(stream).send_buffer.state == SendBufferState::SynSent ==> {
            &&& final(stream).send_buffer.state == SendBufferState::Ready
            &&& final(stream).send_buffer.window.recv_window_size == packet.1.window_size
            &&& final(stream).send_buffer.window.elems@.len() == 0
        },
{
}

/// The peer's fin, once acked: it half-closes an established stream, crosses our own if that is not
/// acked yet, and ends the stream if it is. One that comes again changes nothing.
pub proof fn law_peer_closes(
    stream: &mut TcpStream,
    packet: IpTcpPacket,
    now: u64,
    outcome: ProcessOutcome,
)
    requires
        packet.1.fin,
        !packet.1.ack,
        call_ensures(TcpStream::process, (stream, packet, true, now), outcome),
    ensures
        !outcome.stopped,
        match old(stream).internal.state {
            TcpStreamState::Established => final(stream).internal.state
                == TcpStreamState::CloseWait,
            TcpStreamState::FinWait1 => final(stream).internal.state == TcpStreamState::Closing,
            TcpStreamState::FinWait2 => final(stream).internal.state == TcpStreamState::TimeWait,
            TcpStreamState::CloseWait
            | TcpStreamState::Closing
            | TcpStreamState::LastAck
            | TcpStreamState::TimeWait => final(stream).internal == old(stream).internal,
            _ => true,
        },
{
}

/// The same where the fin comes with an ack: the ack counts after the fin where ours was already
/// crossed or answered by it, and not before.
pub proof fn law_peer_closes_and_acks(
    stream: &mut TcpStream,
    packet: IpTcpPacket,
    now: u64,
    outcome: ProcessOutcome,
)
    requires
        packet.1.fin,
        packet.1.ack,
        call_ensures(TcpStream::process, (stream, packet, true, now), outcome),
    ensures
        !outcome.stopped,
        ({
            let acks_ours = packet.1.acknowledgment_number == old(stream).internal.next_seq;
            match old(stream).internal.state {
                TcpStreamState::Established => final(stream).internal.state
                    == TcpStreamState::CloseWait,
                TcpStreamState::FinWait1 => final(stream).internal.state
                    == TcpStreamState::Closing,
                TcpStreamState::FinWait2 => final(stream).internal.state
                    == TcpStreamState::TimeWait,
                TcpStreamState::CloseWait => final(stream).internal.state
                    == TcpStreamState::CloseWait,
                TcpStreamState::Closing => final(stream).internal.state == if acks_ours {
                    TcpStreamState::TimeWait
                } else {
                    TcpStreamState::Closing
                },
                TcpStreamState::LastAck => final(stream).internal.state == if acks_ours {
                    TcpStreamState::Closed
                } else {
                    TcpStreamState::LastAck
                },
                _ => true,
            }
        }),
{
}

/// The ack of our fin: half of the stream is closed if the peer has not closed its own, and all of
/// it otherwise. The fin is not sent again. An ack of anything else leaves the state as it is.
pub proof fn law_ack_of_our_fin(
    stream: &mut TcpStream,
    packet: IpTcpPacket,
    reply_sent: bool,
    now: u64,
    outcome: ProcessOutcome,
)
    requires
        old(stream).wf(),
        packet.1.ack,
        !packet.1.fin,
        match old(stream).internal.state {
            TcpStreamState::FinWait1 | TcpStreamState::Closing | TcpStreamState::LastAck => true,
            _ => false,
        },
        call_ensures(TcpStream::process, (stream, packet, reply_sent, now), outcome),
    ensures
        !outcome.stopped,
        packet.1.acknowledgment_number == old(stream).internal.next_seq ==> {
            &&& final(stream).internal == (TcpStreamInternal {
                state: match old(stream).internal.state {
                    TcpStreamState::FinWait1 => TcpStreamState::FinWait2,
                    TcpStreamState::Closing => TcpStreamState::TimeWait,
                    _ => TcpStreamState::Closed,
                },
                ..old(stream).internal
            })
            &&& final(stream).send_buffer.state == SendBufferState::_Closed
        },
        packet.1.acknowledgment_number != old(stream).internal.next_seq ==> {
            &&& final(stream).internal == old(stream).internal
            &&& final(stream).send_buffer.state == old(stream).send_buffer.state
        },
{
}

/// Once the handshake is over, a packet that neither closes the peer's side nor acks our fin leaves
/// everything but the buffers as it is; and whatever comes, the ends of the stream and its sequence
/// numbers stay.
pub proof fn law_data_and_acks_keep_the_state(
    stream: &mut TcpStream,
    packet: IpTcpPacket,
    reply_sent: bool,
    now: u64,
    outcome: ProcessOutcome,
)
    requires
        match old(stream).internal.state {
            TcpStreamState::Listen | TcpStreamState::SynSent | TcpStreamState::SynReceived => false,
            _ => true,
        },
        call_ensures(TcpStream::process, (stream, packet, reply_sent, now), outcome),
    ensures
        final(stream).internal == (TcpStreamInternal {
            state: final(stream).internal.state,
            ..old(stream).internal
        }),
        !packet.1.fin && !(packet.1.ack && packet.1.acknowledgment_number == old(stream).internal.next_seq) ==> final(stream).internal == old(stream).internal
            && !outcome.stopped,
        old(stream).internal.state == TcpStreamState::Established && !packet.1.fin ==> final(stream).internal == old(stream).internal && !outcome.stopped,
        old(stream).internal.state == TcpStreamState::CloseWait && !packet.1.fin ==> final(stream).internal == old(stream).internal && !outcome.stopped,
{
}

/// A fin whose ack cannot be sent ends the stream, and none of what came with it is taken.
pub proof fn law_unacked_fin_ends_the_stream(
    stream: &mut TcpStream,
    packet: IpTcpPacket,
    now: u64,
    outcome: ProcessOutcome,
)
    requires
        packet.1.fin,
        match old(stream).internal.state {
            TcpStreamState::Established
            | TcpStreamState::FinWait1
            | TcpStreamState::FinWait2
            | TcpStreamState::CloseWait
            | TcpStreamState::Closing
            | TcpStreamState::LastAck => true,
            _ => false,
        },
        call_ensures(TcpStream::process, (stream, packet, false, now), outcome),
    ensures
        outcome.stopped,
        final(stream).internal.state == TcpStreamState::Closed,
        final(stream).recv_buffer == old(stream).recv_buffer,
        final(stream).send_buffer == old(stream).send_buffer,
{
}

/// Closing an established stream, whether or not the peer has closed its side, queues a fin right
/// after all data once all of it is in the window, and has the caller wait until then. It closes a
/// stream without a peer, and can be done once only.
pub proof fn law_closing(
    stream: &mut TcpStream,
    now: u64,
    result: Result<CloseStep, SendBufferError>,
)
    requires
        call_ensures(TcpStream::close, (stream, now), result),
    ensures
        final(stream).recv_buffer == old(stream).recv_buffer,
        final(stream).send_buffer.buf == old(stream).send_buffer.buf,
        final(stream).internal == (TcpStreamInternal {
            state: final(stream).internal.state,
            ..old(stream).internal
        }),
        match old(stream).internal.state {
            TcpStreamState::Listen | TcpStreamState::SynSent => {
                &&& result == Ok::<CloseStep, SendBufferError>(CloseStep::Done)
                &&& final(stream).internal.state == TcpStreamState::Closed
            },
            TcpStreamState::SynReceived => {
                &&& result == Ok::<CloseStep, SendBufferError>(CloseStep::Done)
                &&& final(stream).internal.state == TcpStreamState::SynReceived
            },
            TcpStreamState::Established | TcpStreamState::CloseWait => match old(stream).send_buffer.state {
                SendBufferState::Ready => {
                    let before = old(stream).send_buffer.window.elems@;
                    let after = final(stream).send_buffer.window.elems@;
                    &&& result == Ok::<CloseStep, SendBufferError>(CloseStep::FinQueued)
                    &&& final(stream).internal.state == if old(stream).internal.state
                        == TcpStreamState::Established {
                        TcpStreamState::FinWait1
                    } else {
                        TcpStreamState::LastAck
                    }
                    &&& final(stream).send_buffer.state == SendBufferState::FinSent
                    &&& after.drop_last() == before
                    &&& after.last().msg_type == WindowElementType::Fin
                    &&& after.last().time_to_retry == now
                    &&& after.last().num_retries == 0
                },
                SendBufferState::FinSent | SendBufferState::_Closed => {
                    &&& result == Err::<CloseStep, SendBufferError>(
                        SendBufferError::ConnectionClosing,
                    )
                    &&& *final(stream) == *old(stream)
                },
                _ => {
                    &&& result == Ok::<CloseStep, SendBufferError>(CloseStep::Wait)
                    &&& *final(stream) == *old(stream)
                },
            },
            _ => {
                &&& result == Err::<CloseStep, SendBufferError>(
                    SendBufferError::ConnectionClosing,
                )
                &&& *final(stream) == *old(stream)
            },
        },
{
    let before = old(stream).send_buffer.window.elems@;
    let after = final(stream).send_buffer.window.elems@;
    if after.len() == before.len() + 1 {
        assert(after.drop_last() =~= before);
    }
}

/// Reading gives the first readable bytes, as many as are asked for and there, takes just these
/// away, and has the peer told of the room.
pub proof fn law_reading(
    stream: &mut TcpStream,
    num_bytes: usize,
    read: (Vec<u8>, Option<StreamSendThreadMsg>),
)
    requires
        old(stream).wf(),
        old(stream).recv_buffer.win is Some,
        call_ensures(TcpStream::recv, (stream, num_bytes), read),
    ensures
        read.0@ + final(stream).recv_buffer.buf@ == old(stream).recv_buffer.buf@,
        read.0@.len() == num_bytes || (read.0@.len() < num_bytes && final(stream).recv_buffer.buf@.len() == 0),
        (final(stream).recv_buffer.win->0).current_ack == (
        old(stream).recv_buffer.win->0).current_ack,
        final(stream).internal == old(stream).internal,
        final(stream).send_buffer == old(stream).send_buffer,
        read.1 == if read.0@.len() == 0 {
            None
        } else {
            Some(
                StreamSendThreadMsg::UpdateWindowSize(
                    (65535 - final(stream).recv_buffer.buf@.len()) as u16,
                ),
            )
        },
{
    let before = old(stream).recv_buffer.buf@;
    let after = final(stream).recv_buffer.buf@;
    assert(read.0@ + after =~= before);
    assert((final(stream).recv_buffer.win->0).size() == 65535 - after.len());
}

/// Data can be written once the connection is established and until it is closed: as much of it as
/// there is room for is appended to what was written before.
pub proof fn law_writing(
    stream: &mut TcpStream,
    data: &[u8],
    result: Result<Option<usize>, SendBufferError>,
)
    requires
        old(stream).wf(),
        call_ensures(TcpStream::send, (stream, data), result),
    ensures
        final(stream).internal == old(stream).internal,
        final(stream).recv_buffer == old(stream).recv_buffer,
        final(stream).send_buffer.window == old(stream).send_buffer.window,
        match old(stream).send_buffer.state {
            SendBufferState::Init | SendBufferState::SynSent => {
                &&& result == Ok::<Option<usize>, SendBufferError>(None)
                &&& *final(stream) == *old(stream)
            },
            SendBufferState::Ready | SendBufferState::Queueing => {
                let before = old(stream).send_buffer.buf.data@;
                let after = final(stream).send_buffer.buf.data@;
                &&& result == Ok::<Option<usize>, SendBufferError>(
                    Some((after.len() - before.len()) as usize),
                )
                &&& final(stream).send_buffer.state == SendBufferState::Queueing
                &&& before.len() <= after.len() <= 65535
                &&& after == before + data@.take(after.len() - before.len())
                &&& after.len() - before.len() < data@.len() ==> after.len() == 65535
            },
            SendBufferState::FinSent | SendBufferState::_Closed => {
                &&& result == Err::<Option<usize>, SendBufferError>(
                    SendBufferError::ConnectionClosing,
                )
                &&& *final(stream) == *old(stream)
            },
        },
{
}

/// A connecting stream asks for its syn to be sent the first time that its send buffer is run, and
/// names the ends that it was given.
pub proof fn law_connecting_sends_a_syn(
    source_ip: Ipv4Addr,
    source_port: Port,
    destination_ip: Ipv4Addr,
    destination_port: Port,
    socket_id: SocketId,
    congestion_control: CongestionControlStrategy,
    now: u64,
    stream: TcpStream,
    later: u64,
    post: SendBuffer,
    step: SendStep,
)
    requires
        call_ensures(
            TcpStream::connect,
            (
                source_ip,
                source_port,
                destination_ip,
                destination_port,
                socket_id,
                congestion_control,
                now,
            ),
            stream,
        ),
        now <= later,
        stream.send_buffer.runs(post, later, step),
    ensures
        stream.internal.state == TcpStreamState::SynSent,
        stream.internal.source_ip == Some(source_ip),
        stream.internal.source_port == source_port,
        stream.internal.destination_ip == Some(destination_ip),
        stream.internal.destination_port == Some(destination_port),
        stream.internal.socket_id == socket_id,
        stream.internal.next_seq == stream.internal.initial_sequence_number.wrapping_add(1),
        stream.send_buffer.window.starting_sequence == stream.internal.next_seq,
        stream.send_buffer.window.max_size == match congestion_control {
            CongestionControlStrategy::No => 7040usize,
            CongestionControlStrategy::Reno(_) => 1408usize,
        },
        stream.send_buffer.window.congestion_control is Reno <==> congestion_control is Reno,
        step.messages@.len() == 1,
        step.messages@[0] is Syn,
        !step.stopped,
{
    let elems = stream.send_buffer.window.elems@;
    let sent = msgs_view(step.messages@);
    assert(first_due(elems, later, 0));
    let i = choose|i: int|
        #![trigger stream.send_buffer.window.elems@[i]]
        {
            let elem = stream.send_buffer.window.elems@[i];
            let msg = stream.send_buffer.window.retry_msg(stream.send_buffer.buf, i);
            &&& first_due(stream.send_buffer.window.elems@, later, i)
            &&& step.stopped == (elem.num_retries == MAX_RETRIES)
            &&& if step.stopped {
                &&& sent == seq![msg, SendThreadMsg::Shutdown]
                &&& stream.send_buffer.after_retry(post, later, i)
            } else {
                &&& sent.len() > 0
                &&& sent[0] == msg
                &&& exists|mid: SendBuffer| #[trigger]
                    stream.send_buffer.after_retry(mid, later, i) && mid.sends_new(
                        post,
                        later,
                        sent.skip(1),
                        elem.msg_type == WindowElementType::Data,
                    )
            }
        };
    assert(i == 0);
    assert(sent[0] == step.messages@[0]@);
    let mid = choose|mid: SendBuffer| #[trigger]
        stream.send_buffer.after_retry(mid, later, i) && mid.sends_new(
            post,
            later,
            sent.skip(1),
            false,
        );
    assert(mid.unsent() == 0);
    assert(mid.segment_msgs(0).len() == 0);
    assert(sent.skip(1).len() == 0);
}

/// A stream that has ended, or waits to be sure that it has, is left alone by whatever comes.
pub proof fn law_ended_streams_ignore_packets(
    stream: &mut TcpStream,
    packet: IpTcpPacket,
    reply_sent: bool,
    now: u64,
    outcome: ProcessOutcome,
)
    requires
        old(stream).internal.state == TcpStreamState::TimeWait || old(stream).internal.state
            == TcpStreamState::Closed,
        call_ensures(TcpStream::process, (stream, packet, reply_sent, now), outcome),
    ensures
        *final(stream) == *old(stream),
        outcome.answer is None,
        !outcome.wake_send_thread,
        !outcome.notify_reader,
        !outcome.stopped,
        outcome.rtts@.len() == 0,
{
}

/// A connecting stream goes on connecting as long as no syn comes, or the ack of one that acks its
/// own cannot be sent. It is closed if the ack of one that crossed its own cannot be sent.
pub proof fn law_connecting_stream_waits(
    stream: &mut TcpStream,
    packet: IpTcpPacket,
    reply_sent: bool,
    now: u64,
    outcome: ProcessOutcome,
)
    requires
        old(stream).internal.state == TcpStreamState::SynSent,
        !packet.1.syn || !reply_sent,
        call_ensures(TcpStream::process, (stream, packet, reply_sent, now), outcome),
    ensures
        !outcome.stopped,
        final(stream).internal.state == if packet.1.syn && !packet.1.ack {
            TcpStreamState::Closed
        } else {
            TcpStreamState::SynSent
        },
        !packet.1.syn ==> {
            &&& final(stream).send_buffer == old(stream).send_buffer
            &&& final(stream).recv_buffer == old(stream).recv_buffer
        },
{
}

/// The windows of a stream: the room that its peer may fill, the room that the peer has told of, and
/// how much more we are willing to have in flight.
pub proof fn law_windows_are_told(stream: &TcpStream, sizes: Option<(u16, u16, u16)>)
    requires
        stream.wf(),
        call_ensures(TcpStream::window_size, (stream,), sizes),
    ensures
        sizes is Some <==> stream.recv_buffer.win is Some,
        sizes is Some ==> {
            let window = stream.send_buffer.window;
            &&& (sizes->0).0 == 65535 - stream.recv_buffer.buf@.len()
            &&& (sizes->0).1 == window.recv_window_size
            &&& window.bytes_in_window <= window.max_size <= 65535 ==> (sizes->0).2
                == window.max_size - window.bytes_in_window
            &&& window.max_size < window.bytes_in_window ==> (sizes->0).2 == 0
        },
{
}

/// A packet can be processed unless it is an ack that the congestion control has no room to count;
/// without congestion control, and where the ack is not taken, it always can.
pub proof fn law_what_can_be_processed(
    stream: &TcpStream,
    header: &TcpHeader,
    reply_sent: bool,
    can: bool,
)
    requires
        call_ensures(TcpStream::can_process, (stream, header, reply_sent), can),
    ensures
        !header.ack ==> can,
        header.fin && !reply_sent ==> can,
        stream.send_buffer.window.congestion_control == CongestionControlStrategy::No ==> can,
        match stream.internal.state {
            TcpStreamState::Established
            | TcpStreamState::FinWait1
            | TcpStreamState::FinWait2
            | TcpStreamState::CloseWait => true,
            _ => can,
        },
        stream.send_buffer.window.congestion_control matches CongestionControlStrategy::Reno(info)
            ==> (info.dup_ack_count < 255 && info.curr_window_size <= 45056 ==> can),
{
}

proof fn lemma_syn_states()
    ensures
        VALID_SYN_STATES@.contains(TcpStreamState::Listen),
        VALID_SYN_STATES@.contains(TcpStreamState::SynReceived),
        VALID_SYN_STATES@.contains(TcpStreamState::SynSent),
{
    assert(VALID_SYN_STATES@[0] == TcpStreamState::Listen);
    assert(VALID_SYN_STATES@[1] == TcpStreamState::SynReceived);
    assert(VALID_SYN_STATES@[2] == TcpStreamState::SynSent);
}

/// No state in which data, an ack or a fin is sent is one without a peer, and data is sent in none
/// without an ack number.
proof fn lemma_live_states()
    ensures
        !VALID_SEND_STATES@.contains(TcpStreamState::Listen),
        !VALID_SEND_STATES@.contains(TcpStreamState::SynSent),
        !VALID_SEND_STATES@.contains(TcpStreamState::Closed),
        !VALID_ACK_STATES@.contains(TcpStreamState::Listen),
        !VALID_ACK_STATES@.contains(TcpStreamState::Closed),
        !VALID_FIN_STATES@.contains(TcpStreamState::Listen),
        !VALID_FIN_STATES@.contains(TcpStreamState::Closed),
{
}

/// The states in which acks are sent.
proof fn lemma_ack_states()
    ensures
        VALID_ACK_STATES@.contains(TcpStreamState::SynSent),
        VALID_ACK_STATES@.contains(TcpStreamState::FinWait1),
        VALID_ACK_STATES@.contains(TcpStreamState::FinWait2),
        VALID_ACK_STATES@.contains(TcpStreamState::CloseWait),
        VALID_ACK_STATES@.contains(TcpStreamState::Established),
{
    assert(VALID_ACK_STATES@[0] == TcpStreamState::SynSent);
    assert(VALID_ACK_STATES@[1] == TcpStreamState::FinWait1);
    assert(VALID_ACK_STATES@[2] == TcpStreamState::FinWait2);
    assert(VALID_ACK_STATES@[3] == TcpStreamState::CloseWait);
    assert(VALID_ACK_STATES@[4] == TcpStreamState::Established);
}

} // verus!
