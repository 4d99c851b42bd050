//! TCP: streams, their sliding-window buffers and the layer that dispatches packets to them.

use vstd::prelude::*;

pub mod recv_buffer;
pub mod ring_buffer;
pub mod send_buffer;
pub mod socket;
pub mod tcp_header;
pub mod tcp_internal;
pub mod tcp_layer;
pub mod tcp_listener;
pub mod tcp_stream;

verus! {

// https://www.ibm.com/docs/en/was-zos/8.5.5?topic=SS7K4U_8.5.5/com.ibm.websphere.nd.multiplatform.doc/ae/tprf_tunetcpip.html
// "The default buffer size is 8 KB. The maximum size is 8 MB (8096 KB). The optimal buffer size
// depends on several network environment factors, among them types of switches and systems,
// acknowledgment timing, error rates and network topology, memory size, and data transfer size."
pub const TCP_BUF_SIZE: usize = 65535;

/// Number of bytes that the receive window spans at most.
pub const MAX_WINDOW_SIZE: usize = 65535;

// See this thread for discussion of MTU choice
// https://stackoverflow.com/questions/2613734/maximum-packet-size-for-a-tcp-connection
pub const MTU: usize = 1408;

/// How long a packet may live in the network, in nanoseconds.
pub const MAX_SEGMENT_LIFETIME: u64 = 1_000_000_000;

pub type Port = u16;

#[derive(Debug, Copy, Clone, PartialEq, Hash, Eq, Structural)]
pub enum TcpStreamState {
    Closed,  // RFC describes CLOSED as a fictitious state, we use it internally for cleanup
    Listen,
    SynReceived,
    SynSent,
    Established,
    FinWait1,
    FinWait2,
    CloseWait,
    TimeWait,
    LastAck,
    Closing,
}

/// Note that these should be thought of as the valid states to retry sending a syn packet, which
/// is while SynSent is in there
pub const VALID_SYN_STATES: [TcpStreamState; 3] = [
    TcpStreamState::Listen,
    TcpStreamState::SynReceived,
    TcpStreamState::SynSent,
];

/// Again these are states we should be okay retrying a fin
pub const VALID_FIN_STATES: [TcpStreamState; 6] = [
    TcpStreamState::SynReceived,
    TcpStreamState::Established,
    TcpStreamState::FinWait1,  // Note there might be a race condition where FinWait2 happens
    TcpStreamState::Closing,
    TcpStreamState::CloseWait,
    TcpStreamState::LastAck,
];

pub const VALID_SEND_STATES: [TcpStreamState; 2] = [
    TcpStreamState::Established,
    TcpStreamState::CloseWait,
];

pub const VALID_RECV_STATES: [TcpStreamState; 7] = [
    TcpStreamState::Listen,
    TcpStreamState::SynSent,
    TcpStreamState::SynReceived,
    TcpStreamState::Established,
    TcpStreamState::FinWait1,
    TcpStreamState::FinWait2,
    TcpStreamState::CloseWait,
];

pub const VALID_ACK_STATES: [TcpStreamState; 5] = [
    TcpStreamState::SynSent,
    TcpStreamState::FinWait1,
    TcpStreamState::FinWait2,
    TcpStreamState::CloseWait,
    TcpStreamState::Established,
];

} // verus!
