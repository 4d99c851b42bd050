//! An IPv4 host that routes with RIP and speaks TCP. Packets, routing tables, sockets and streams
//! are kept here as plain state that is advanced step by step; threads, clocks and sockets of the
//! operating system are the caller's.

pub mod ip;
pub mod link;
pub mod misc;
pub mod tcp;

pub use crate::ip::ip_packet::IpPacket;
pub use crate::link::interface::InterfaceId;
pub use crate::link::link_layer::{LinkRecvMsg, LinkSendMsg};
