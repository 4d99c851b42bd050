//! IP: packets, routing and the layer that forwards or delivers what arrives.

use vstd::prelude::*;

pub mod forwarding_table;
pub mod ip_layer;
pub mod ip_packet;
pub mod protocol;
pub mod rip_message;

verus! {

/// An IPv4 address; the first octet is the most significant one.
pub type Ipv4Addr = u32;

/// The `i`th octet of an address.
pub open spec fn octet(addr: Ipv4Addr, i: int) -> u8 {
    if i == 0 {
        (addr / 0x100_0000) as u8
    } else if i == 1 {
        (addr / 0x1_0000 % 0x100) as u8
    } else if i == 2 {
        (addr / 0x100 % 0x100) as u8
    } else {
        (addr % 0x100) as u8
    }
}

/// The octets of an address in order.
pub open spec fn addr_octets(addr: Ipv4Addr) -> Seq<u8> {
    seq![octet(addr, 0), octet(addr, 1), octet(addr, 2), octet(addr, 3)]
}

/// The number whose four bytes, the most significant first, stand in `bytes` from index `at` on.
pub open spec fn be_u32(bytes: Seq<u8>, at: int) -> u32 {
    (bytes[at] * 0x100_0000 + bytes[at + 1] * 0x1_0000 + bytes[at + 2] * 0x100 + bytes[at
        + 3]) as u32
}

/// The number whose two bytes, the most significant first, stand in `bytes` from index `at` on.
pub open spec fn be_u16(bytes: Seq<u8>, at: int) -> u16 {
    (bytes[at] * 0x100 + bytes[at + 1]) as u16
}

pub fn octets(addr: Ipv4Addr) -> (bytes: [u8; 4])
    ensures
        bytes@ == addr_octets(addr),
{
    let bytes: [u8; 4] = [
        (addr / 0x100_0000) as u8,
        (addr / 0x1_0000 % 0x100) as u8,
        (addr / 0x100 % 0x100) as u8,
        (addr % 0x100) as u8,
    ];
    assert(bytes@ =~= addr_octets(addr));
    bytes
}

pub fn read_be_u32(bytes: &[u8], at: usize) -> (n: u32)
    requires
        at + 4 <= bytes@.len(),
    ensures
        n == be_u32(bytes@, at as int),
{
    bytes[at] as u32 * 0x100_0000 + bytes[at + 1] as u32 * 0x1_0000 + bytes[at + 2] as u32 * 0x100
        + bytes[at + 3] as u32
}

pub fn read_be_u16(bytes: &[u8], at: usize) -> (n: u16)
    requires
        at + 2 <= bytes@.len(),
    ensures
        n == be_u16(bytes@, at as int),
{
    bytes[at] as u16 * 0x100 + bytes[at + 1] as u16
}

/// An address is read back from its octets.
pub proof fn law_octets_round_trip(addr: Ipv4Addr, bytes: Seq<u8>, at: int)
    requires
        0 <= at,
        at + 4 <= bytes.len(),
        bytes.subrange(at, at + 4) == addr_octets(addr),
    ensures
        be_u32(bytes, at) == addr,
{
    let part = bytes.subrange(at, at + 4);
    assert(part[0] == bytes[at]);
    assert(part[1] == bytes[at + 1]);
    assert(part[2] == bytes[at + 2]);
    assert(part[3] == bytes[at + 3]);
}

/// The octets of an address are its bytes from the most significant one on, and so are those of any
/// number on the wire.
pub proof fn law_octets_are_in_network_order(addr: Ipv4Addr, bytes: Seq<u8>)
    requires
        bytes.len() >= 4,
    ensures
        addr == octet(addr, 0) * 0x100_0000 + octet(addr, 1) * 0x1_0000 + octet(addr, 2) * 0x100
            + octet(addr, 3),
        addr_octets(addr) == seq![octet(addr, 0), octet(addr, 1), octet(addr, 2), octet(addr, 3)],
        be_u32(bytes, 0) == bytes[0] * 0x100_0000 + bytes[1] * 0x1_0000 + bytes[2] * 0x100
            + bytes[3],
        be_u16(bytes, 0) == bytes[0] * 0x100 + bytes[1],
{
}

} // verus!
