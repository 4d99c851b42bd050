//! TCP headers as plain values, and their form on the wire.

use vstd::prelude::*;

use crate::ip::ip_packet::{default_packet, IpPacket, PacketParts};
use crate::ip::protocol::Protocol;
use crate::ip::{addr_octets, be_u16, be_u32, law_octets_round_trip, Ipv4Addr};

verus! {

/// The part of an IPv4 header that TCP looks at.
#[derive(Debug, Clone, Copy, PartialEq, Eq, Structural)]
pub struct Ipv4Header {
    pub source: Ipv4Addr,
    pub destination: Ipv4Addr,
}

/// The part of a TCP header that streams look at.
#[derive(Debug, Clone, Copy, PartialEq, Eq, Structural)]
pub struct TcpHeader {
    pub source_port: u16,
    pub destination_port: u16,
    pub sequence_number: u32,
    pub acknowledgment_number: u32,
    pub fin: bool,
    pub syn: bool,
    pub ack: bool,
    pub window_size: u16,
    pub checksum: u16,
}

pub type TcpPacket = (TcpHeader, Vec<u8>);

pub type IpTcpPacket = (Ipv4Header, TcpHeader, Vec<u8>);

#[verifier::external_type_specification]
#[verifier::external_body]
pub struct ExReadError(etherparse::ReadError);

/// The error for a packet whose data is no TCP segment.
#[derive(Debug, Clone, Copy, PartialEq, Eq, Structural)]
pub struct MalformedTcpHeader;

/// The two bytes of a number, the more significant one first.
pub open spec fn u16_bytes(n: u16) -> Seq<u8> {
    seq![(n / 256) as u8, (n % 256) as u8]
}

/// The byte that holds the flags.
pub open spec fn flags_byte(header: TcpHeader) -> u8 {
    ((if header.fin {
        1int
    } else {
        0
    }) + (if header.syn {
        2int
    } else {
        0
    }) + (if header.ack {
        16int
    } else {
        0
    })) as u8
}

/// A header without options as it goes over the network.
pub open spec fn tcp_header_bytes(header: TcpHeader) -> Seq<u8> {
    u16_bytes(header.source_port) + u16_bytes(header.destination_port) + addr_octets(
        header.sequence_number,
    ) + addr_octets(header.acknowledgment_number) + seq![0x50, flags_byte(header)] + u16_bytes(
        header.window_size,
    ) + u16_bytes(header.checksum) + seq![0, 0]
}

/// What `bytes` hold as a TCP segment: the header and the bytes after it and its options. None if
/// they are too few or the header claims to be shorter than a header is.
pub open spec fn parse_tcp(bytes: Seq<u8>) -> Option<(TcpHeader, Seq<u8>)> {
    let header_len = 4 * (bytes[12] / 16);
    if bytes.len() < 20 || header_len < 20 || bytes.len() < header_len {
        None
    } else {
        Some(
            (
                TcpHeader {
                    source_port: be_u16(bytes, 0),
                    destination_port: be_u16(bytes, 2),
                    sequence_number: be_u32(bytes, 4),
                    acknowledgment_number: be_u32(bytes, 8),
                    fin: bytes[13] % 2 == 1,
                    syn: bytes[13] / 2 % 2 == 1,
                    ack: bytes[13] / 16 % 2 == 1,
                    window_size: be_u16(bytes, 14),
                    checksum: be_u16(bytes, 16),
                },
                bytes.skip(header_len),
            ),
        )
    }
}

/// The addresses in an IPv4 header. None if the header is cut short, is of another version, or
/// claims a length of its own or of the packet that cannot be.
pub open spec fn parse_ipv4(bytes: Seq<u8>) -> Option<Ipv4Header> {
    let header_len = 4 * (bytes[0] % 16);
    if bytes.len() < 20 || bytes[0] / 16 != 4 || header_len < 20 || bytes.len() < header_len
        || be_u16(bytes, 2) < header_len {
        None
    } else {
        Some(Ipv4Header { source: be_u32(bytes, 12), destination: be_u32(bytes, 16) })
    }
}

/// The sum of the 16-bit numbers that the bytes hold, the more significant byte first. A last byte
/// without a partner counts as if a zero followed it.
pub open spec fn sum_of_words(bytes: Seq<u8>) -> int
    decreases bytes.len(),
{
    if bytes.len() == 0 {
        0
    } else if bytes.len() == 1 {
        256 * bytes[0]
    } else {
        256 * bytes[0] + bytes[1] + sum_of_words(bytes.skip(2))
    }
}

/// The TCP checksum of a segment without options between two addresses: the complement of the sum
/// of the addresses, the protocol number 6, the segment's length, the header with no checksum in it,
/// and the payload. Carries out of the upper end of the sum are added back at its lower end, which
/// leaves a sum over zero at its remainder by 0xffff, with 0xffff in place of zero.
pub open spec fn tcp_checksum(
    source: Ipv4Addr,
    destination: Ipv4Addr,
    header: TcpHeader,
    payload: Seq<u8>,
) -> u16 {
    let pseudo_header = addr_octets(source) + addr_octets(destination) + seq![0, 6] + u16_bytes(
        (20 + payload.len()) as u16,
    );
    let segment = tcp_header_bytes(TcpHeader { checksum: 0, ..header }) + payload;
    let sum = sum_of_words(pseudo_header + segment);
    (0xffff - (1 + (sum - 1) % 0xffff)) as u16
}

/// `etherparse::Ipv4Header::from_slice`: succeeds on the headers that `parse_ipv4` accepts and then
/// gives the two addresses that stand in them. Which error comes otherwise is left open.
#[verifier::external_body]
fn read_ipv4_header(bytes: &[u8]) -> (result: Result<Ipv4Header, etherparse::ReadError>)
    ensures
        result is Ok <==> parse_ipv4(bytes@) is Some,
        result is Ok ==> parse_ipv4(bytes@) == Some(result->Ok_0),
{
    let (header, _) = etherparse::Ipv4Header::from_slice(bytes)?;
    Ok(
        Ipv4Header {
            source: u32::from_be_bytes(header.source),
            destination: u32::from_be_bytes(header.destination),
        },
    )
}

/// `etherparse::TcpHeader::from_slice`: succeeds on the bytes that `parse_tcp` accepts and then
/// gives the header's fields and what follows the header. Which error comes otherwise is left open.
#[verifier::external_body]
fn read_tcp_header(bytes: &[u8]) -> (result: Result<TcpPacket, etherparse::ReadError>)
    ensures
        result is Ok <==> parse_tcp(bytes@) is Some,
        result is Ok ==> parse_tcp(bytes@) == Some(((result->Ok_0).0, (result->Ok_0).1@)),
{
    let (header, rest) = etherparse::TcpHeader::from_slice(bytes)?;
    let header = TcpHeader {
        source_port: header.source_port,
        destination_port: header.destination_port,
        sequence_number: header.sequence_number,
        acknowledgment_number: header.acknowledgment_number,
        fin: header.fin,
        syn: header.syn,
        ack: header.ack,
        window_size: header.window_size,
        checksum: header.checksum,
    };
    Ok((header, rest.to_vec()))
}

/// `etherparse::TcpHeader::write` into a vector, which does not fail: the header's 20 bytes, with
/// no options and every flag and field that `TcpHeader` does not have left zero.
#[verifier::external_body]
fn write_tcp_header(header: &TcpHeader) -> (bytes: Vec<u8>)
    ensures
        bytes@ == tcp_header_bytes(*header),
{
    let mut out = etherparse::TcpHeader::new(
        header.source_port,
        header.destination_port,
        header.sequence_number,
        header.window_size,
    );
    out.acknowledgment_number = header.acknowledgment_number;
    (out.fin, out.syn, out.ack) = (header.fin, header.syn, header.ack);
    out.checksum = header.checksum;
    let mut bytes = Vec::new();
    out.write(&mut bytes).unwrap();
    bytes
}

/// `etherparse::TcpHeader::calc_checksum_ipv4_raw`, which `calc_checksum_ipv4` forwards to: the
/// checksum for the two addresses, the header's fields other than the checksum, and the payload. It
/// exists where the segment's length fits into 16 bits.
#[verifier::external_body]
fn calc_tcp_checksum(
    header: &TcpHeader,
    source: Ipv4Addr,
    destination: Ipv4Addr,
    payload: &[u8],
) -> (checksum: u16)
    requires
        20 + payload@.len() <= 65535,
    ensures
        checksum == tcp_checksum(source, destination, *header, payload@),
{
    let mut out = etherparse::TcpHeader::new(
        header.source_port,
        header.destination_port,
        header.sequence_number,
        header.window_size,
    );
    out.acknowledgment_number = header.acknowledgment_number;
    (out.fin, out.syn, out.ack) = (header.fin, header.syn, header.ack);
    out.calc_checksum_ipv4_raw(source.to_be_bytes(), destination.to_be_bytes(), payload).unwrap()
}

impl TcpHeader {
    /// A header with no flags set that acks nothing.
    pub fn new(
        source_port: u16,
        destination_port: u16,
        sequence_number: u32,
        window_size: u16,
    ) -> (header: TcpHeader)
        ensures
            header == (TcpHeader {
                source_port,
                destination_port,
                sequence_number,
                acknowledgment_number: 0,
                fin: false,
                syn: false,
                ack: false,
                window_size,
                checksum: 0,
            }),
    {
        TcpHeader {
            source_port,
            destination_port,
            sequence_number,
            acknowledgment_number: 0,
            fin: false,
            syn: false,
            ack: false,
            window_size,
            checksum: 0,
        }
    }

    /// The header with the checksum for `payload` between two addresses.
    pub open spec fn with_checksum(
        self,
        source: Ipv4Addr,
        destination: Ipv4Addr,
        payload: Seq<u8>,
    ) -> TcpHeader {
        TcpHeader { checksum: tcp_checksum(source, destination, self, payload), ..self }
    }
}

/// What a packet holds as a TCP segment between the packet's two addresses.
pub open spec fn tcp_of(packet: PacketParts) -> Option<(Ipv4Header, TcpHeader, Seq<u8>)> {
    match parse_tcp(packet.data) {
        Some((header, data)) => Some(
            (
                Ipv4Header { source: packet.source(), destination: packet.destination() },
                header,
                data,
            ),
        ),
        None => None,
    }
}

/// Takes the TCP segment out of a packet.
pub fn parse_tcp_packet(packet: &IpPacket) -> (result: Result<IpTcpPacket, MalformedTcpHeader>)
    requires
        packet@.wf(),
        packet@.header[0] / 16 == 4,
    ensures
        match result {
            Ok((ip_header, tcp_header, data)) => tcp_of(packet@) == Some(
                (ip_header, tcp_header, data@),
            ),
            Err(_) => tcp_of(packet@) is None,
        },
{
    let header_bytes = packet.header();
    proof {
        assert(header_bytes@[0] == packet@.header[0]);
        assert(header_bytes@[2] == packet@.header[2]);
        assert(header_bytes@[3] == packet@.header[3]);
        assert forall|i: int| 12 <= i < 20 implies #[trigger] header_bytes@[i] == packet@.header[i] by {}
    }
    let ip_header = read_ipv4_header(header_bytes.as_slice()).unwrap();
    match read_tcp_header(packet.data()) {
        Ok((tcp_header, data)) => Ok((ip_header, tcp_header, data)),
        Err(_) => Err(MalformedTcpHeader),
    }
}

/// The packet that carries a segment from one address to another.
pub open spec fn tcp_packet(
    source: Ipv4Addr,
    destination: Ipv4Addr,
    header: TcpHeader,
    data: Seq<u8>,
) -> PacketParts {
    default_packet(destination, Protocol::Tcp, tcp_header_bytes(header) + data).with_bytes(
        12,
        addr_octets(source),
    )
}

/// Makes the packet that carries a segment from one address to another. The header's checksum is
/// sent as it stands.
pub fn build_tcp_packet(
    source: Ipv4Addr,
    destination: Ipv4Addr,
    header: &TcpHeader,
    data: &[u8],
) -> (packet: IpPacket)
    requires
        40 + data@.len() <= 65535,
    ensures
        packet@ == tcp_packet(source, destination, *header, data@),
        packet@.wf(),
{
    let mut segment = write_tcp_header(header);
    segment.extend_from_slice(data);
    assert(segment@ =~= tcp_header_bytes(*header) + data@);
    let mut packet = IpPacket::new_with_defaults(
        destination,
        Protocol::Tcp,
        segment.as_slice(),
    ).unwrap();
    packet.set_source_address(source);
    packet
}

/// The checksum of a segment between two addresses.
pub fn checksum_of_segment(
    source: Ipv4Addr,
    destination: Ipv4Addr,
    header: &TcpHeader,
    data: &[u8],
) -> (checksum: u16)
    requires
        20 + data@.len() <= 65535,
    ensures
        checksum == header.with_checksum(source, destination, data@).checksum,
{
    let no_data: [u8; 0] = [];
    let mut packet = IpPacket::new_with_defaults(
        destination,
        Protocol::Tcp,
        no_data.as_slice(),
    ).unwrap();
    packet.set_source_address(source);
    let bytes = packet.pack();
    proof {
        lemma_default_packet(source, destination, no_data@, packet@);
        assert(bytes@[0] == packet@.header[0]);
        assert(bytes@[2] == packet@.header[2]);
        assert(bytes@[3] == packet@.header[3]);
        assert forall|i: int| 12 <= i < 20 implies #[trigger] bytes@[i] == packet@.header[i] by {}
    }
    let ip_header = read_ipv4_header(bytes.as_slice()).unwrap();
    calc_tcp_checksum(header, ip_header.source, ip_header.destination, data)
}

/// The addresses, the version and the lengths of a packet that carries a segment.
proof fn lemma_default_packet(
    source: Ipv4Addr,
    destination: Ipv4Addr,
    data: Seq<u8>,
    packet: PacketParts,
)
    requires
        20 + data.len() <= 65535,
        packet == default_packet(destination, Protocol::Tcp, data).with_bytes(
            12,
            addr_octets(source),
        ),
    ensures
        packet.source() == source,
        packet.destination() == destination,
        packet.header[0] == 0x45,
        be_u16(packet.header, 2) == 20 + data.len(),
        packet.header.len() == 20,
{
    assert(packet.header.subrange(12, 16) =~= addr_octets(source));
    assert(packet.header.subrange(16, 20) =~= addr_octets(destination));
    law_octets_round_trip(source, packet.header, 12);
    law_octets_round_trip(destination, packet.header, 16);
}

/// A segment without options is read back from its bytes.
pub proof fn law_tcp_header_round_trip(header: TcpHeader, data: Seq<u8>)
    ensures
        parse_tcp(tcp_header_bytes(header) + data) == Some((header, data)),
{
    let head = tcp_header_bytes(header);
    let bytes = head + data;
    assert(bytes.subrange(4, 8) =~= addr_octets(header.sequence_number));
    assert(bytes.subrange(8, 12) =~= addr_octets(header.acknowledgment_number));
    law_octets_round_trip(header.sequence_number, bytes, 4);
    law_octets_round_trip(header.acknowledgment_number, bytes, 8);
    assert(bytes.skip(20) =~= data);
    assert(bytes[12] == 0x50);
    assert(bytes[13] == flags_byte(header));
}

/// The receiver of a packet finds the addresses, the header and the data that the sender put in.
pub proof fn law_segment_round_trip(
    source: Ipv4Addr,
    destination: Ipv4Addr,
    header: TcpHeader,
    data: Seq<u8>,
)
    requires
        40 + data.len() <= 65535,
    ensures
        tcp_of(tcp_packet(source, destination, header, data)) == Some(
            (Ipv4Header { source, destination }, header, data),
        ),
{
    let segment = tcp_header_bytes(header) + data;
    let packet = tcp_packet(source, destination, header, data);
    lemma_default_packet(source, destination, segment, packet);
    law_tcp_header_round_trip(header, data);
}

/// The checksum makes up for everything else: with it the words of the addresses, the protocol
/// number, the length, the header and the data add up to nothing in ones' complement.
pub proof fn law_checksum_completes_the_sum(
    source: Ipv4Addr,
    destination: Ipv4Addr,
    header: TcpHeader,
    payload: Seq<u8>,
)
    requires
        header.checksum == 0,
        20 + payload.len() <= 65535,
    ensures
        ({
            let words = addr_octets(source) + addr_octets(destination) + seq![0u8, 6u8]
                + u16_bytes((20 + payload.len()) as u16) + (tcp_header_bytes(header) + payload);
            (sum_of_words(words) + tcp_checksum(source, destination, header, payload)) % 0xffff == 0
        }),
        tcp_checksum(source, destination, header, payload) < 0xffff,
{
    let words = addr_octets(source) + addr_octets(destination) + seq![0u8, 6u8] + u16_bytes(
        (20 + payload.len()) as u16,
    ) + (tcp_header_bytes(header) + payload);
    assert(header == TcpHeader { checksum: 0, ..header });
    let sum = sum_of_words(words);
    let rest = (sum - 1) % 0xffff;
    assert((sum + (0xffff - (1 + rest))) % 0xffff == 0) by (nonlinear_arith)
        requires
            rest == (sum - 1) % 0xffff,
    ;
}

/// A packet that was made to carry a segment is parsed into the addresses, the header and the data
/// that it was made of.
pub proof fn law_built_packets_are_parsed(
    source: Ipv4Addr,
    destination: Ipv4Addr,
    header: &TcpHeader,
    data: &[u8],
    packet: IpPacket,
    result: Result<IpTcpPacket, MalformedTcpHeader>,
)
    requires
        40 + data@.len() <= 65535,
        call_ensures(build_tcp_packet, (source, destination, header, data), packet),
        call_ensures(parse_tcp_packet, (&packet,), result),
    ensures
        result is Ok,
        (result->Ok_0).0 == (Ipv4Header { source, destination }),
        (result->Ok_0).1 == *header,
        (result->Ok_0).2@ == data@,
{
    law_segment_round_trip(source, destination, *header, data@);
}

/// Data that is too short for a header is no segment.
pub proof fn law_short_segments_are_refused(
    packet: &IpPacket,
    result: Result<IpTcpPacket, MalformedTcpHeader>,
)
    requires
        packet@.data.len() < 20 || packet@.data[12] / 16 < 5 || packet@.data.len() < 4 * (
        packet@.data[12] / 16),
        call_ensures(parse_tcp_packet, (packet,), result),
    ensures
        result is Err,
{
}

} // verus!
