use vstd::prelude::*;

use super::protocol::Protocol;
use super::{
    addr_octets, be_u16, be_u32, law_octets_round_trip, octets, read_be_u32, Ipv4Addr,
};

verus! {

pub fn get_high_order_four_bits(byte: &u8) -> (bits: u8)
    ensures
        bits == *byte / 16,
{
    let b: u8 = *byte;
    assert(b >> 4 == b / 16) by (bit_vector);
    b >> 4
}

pub fn get_low_order_four_bits(byte: &u8) -> (bits: u8)
    ensures
        bits == *byte % 16,
{
    let b: u8 = *byte;
    assert(b & 0b0000_1111 == b % 16) by (bit_vector);
    b & 0b0000_1111
}

pub fn set_high_order_four_bits(byte: &mut u8, high_bits: &u8)
    requires
        *high_bits < 16,
    ensures
        *final(byte) == *high_bits * 16 + *old(byte) % 16,
{
    let b: u8 = *byte;
    let h: u8 = *high_bits;
    assert((b & 0b0000_1111) | (h << 4) == h * 16 + b % 16) by (bit_vector)
        requires
            h < 16,
    ;
    *byte = (b & 0b0000_1111) | (h << 4);
}

pub fn set_low_order_four_bits(byte: &mut u8, low_bits: &u8)
    requires
        *low_bits < 16,
    ensures
        *final(byte) == *old(byte) / 16 * 16 + *low_bits,
{
    let b: u8 = *byte;
    let l: u8 = *low_bits;
    assert((b & 0b1111_0000) | l == b / 16 * 16 + l) by (bit_vector)
        requires
            l < 16,
    ;
    *byte = (b & 0b1111_0000) | l;
}

pub fn get_high_order_byte(num: &u16) -> (byte: u8)
    ensures
        byte == *num / 256,
{
    let n: u16 = *num;
    assert(n >> 8 == n / 256) by (bit_vector);
    (n >> 8) as u8
}

pub fn get_low_order_byte(num: &u16) -> (byte: u8)
    ensures
        byte == *num % 256,
{
    let n: u16 = *num;
    assert(n & 0xffu16 == n % 256) by (bit_vector);
    (n & 0xffu16) as u8
}

pub fn convert_to_u16(higher_order: &u8, lower_order: &u8) -> (num: u16)
    ensures
        num == *higher_order * 256 + *lower_order,
{
    *higher_order as u16 * 256 + *lower_order as u16
}

/// Why a packet could not be made or read.
#[derive(Debug, Clone, Copy, PartialEq, Eq, Structural)]
pub enum IpPacketError {
    /// fragment_offset has a max value, the value was this
    FragmentOffsetTooLarge(u16),
    /// First bit of fragment flags is reserved and must be 0
    ReservedFlagSet,
    /// More options than their length can be told of
    OptionsTooLong(usize),
    /// More data than the total length can be told of
    DataTooLong(usize),
    /// Version only gets 4 bits but was set to this
    VersionTooLarge(u8),
    /// IHL only gets 4 bits but was set to this
    IhlTooLarge(u8),
    /// An ip packet must be at least 20 bytes long, the length was this
    TooShort(usize),
    /// An IHL that does not cover the mandatory header
    IhlTooSmall(u8),
    /// The header reaches past the end
    HeaderTruncated(usize),
    /// The total length reaches past the end
    DataTruncated(usize),
    /// The total length does not cover the header
    TotalLengthTooSmall(usize),
    ChecksumInvalid,
    /// option_data should be padded so that len is multiple of 4
    OptionsNotPadded,
}

#[derive(Debug, Clone, Copy, PartialEq, Eq, Structural)]
pub struct FragmentOffset {
    /// This is the second bit in the flags section of the IP header
    pub dont_fragment: bool,
    /// This is the third bit in the flags section of the IP header
    pub more_fragments: bool,
    /// really a u13
    pub fragment_offset: u16,
}

impl FragmentOffset {
    pub const MAX_FRAGMENT_OFFSET: u16 = 8191;

    pub open spec fn wf(self) -> bool {
        self.fragment_offset <= 8191
    }

    /// The two bytes that stand for the flags and the offset.
    pub open spec fn bytes(self) -> (u8, u8) {
        (
            ((if self.dont_fragment {
                64int
            } else {
                0
            }) + (if self.more_fragments {
                32int
            } else {
                0
            }) + self.fragment_offset / 256) as u8,
            (self.fragment_offset % 256) as u8,
        )
    }

    /// Creates a new FragmentOffset object and bound checks fragment_offset
    pub fn new(
        dont_fragment: bool,
        more_fragments: bool,
        fragment_offset: u16,
    ) -> (result: Result<FragmentOffset, IpPacketError>)
        ensures
            result == if fragment_offset > 8191 {
                Err::<FragmentOffset, IpPacketError>(
                    IpPacketError::FragmentOffsetTooLarge(fragment_offset),
                )
            } else {
                Ok(FragmentOffset { dont_fragment, more_fragments, fragment_offset })
            },
    {
        if fragment_offset > FragmentOffset::MAX_FRAGMENT_OFFSET {
            return Err(IpPacketError::FragmentOffsetTooLarge(fragment_offset));
        }
        Ok(FragmentOffset { dont_fragment, more_fragments, fragment_offset })
    }

    /// Takes in the bytes from a ip packet and forms a fragment offset
    pub fn unpack(high_order_byte: &u8, low_order_byte: &u8) -> (result: Result<
        FragmentOffset,
        IpPacketError,
    >)
        ensures
            *high_order_byte >= 128 ==> result == Err::<FragmentOffset, IpPacketError>(
                IpPacketError::ReservedFlagSet,
            ),
            *high_order_byte < 128 ==> result == Ok::<FragmentOffset, IpPacketError>(
                FragmentOffset {
                    dont_fragment: *high_order_byte / 64 % 2 == 1,
                    more_fragments: *high_order_byte / 32 % 2 == 1,
                    fragment_offset: (*high_order_byte % 32 * 256 + *low_order_byte) as u16,
                },
            ),
    {
        let high: u8 = *high_order_byte;
        assert((high & 0b1000_0000u8 != 0) == (high >= 128)) by (bit_vector);
        assert((high & 0b0100_0000u8 != 0) == (high / 64 % 2 == 1)) by (bit_vector);
        assert((high & 0b0010_0000u8 != 0) == (high / 32 % 2 == 1)) by (bit_vector);
        assert(high & 0b0001_1111u8 == high % 32) by (bit_vector);
        if high & 0b1000_0000u8 != 0 {
            return Err(IpPacketError::ReservedFlagSet);
        }
        let dont_fragment: bool = high & 0b0100_0000u8 != 0;
        let more_fragments: bool = high & 0b0010_0000u8 != 0;
        let high_order_offset_byte: u8 = high & 0b0001_1111u8;
        let fragment_offset: u16 = convert_to_u16(&high_order_offset_byte, low_order_byte);
        Ok(FragmentOffset { dont_fragment, more_fragments, fragment_offset })
    }

    /// Returns (high_order_byte, low_order_byte)
    pub fn to_bytes(&self) -> (bytes: (u8, u8))
        requires
            self.wf(),
        ensures
            bytes == self.bytes(),
    {
        let mut high_order_byte: u8 = 0;
        if self.dont_fragment {
            high_order_byte = high_order_byte + 0b0100_0000;
        }
        if self.more_fragments {
            high_order_byte = high_order_byte + 0b0010_0000;
        }
        high_order_byte = high_order_byte + get_high_order_byte(&self.fragment_offset);
        let low_order_byte: u8 = get_low_order_byte(&self.fragment_offset);
        (high_order_byte, low_order_byte)
    }

    /// Sets fragment offset value with bounds checking
    pub fn set_fragment_offset(&mut self, fragment_offset: u16) -> (result: Result<
        (),
        IpPacketError,
    >)
        ensures
            if fragment_offset > 8191 {
                &&& result == Err::<(), IpPacketError>(
                    IpPacketError::FragmentOffsetTooLarge(fragment_offset),
                )
                &&& *final(self) == *old(self)
            } else {
                &&& result == Ok::<(), IpPacketError>(())
                &&& *final(self) == (FragmentOffset { fragment_offset, ..*old(self) })
            },
    {
        if fragment_offset > FragmentOffset::MAX_FRAGMENT_OFFSET {
            return Err(IpPacketError::FragmentOffsetTooLarge(fragment_offset));
        }
        self.fragment_offset = fragment_offset;
        Ok(())
    }

    pub fn get_fragment_offset(&self) -> (offset: u16)
        ensures
            offset == self.fragment_offset,
    {
        self.fragment_offset
    }
}

/// A fragment offset is read back from its two bytes.
pub proof fn law_fragment_offset_round_trip(offset: FragmentOffset)
    requires
        offset.wf(),
    ensures
        ({
            let (high, low) = offset.bytes();
            &&& high < 128
            &&& offset == (FragmentOffset {
                dont_fragment: high / 64 % 2 == 1,
                more_fragments: high / 32 % 2 == 1,
                fragment_offset: (high % 32 * 256 + low) as u16,
            })
        }),
{
}

/// The length of the mandatory header.
pub const HEADER_LEN: usize = 20;

/// The time to live of our own packets.
pub const DEFAULT_TIME_TO_LIVE: u8 = 2;

/// The identifier of our own packets.
pub const DEFAULT_IDENTIFIER: u16 = 2;

/// The most option bytes that a header length of 4 bits leaves room for.
pub const MAX_OPTIONS_LEN: usize = 40;

/// The `i`th word of `bytes`, the more significant byte first.
pub open spec fn word(bytes: Seq<u8>, i: int) -> int {
    bytes[2 * i] * 256 + bytes[2 * i + 1]
}

/// The sum of the first `n` words of a header without the one that holds the checksum.
pub open spec fn header_sum(header: Seq<u8>, n: nat) -> int
    decreases n,
{
    if n == 0 {
        0
    } else if n == 6 {
        header_sum(header, 5)
    } else {
        header_sum(header, (n - 1) as nat) + word(header, n - 1)
    }
}

/// The sum of the first `n` words of the options.
pub open spec fn options_sum(options: Seq<u8>, n: nat) -> int
    decreases n,
{
    if n == 0 {
        0
    } else {
        options_sum(options, (n - 1) as nat) + word(options, n - 1)
    }
}

/// The checksum of a header with options: the sum of all words but itself.
pub open spec fn checksum(header: Seq<u8>, options: Seq<u8>) -> u16 {
    ((header_sum(header, 10) + options_sum(options, options.len() / 2)) % 0x1_0000) as u16
}

/// The header with its checksum set to the right value.
pub open spec fn sealed(header: Seq<u8>, options: Seq<u8>) -> Seq<u8> {
    let sum = checksum(header, options);
    header.update(10, (sum / 256) as u8).update(11, (sum % 256) as u8)
}

proof fn lemma_header_sum_ignores_checksum(a: Seq<u8>, b: Seq<u8>, n: nat)
    requires
        a.len() == 20,
        b.len() == 20,
        n <= 10,
        forall|i: int| 0 <= i < 20 && i != 10 && i != 11 ==> #[trigger] a[i] == b[i],
    ensures
        header_sum(a, n) == header_sum(b, n),
    decreases n,
{
    if n > 0 {
        lemma_header_sum_ignores_checksum(a, b, (n - 1) as nat);
    }
}

/// Headers that differ in the checksum only have the same checksum.
proof fn lemma_sealed_ignores_checksum(a: Seq<u8>, b: Seq<u8>, options: Seq<u8>)
    requires
        a.len() == 20,
        b.len() == 20,
        forall|i: int| 0 <= i < 20 && i != 10 && i != 11 ==> #[trigger] a[i] == b[i],
    ensures
        checksum(a, options) == checksum(b, options),
        sealed(a, options) == sealed(b, options),
        word(sealed(a, options), 5) == checksum(sealed(a, options), options),
{
    lemma_header_sum_ignores_checksum(a, b, 10);
    lemma_header_sum_ignores_checksum(a, sealed(a, options), 10);
    assert(sealed(a, options) =~= sealed(b, options));
}

/// The three parts of a packet as bytes: header, options and data.
pub struct PacketParts {
    pub header: Seq<u8>,
    pub options: Seq<u8>,
    pub data: Seq<u8>,
}

/// What `bytes` hold as an IP packet, or why they are malformed.
pub open spec fn parse_packet(bytes: Seq<u8>) -> Result<PacketParts, IpPacketError> {
    let header = bytes.take(20);
    let ihl = bytes[0] % 16;
    let header_len = 4 * ihl;
    let total_len = be_u16(bytes, 2);
    let options = bytes.subrange(20, header_len);
    if bytes.len() < 20 {
        Err(IpPacketError::TooShort(bytes.len() as usize))
    } else if ihl < 5 {
        Err(IpPacketError::IhlTooSmall(ihl as u8))
    } else if bytes.len() < header_len {
        Err(IpPacketError::HeaderTruncated(bytes.len() as usize))
    } else if bytes.len() < total_len {
        Err(IpPacketError::DataTruncated(bytes.len() as usize))
    } else if total_len < header_len {
        Err(IpPacketError::TotalLengthTooSmall(total_len as usize))
    } else if word(header, 5) != checksum(header, options) {
        Err(IpPacketError::ChecksumInvalid)
    } else {
        Ok(PacketParts { header, options, data: bytes.subrange(header_len, total_len as int) })
    }
}

/// The number of option bytes once they are padded to whole words.
pub open spec fn padded_len(options_len: int) -> int {
    (options_len + 3) / 4 * 4
}

/// The mandatory header of a new packet, with no checksum yet.
pub open spec fn new_header(
    source: Ipv4Addr,
    destination: Ipv4Addr,
    protocol: Protocol,
    time_to_live: u8,
    data_len: int,
    identifier: u16,
    options_len: int,
) -> Seq<u8> {
    let total_len = 20 + options_len + data_len;
    seq![
        (0x40 + 5 + options_len / 4) as u8,
        0,
        (total_len / 256) as u8,
        (total_len % 256) as u8,
        (identifier / 256) as u8,
        (identifier % 256) as u8,
        0x40,
        0,
        time_to_live,
        protocol.number(),
        0,
        0,
    ] + addr_octets(source) + addr_octets(destination)
}

#[derive(Debug)]
pub struct IpPacket {
    /// Contains all of the mandatory header information
    pub header: [u8; 20],
    /// Option data must have len of a multiple of 4
    pub option_data: Vec<u8>,
    /// Actual data associated with packet
    pub data: Vec<u8>,
}

impl View for IpPacket {
    type V = PacketParts;

    open spec fn view(&self) -> PacketParts {
        PacketParts { header: self.header@, options: self.option_data@, data: self.data@ }
    }
}

impl PacketParts {
    /// The packet as it goes over the network.
    pub open spec fn packed(self) -> Seq<u8> {
        self.header + self.options + self.data
    }

    /// Whether the packet is one that can be read back from its bytes.
    pub open spec fn wf(self) -> bool {
        &&& self.header.len() == 20
        &&& self.header[0] % 16 == 5 + self.options.len() / 4
        &&& self.options.len() % 4 == 0
        &&& be_u16(self.header, 2) == 20 + self.options.len() + self.data.len()
        &&& self.checksum_valid()
    }

    pub open spec fn checksum_valid(self) -> bool {
        word(self.header, 5) == checksum(self.header, self.options)
    }

    pub open spec fn source(self) -> Ipv4Addr {
        be_u32(self.header, 12)
    }

    pub open spec fn destination(self) -> Ipv4Addr {
        be_u32(self.header, 16)
    }

    /// The packet with the header's bytes from index `at` on overwritten by `bytes`, and with the
    /// checksum that then holds.
    pub open spec fn with_bytes(self, at: int, bytes: Seq<u8>) -> PacketParts {
        PacketParts {
            header: sealed(
                self.header.take(at) + bytes + self.header.skip(at + bytes.len()),
                self.options,
            ),
            ..self
        }
    }
}

impl IpPacket {
    /// Note that most getters and setters do not bounds check, so at a minimum
    /// new must make header the correct length
    #[verifier::spinoff_prover]
    #[verifier::rlimit(60)]
    pub fn new(
        source: Ipv4Addr,
        destination: Ipv4Addr,
        protocol: Protocol,
        _type_of_service: u8,
        time_to_live: u8,
        data: &[u8],
        identifier: u16,
        _dont_fragment: bool,
        option_data: &[u8],
    ) -> (result: Result<IpPacket, IpPacketError>)
        ensures
            ({
                let options_len = padded_len(option_data@.len() as int);
                match result {
                    Ok(packet) => {
                        &&& options_len <= MAX_OPTIONS_LEN
                        &&& 20 + options_len + data@.len() <= 65535
                        &&& packet@.wf()
                        &&& packet.option_data@ == option_data@ + Seq::new(
                            (options_len - option_data@.len()) as nat,
                            |i: int| 0u8,
                        )
                        &&& packet.data@ == data@
                        &&& packet.header@ == sealed(
                            new_header(
                                source,
                                destination,
                                protocol,
                                time_to_live,
                                data@.len() as int,
                                identifier,
                                options_len,
                            ),
                            packet.option_data@,
                        )
                    },
                    Err(e) => e == if option_data@.len() > 255 {
                        IpPacketError::OptionsTooLong(option_data@.len() as usize)
                    } else if options_len > MAX_OPTIONS_LEN {
                        IpPacketError::IhlTooLarge((5 + options_len / 4) as u8)
                    } else {
                        IpPacketError::DataTooLong(data@.len() as usize)
                    } && (options_len > MAX_OPTIONS_LEN || 20 + options_len + data@.len() > 65535),
                }
            }),
    {
        if option_data.len() > 255 {
            return Err(IpPacketError::OptionsTooLong(option_data.len()));
        }
        let mut padded = vstd::slice::slice_to_vec(option_data);
        let mut option_len: usize = option_data.len();
        while option_len % 4 != 0
            invariant
                option_data@.len() <= option_len <= padded_len(option_data@.len() as int) <= 256,
                padded@ == option_data@ + Seq::new(
                    (option_len - option_data@.len()) as nat,
                    |i: int| 0u8,
                ),
            decreases padded_len(option_data@.len() as int) - option_len,
        {
            padded.push(0u8);
            option_len = option_len + 1;
            assert(padded@ =~= option_data@ + Seq::new(
                (option_len - option_data@.len()) as nat,
                |i: int| 0u8,
            ));
        }
        let mut packet = IpPacket {
            header: [0u8; 20],
            option_data: padded,
            data: vstd::slice::slice_to_vec(data),
        };
        packet.set_version(4)?;
        packet.set_internet_header_length((5 + option_len / 4) as u8)?;
        if data.len() > 65535 - HEADER_LEN - option_len {
            return Err(IpPacketError::DataTooLong(data.len()));
        }
        packet.set_total_length((HEADER_LEN + option_len + data.len()) as u16);
        packet.set_identification(identifier);
        // Set flags so that our packets don't fragment
        packet.set_fragment_offset(FragmentOffset::new(true, false, 0)?);
        packet.set_time_to_live(time_to_live);
        packet.set_protocol(protocol);
        packet.set_source_address(source);
        packet.set_destination_address(destination);
        proof {
            let plain = new_header(
                source,
                destination,
                protocol,
                time_to_live,
                data@.len() as int,
                identifier,
                option_len as int,
            );
            assert forall|i: int| 0 <= i < 20 && i != 10 && i != 11 implies #[trigger]
                packet.header@[i] == plain[i] by {}
            lemma_sealed_ignores_checksum(packet.header@, plain, packet.option_data@);
            assert(packet.header@ =~= sealed(packet.header@, packet.option_data@));
        }
        Ok(packet)
    }
}

impl IpPacket {
    /// Performs full checksum calculation
    pub fn calculate_checksum(&self) -> (sum: u16)
        ensures
            sum == checksum(self.header@, self.option_data@),
    {
        let mut sum: u16 = 0;
        let mut i: usize = 0;
        while i < 10
            invariant
                i <= 10,
                sum == header_sum(self.header@, i as nat) % 0x1_0000,
            decreases 10 - i,
        {
            // the checksum itself does not count
            if i != 5 {
                sum = sum.wrapping_add(
                    convert_to_u16(&self.header[2 * i], &self.header[2 * i + 1]),
                );
            }
            i += 1;
        }
        let len: usize = self.option_data.len();
        let n: usize = len / 2;
        let ghost headers = header_sum(self.header@, 10);
        let mut j: usize = 0;
        while j < n
            invariant
                j <= n,
                len == self.option_data@.len(),
                n == len / 2,
                sum == (headers + options_sum(self.option_data@, j as nat)) % 0x1_0000,
            decreases n - j,
        {
            sum = sum.wrapping_add(
                convert_to_u16(&self.option_data[2 * j], &self.option_data[2 * j + 1]),
            );
            j += 1;
        }
        sum
    }

    pub fn validate_checksum(&self) -> (result: Result<(), IpPacketError>)
        ensures
            result == if self@.checksum_valid() {
                Ok::<(), IpPacketError>(())
            } else {
                Err(IpPacketError::ChecksumInvalid)
            },
    {
        if self.calculate_checksum() == self.header_checksum() {
            Ok(())
        } else {
            Err(IpPacketError::ChecksumInvalid)
        }
    }

    pub fn validate_options(&self) -> (result: Result<(), IpPacketError>)
        ensures
            result == if self.option_data@.len() % 4 == 0 {
                Ok::<(), IpPacketError>(())
            } else {
                Err(IpPacketError::OptionsNotPadded)
            },
    {
        if self.option_data.len() % 4 != 0 {
            return Err(IpPacketError::OptionsNotPadded);
        }
        Ok(())
    }

    /// Returns Ok(()) if the header is well formed, otherwise errors
    pub fn validate_header(&self) -> (result: Result<(), IpPacketError>)
        ensures
            result == if !self@.checksum_valid() {
                Err::<(), IpPacketError>(IpPacketError::ChecksumInvalid)
            } else if self.option_data@.len() % 4 != 0 {
                Err(IpPacketError::OptionsNotPadded)
            } else {
                Ok(())
            },
    {
        self.validate_checksum()?;
        self.validate_options()?;
        Ok(())
    }

    fn calculate_and_set_checksum(&mut self)
        ensures
            final(self)@ == (PacketParts {
                header: sealed(old(self).header@, old(self).option_data@),
                ..old(self)@
            }),
            final(self)@.checksum_valid(),
    {
        let sum: u16 = self.calculate_checksum();
        self.set_header_checksum(sum);
        proof {
            lemma_sealed_ignores_checksum(
                old(self).header@,
                old(self).header@,
                old(self).option_data@,
            );
            assert(self.header@ =~= sealed(old(self).header@, old(self).option_data@));
        }
    }

    /// Warning, checksum should always be set by other setters
    fn set_header_checksum(&mut self, sum: u16)
        ensures
            final(self).header@ == old(self).header@.update(10, (sum / 256) as u8).update(
                11,
                (sum % 256) as u8,
            ),
            final(self).option_data@ == old(self).option_data@,
            final(self).data@ == old(self).data@,
    {
        self.header[10] = get_high_order_byte(&sum);
        self.header[11] = get_low_order_byte(&sum);
    }

    /// Sets ip version number
    pub fn set_version(&mut self, version: u8) -> (result: Result<(), IpPacketError>)
        ensures
            if version >= 16 {
                &&& result == Err::<(), IpPacketError>(IpPacketError::VersionTooLarge(version))
                &&& final(self)@ == old(self)@
            } else {
                &&& result == Ok::<(), IpPacketError>(())
                &&& final(self)@ == old(self)@.with_bytes(
                    0,
                    seq![(version * 16 + old(self).header@[0] % 16) as u8],
                )
                &&& final(self)@.checksum_valid()
            },
    {
        if version >= 16 {
            return Err(IpPacketError::VersionTooLarge(version));
        }
        let mut byte: u8 = self.header[0];
        set_high_order_four_bits(&mut byte, &version);
        self.set_version_and_ihl(byte);
        Ok(())
    }

    pub fn set_internet_header_length(&mut self, ihl: u8) -> (result: Result<(), IpPacketError>)
        ensures
            if ihl >= 16 {
                &&& result == Err::<(), IpPacketError>(IpPacketError::IhlTooLarge(ihl))
                &&& final(self)@ == old(self)@
            } else {
                &&& result == Ok::<(), IpPacketError>(())
                &&& final(self)@ == old(self)@.with_bytes(
                    0,
                    seq![(old(self).header@[0] / 16 * 16 + ihl) as u8],
                )
                &&& final(self)@.checksum_valid()
            },
    {
        if ihl >= 16 {
            return Err(IpPacketError::IhlTooLarge(ihl));
        }
        let mut byte: u8 = self.header[0];
        set_low_order_four_bits(&mut byte, &ihl);
        self.set_version_and_ihl(byte);
        Ok(())
    }

    /// Sets the first byte of ip packet
    fn set_version_and_ihl(&mut self, byte: u8)
        ensures
            final(self)@ == old(self)@.with_bytes(0, seq![byte]),
            final(self)@.checksum_valid(),
    {
        self.header[0] = byte;
        assert(self.header@ =~= old(self).header@.take(0) + seq![byte] + old(self).header@.skip(1));
        self.calculate_and_set_checksum();
    }

    pub fn set_total_length(&mut self, total_length: u16)
        ensures
            final(self)@ == old(self)@.with_bytes(
                2,
                seq![(total_length / 256) as u8, (total_length % 256) as u8],
            ),
            final(self)@.checksum_valid(),
    {
        self.header[2] = get_high_order_byte(&total_length);
        self.header[3] = get_low_order_byte(&total_length);
        assert(self.header@ =~= old(self).header@.take(2) + seq![
            (total_length / 256) as u8,
            (total_length % 256) as u8,
        ] + old(self).header@.skip(4));
        self.calculate_and_set_checksum();
    }

    pub fn set_identification(&mut self, identification: u16)
        ensures
            final(self)@ == old(self)@.with_bytes(
                4,
                seq![(identification / 256) as u8, (identification % 256) as u8],
            ),
            final(self)@.checksum_valid(),
            old(self)@.wf() ==> final(self)@.wf(),
    {
        self.header[4] = get_high_order_byte(&identification);
        self.header[5] = get_low_order_byte(&identification);
        assert(self.header@ =~= old(self).header@.take(4) + seq![
            (identification / 256) as u8,
            (identification % 256) as u8,
        ] + old(self).header@.skip(6));
        self.calculate_and_set_checksum();
    }

    pub fn set_fragment_offset(&mut self, fragment_offset: FragmentOffset)
        requires
            fragment_offset.wf(),
        ensures
            final(self)@ == old(self)@.with_bytes(
                6,
                seq![fragment_offset.bytes().0, fragment_offset.bytes().1],
            ),
            final(self)@.checksum_valid(),
            old(self)@.wf() ==> final(self)@.wf(),
    {
        let (high, low) = fragment_offset.to_bytes();
        self.header[6] = high;
        self.header[7] = low;
        assert(self.header@ =~= old(self).header@.take(6) + seq![high, low] + old(
            self,
        ).header@.skip(8));
        self.calculate_and_set_checksum();
    }

    pub fn set_time_to_live(&mut self, time_to_live: u8)
        ensures
            final(self)@ == old(self)@.with_bytes(8, seq![time_to_live]),
            final(self)@.checksum_valid(),
            old(self)@.wf() ==> final(self)@.wf(),
    {
        self.header[8] = time_to_live;
        assert(self.header@ =~= old(self).header@.take(8) + seq![time_to_live] + old(
            self,
        ).header@.skip(9));
        self.calculate_and_set_checksum();
    }

    pub fn set_protocol(&mut self, protocol: Protocol)
        ensures
            final(self)@ == old(self)@.with_bytes(9, seq![protocol.number()]),
            final(self)@.checksum_valid(),
            old(self)@.wf() ==> final(self)@.wf(),
    {
        self.header[9] = protocol.into();
        assert(self.header@ =~= old(self).header@.take(9) + seq![protocol.number()] + old(
            self,
        ).header@.skip(10));
        self.calculate_and_set_checksum();
    }

    pub fn set_source_address(&mut self, source_address: Ipv4Addr)
        ensures
            final(self)@ == old(self)@.with_bytes(12, addr_octets(source_address)),
            final(self)@.checksum_valid(),
            final(self)@.source() == source_address,
            old(self)@.wf() ==> final(self)@.wf(),
    {
        let addr_bytes: [u8; 4] = octets(source_address);
        self.header[12] = addr_bytes[0];
        self.header[13] = addr_bytes[1];
        self.header[14] = addr_bytes[2];
        self.header[15] = addr_bytes[3];
        assert(self.header@ =~= old(self).header@.take(12) + addr_octets(source_address) + old(
            self,
        ).header@.skip(16));
        self.calculate_and_set_checksum();
    }

    pub fn set_destination_address(&mut self, destination_address: Ipv4Addr)
        ensures
            final(self)@ == old(self)@.with_bytes(16, addr_octets(destination_address)),
            final(self)@.checksum_valid(),
            final(self)@.destination() == destination_address,
            old(self)@.wf() ==> final(self)@.wf(),
    {
        let addr_bytes: [u8; 4] = octets(destination_address);
        self.header[16] = addr_bytes[0];
        self.header[17] = addr_bytes[1];
        self.header[18] = addr_bytes[2];
        self.header[19] = addr_bytes[3];
        assert(self.header@ =~= old(self).header@.take(16) + addr_octets(destination_address) + old(
            self,
        ).header@.skip(20));
        self.calculate_and_set_checksum();
    }

    pub fn header_checksum(&self) -> (sum: u16)
        ensures
            sum == word(self.header@, 5),
    {
        convert_to_u16(&self.header[10], &self.header[11])
    }
}

impl IpPacket {
    /// A packet with the values that all of our own packets have. Its source address is unset.
    pub fn new_with_defaults(destination: Ipv4Addr, protocol: Protocol, data: &[u8]) -> (result:
        Result<IpPacket, IpPacketError>)
        ensures
            match result {
                Ok(packet) => {
                    &&& 20 + data@.len() <= 65535
                    &&& packet@.wf()
                    &&& packet@ == default_packet(destination, protocol, data@)
                    &&& packet@.source() == 0
                    &&& packet@.destination() == destination
                },
                Err(e) => 20 + data@.len() > 65535 && e == IpPacketError::DataTooLong(
                    data@.len() as usize,
                ),
            },
    {
        let no_options: [u8; 0] = [];
        assert(padded_len(0) == 0);
        let result = IpPacket::new(
            0,
            destination,
            protocol,
            0,
            DEFAULT_TIME_TO_LIVE,
            data,
            DEFAULT_IDENTIFIER,
            true,
            no_options.as_slice(),
        );
        proof {
            if result is Ok {
                assert((result->Ok_0).option_data@ =~= Seq::<u8>::empty());
                lemma_new_header_addresses(
                    0,
                    destination,
                    protocol,
                    DEFAULT_TIME_TO_LIVE,
                    data@.len() as int,
                    DEFAULT_IDENTIFIER,
                    Seq::empty(),
                );
            }
        }
        result
    }

    /// Unpacks a byte stream into an IpPacket, returns an error if the packet is
    /// malformed.
    pub fn unpack(bytes: &[u8]) -> (result: Result<IpPacket, IpPacketError>)
        ensures
            match result {
                Ok(packet) => parse_packet(bytes@) == Ok::<PacketParts, IpPacketError>(packet@),
                Err(e) => parse_packet(bytes@) == Err::<PacketParts, IpPacketError>(e),
            },
    {
        let bytes_len: usize = bytes.len();
        if bytes_len < HEADER_LEN {
            return Err(IpPacketError::TooShort(bytes_len));
        }
        let mut packet = IpPacket {
            header: [0u8; 20],
            option_data: Vec::new(),
            data: Vec::new(),
        };
        let mut i: usize = 0;
        while i < HEADER_LEN
            invariant
                i <= 20 <= bytes@.len(),
                forall|k: int| 0 <= k < i ==> #[trigger] packet.header@[k] == bytes@[k],
            decreases 20 - i,
        {
            packet.header[i] = bytes[i];
            i += 1;
        }
        assert(packet.header@ =~= bytes@.take(20));

        let ihl: u8 = packet.internet_header_length();
        if ihl < 5 {
            return Err(IpPacketError::IhlTooSmall(ihl));
        }
        let header_length_bytes: usize = ihl as usize * 4;
        if bytes_len < header_length_bytes {
            return Err(IpPacketError::HeaderTruncated(bytes_len));
        }
        packet.option_data =
        vstd::slice::slice_to_vec(
            vstd::slice::slice_subrange(bytes, HEADER_LEN, header_length_bytes),
        );

        let total_length: usize = packet.total_length() as usize;
        if bytes_len < total_length {
            return Err(IpPacketError::DataTruncated(bytes_len));
        }
        if total_length < header_length_bytes {
            return Err(IpPacketError::TotalLengthTooSmall(total_length));
        }
        packet.data =
        vstd::slice::slice_to_vec(
            vstd::slice::slice_subrange(bytes, header_length_bytes, total_length),
        );
        packet.validate_header()?;
        Ok(packet)
    }

    /// Turn packet in bytes to be sent over network
    pub fn pack(&self) -> (bytes: Vec<u8>)
        ensures
            bytes@ == self@.packed(),
    {
        let mut res: Vec<u8> = vstd::slice::slice_to_vec(self.header.as_slice());
        res.extend_from_slice(self.option_data.as_slice());
        res.extend_from_slice(self.data.as_slice());
        assert(res@ =~= self@.packed());
        res
    }

    pub fn get_data(&self) -> (data: &[u8])
        ensures
            data@ == self@.data,
    {
        self.data.as_slice()
    }

    pub fn data(&self) -> (data: &[u8])
        ensures
            data@ == self@.data,
    {
        self.data.as_slice()
    }

    /// The mandatory header and the options.
    pub fn header(&self) -> (bytes: Vec<u8>)
        ensures
            bytes@ == self@.header + self@.options,
    {
        let mut res: Vec<u8> = vstd::slice::slice_to_vec(self.header.as_slice());
        res.extend_from_slice(self.option_data.as_slice());
        assert(res@ =~= self@.header + self@.options);
        res
    }

    pub fn version(&self) -> (version: u8)
        ensures
            version == self@.header[0] / 16,
    {
        get_high_order_four_bits(&self.header[0])
    }

    pub fn internet_header_length(&self) -> (ihl: u8)
        ensures
            ihl == self@.header[0] % 16,
    {
        get_low_order_four_bits(&self.header[0])
    }

    pub fn type_of_service(&self) -> (tos: u8)
        ensures
            tos == self@.header[1],
    {
        self.header[1]
    }

    pub fn total_length(&self) -> (len: u16)
        ensures
            len == be_u16(self@.header, 2),
    {
        convert_to_u16(&self.header[2], &self.header[3])
    }

    pub fn identification(&self) -> (id: u16)
        ensures
            id == be_u16(self@.header, 4),
    {
        convert_to_u16(&self.header[4], &self.header[5])
    }

    pub fn fragment_offset(&self) -> (offset: FragmentOffset)
        requires
            self@.header[6] < 128,
        ensures
            offset.wf(),
            offset.bytes() == (self@.header[6], self@.header[7]),
    {
        let offset = FragmentOffset::unpack(&self.header[6], &self.header[7]).unwrap();
        offset
    }

    pub fn time_to_live(&self) -> (ttl: u8)
        ensures
            ttl == self@.header[8],
    {
        self.header[8]
    }

    pub fn protocol(&self) -> (protocol: Protocol)
        requires
            Protocol::is_number(self@.header[9]),
        ensures
            protocol.number() == self@.header[9],
    {
        Protocol::try_from(self.header[9]).unwrap()
    }

    pub fn source_address(&self) -> (addr: Ipv4Addr)
        ensures
            addr == self@.source(),
    {
        read_be_u32(self.header.as_slice(), 12)
    }

    /// Whether the source address is anything but 0.0.0.0.
    pub fn source_address_set(&self) -> (set: bool)
        ensures
            set == (self@.source() != 0),
    {
        self.source_address() != 0
    }

    pub fn destination_address(&self) -> (addr: Ipv4Addr)
        ensures
            addr == self@.destination(),
    {
        read_be_u32(self.header.as_slice(), 16)
    }
}

/// The addresses of a new packet stand in its header.
proof fn lemma_new_header_addresses(
    source: Ipv4Addr,
    destination: Ipv4Addr,
    protocol: Protocol,
    time_to_live: u8,
    data_len: int,
    identifier: u16,
    options: Seq<u8>,
)
    ensures
        ({
            let header = sealed(
                new_header(
                    source,
                    destination,
                    protocol,
                    time_to_live,
                    data_len,
                    identifier,
                    options.len() as int,
                ),
                options,
            );
            be_u32(header, 12) == source && be_u32(header, 16) == destination
        }),
{
    let header = sealed(
        new_header(
            source,
            destination,
            protocol,
            time_to_live,
            data_len,
            identifier,
            options.len() as int,
        ),
        options,
    );
    assert(header.subrange(12, 16) =~= addr_octets(source));
    assert(header.subrange(16, 20) =~= addr_octets(destination));
    law_octets_round_trip(source, header, 12);
    law_octets_round_trip(destination, header, 16);
}

/// The packet that `IpPacket::new_with_defaults` makes.
pub open spec fn default_packet(
    destination: Ipv4Addr,
    protocol: Protocol,
    data: Seq<u8>,
) -> PacketParts {
    PacketParts {
        header: sealed(
            new_header(
                0,
                destination,
                protocol,
                DEFAULT_TIME_TO_LIVE,
                data.len() as int,
                DEFAULT_IDENTIFIER,
                0,
            ),
            Seq::empty(),
        ),
        options: Seq::empty(),
        data,
    }
}

/// A packet of our own names its destination and its protocol, comes from nowhere yet, lives for two
/// hops, and its header is valid.
pub proof fn law_default_packet_addresses(
    destination: Ipv4Addr,
    protocol: Protocol,
    data: Seq<u8>,
)
    ensures
        default_packet(destination, protocol, data).destination() == destination,
        default_packet(destination, protocol, data).source() == 0,
        default_packet(destination, protocol, data).header[9] == protocol.number(),
        default_packet(destination, protocol, data).header[8] == 2,
        default_packet(destination, protocol, data).data == data,
        default_packet(destination, protocol, data).options.len() == 0,
{
    lemma_new_header_addresses(
        0,
        destination,
        protocol,
        DEFAULT_TIME_TO_LIVE,
        data.len() as int,
        DEFAULT_IDENTIFIER,
        Seq::empty(),
    );
}

/// A packet is read back from its bytes.
pub proof fn law_pack_unpack(packet: PacketParts)
    requires
        packet.wf(),
    ensures
        parse_packet(packet.packed()) == Ok::<PacketParts, IpPacketError>(packet),
{
    let bytes = packet.packed();
    let header_len = 20 + packet.options.len() as int;
    assert(bytes.take(20) =~= packet.header);
    assert(bytes[0] == packet.header[0]);
    assert(bytes[2] == packet.header[2]);
    assert(bytes[3] == packet.header[3]);
    assert(bytes.subrange(20, header_len) =~= packet.options);
    assert(bytes.subrange(header_len, bytes.len() as int) =~= packet.data);
}

/// Only packets that can be packed again come out of unpacking, and they pack to the bytes that
/// they were read from, without what follows the total length.
pub proof fn law_unpack_pack(bytes: Seq<u8>)
    requires
        parse_packet(bytes) is Ok,
    ensures
        (parse_packet(bytes)->Ok_0).wf(),
        (parse_packet(bytes)->Ok_0).packed() == bytes.take(be_u16(bytes, 2) as int),
{
    let packet = parse_packet(bytes)->Ok_0;
    assert(packet.header[0] == bytes[0]);
    assert(packet.header[2] == bytes[2]);
    assert(packet.header[3] == bytes[3]);
    assert(packet.packed() =~= bytes.take(be_u16(bytes, 2) as int));
}

/// Overwriting bytes of a header changes these and the checksum only, which then holds.
pub proof fn law_overwriting_a_header(packet: PacketParts, at: int, bytes: Seq<u8>)
    requires
        packet.header.len() == 20,
        0 <= at,
        at + bytes.len() <= 20,
        at + bytes.len() <= 10 || 12 <= at,
    ensures
        ({
            let post = packet.with_bytes(at, bytes);
            &&& post.data == packet.data
            &&& post.options == packet.options
            &&& post.header.len() == 20
            &&& post.header.subrange(at, at + bytes.len()) == bytes
            &&& forall|i: int|
                0 <= i < 20 && i != 10 && i != 11 && !(at <= i < at + bytes.len()) ==> #[trigger]
                post.header[i] == packet.header[i]
            &&& post.checksum_valid()
            &&& packet.wf() && 4 <= at ==> post.wf()
        }),
{
    let post = packet.with_bytes(at, bytes);
    let plain = packet.header.take(at) + bytes + packet.header.skip(at + bytes.len());
    lemma_sealed_ignores_checksum(plain, plain, packet.options);
    assert(post.header.subrange(at, at + bytes.len()) =~= bytes);
    assert forall|i: int|
        0 <= i < 20 && i != 10 && i != 11 && !(at <= i < at + bytes.len()) implies #[trigger]
    post.header[i] == packet.header[i] by {
        assert(plain[i] == packet.header[i]);
    }
}

/// The checksum of a header is the sum of all its words but its own, and of those of the options.
pub proof fn law_checksum_is_the_sum_of_all_words(header: Seq<u8>, options: Seq<u8>)
    requires
        header.len() == 20,
    ensures
        checksum(header, options) == (256 * (header[0] + header[2] + header[4] + header[6]
            + header[8] + header[12] + header[14] + header[16] + header[18]) + header[1] + header[3]
            + header[5] + header[7] + header[9] + header[13] + header[15] + header[17] + header[19]
            + options_sum(options, options.len() / 2)) % 0x1_0000,
        options.len() == 0 ==> options_sum(options, options.len() / 2) == 0,
        options.len() == 4 ==> options_sum(options, options.len() / 2) == 256 * (options[0]
            + options[2]) + options[1] + options[3],
{
    reveal_with_fuel(header_sum, 11);
    reveal_with_fuel(options_sum, 3);
}

/// The words of the options count one by one.
pub proof fn law_options_count_word_by_word(options: Seq<u8>, high: u8, low: u8)
    requires
        options.len() % 2 == 0,
    ensures
        ({
            let longer = options.push(high).push(low);
            options_sum(longer, longer.len() / 2) == options_sum(options, options.len() / 2) + 256
                * high + low
        }),
{
    let longer = options.push(high).push(low);
    let n = (options.len() / 2) as nat;
    lemma_options_sum_prefix(options, longer, n);
    assert(longer.len() / 2 == n + 1);
    assert(word(longer, n as int) == high * 256 + low);
}

proof fn lemma_options_sum_prefix(a: Seq<u8>, b: Seq<u8>, n: nat)
    requires
        2 * n <= a.len() <= b.len(),
        forall|i: int| 0 <= i < a.len() ==> #[trigger] a[i] == b[i],
    ensures
        options_sum(a, n) == options_sum(b, n),
    decreases n,
{
    if n > 0 {
        lemma_options_sum_prefix(a, b, (n - 1) as nat);
        assert(a[2 * (n - 1)] == b[2 * (n - 1)]);
        assert(a[2 * (n - 1) + 1] == b[2 * (n - 1) + 1]);
    }
}

/// A packet of which one byte of the header was damaged on the way is not taken for valid, nor is
/// one whose checksum was.
pub proof fn law_damage_is_detected(packet: PacketParts, damaged: PacketParts, at: int)
    requires
        packet.header.len() == 20,
        damaged.header.len() == 20,
        packet.checksum_valid(),
        damaged.options == packet.options,
        0 <= at < 20,
        damaged.header[at] != packet.header[at],
        forall|i: int|
            0 <= i < 20 && i != at ==> #[trigger] damaged.header[i] == packet.header[i],
    ensures
        !damaged.checksum_valid(),
{
    let a = packet.header;
    let b = damaged.header;
    law_checksum_is_the_sum_of_all_words(a, packet.options);
    law_checksum_is_the_sum_of_all_words(b, packet.options);
    assert(b[0] == a[0] || at == 0);
    assert(b[1] == a[1] || at == 1);
    assert(b[2] == a[2] || at == 2);
    assert(b[3] == a[3] || at == 3);
    assert(b[4] == a[4] || at == 4);
    assert(b[5] == a[5] || at == 5);
    assert(b[6] == a[6] || at == 6);
    assert(b[7] == a[7] || at == 7);
    assert(b[8] == a[8] || at == 8);
    assert(b[9] == a[9] || at == 9);
    assert(b[10] == a[10] || at == 10);
    assert(b[11] == a[11] || at == 11);
    assert(b[12] == a[12] || at == 12);
    assert(b[13] == a[13] || at == 13);
    assert(b[14] == a[14] || at == 14);
    assert(b[15] == a[15] || at == 15);
    assert(b[16] == a[16] || at == 16);
    assert(b[17] == a[17] || at == 17);
    assert(b[18] == a[18] || at == 18);
    assert(b[19] == a[19] || at == 19);
}

/// What is read as a packet: at least the mandatory header, options and data as long as the header
/// says and no longer than there are bytes, and a checksum that holds. The parts are the bytes at
/// their places.
pub proof fn law_packets_are_read(bytes: &[u8], result: Result<IpPacket, IpPacketError>)
    requires
        call_ensures(IpPacket::unpack, (bytes,), result),
    ensures
        ({
            let header_len = 4 * (bytes@[0] % 16);
            let total_len = bytes@[2] * 256 + bytes@[3];
            &&& result is Ok <==> {
                &&& bytes@.len() >= 20
                &&& header_len >= 20
                &&& header_len <= total_len <= bytes@.len()
                &&& bytes@[10] * 256 + bytes@[11] == checksum(
                    bytes@.take(20),
                    bytes@.subrange(20, header_len),
                )
            }
            &&& result is Ok ==> {
                let packet = (result->Ok_0)@;
                &&& packet.header == bytes@.take(20)
                &&& packet.options == bytes@.subrange(20, header_len)
                &&& packet.data == bytes@.subrange(header_len, total_len)
            }
        }),
{
}

/// A new packet says what it was made of: IP version 4, its lengths, identifier, time to live,
/// protocol and addresses, that it must not be fragmented, and a checksum that holds. It is made
/// unless options or data are too long, and is read back from what it packs to.
pub proof fn law_new_packets(
    source: Ipv4Addr,
    destination: Ipv4Addr,
    protocol: Protocol,
    type_of_service: u8,
    time_to_live: u8,
    data: &[u8],
    identifier: u16,
    dont_fragment: bool,
    options: &[u8],
    result: Result<IpPacket, IpPacketError>,
)
    requires
        call_ensures(
            IpPacket::new,
            (
                source,
                destination,
                protocol,
                type_of_service,
                time_to_live,
                data,
                identifier,
                dont_fragment,
                options,
            ),
            result,
        ),
    ensures
        ({
            let padded = if options@.len() % 4 == 0 {
                options@.len() as int
            } else {
                options@.len() - options@.len() % 4 + 4
            };
            let packet = (result->Ok_0)@;
            &&& result is Ok <==> padded <= 40 && 20 + padded + data@.len() <= 65535
            &&& result is Ok ==> {
                &&& packet.header.len() == 20
                &&& packet.header[0] / 16 == 4
                &&& 4 * (packet.header[0] % 16) == 20 + padded
                &&& packet.header[2] * 256 + packet.header[3] == 20 + padded + data@.len()
                &&& packet.header[4] * 256 + packet.header[5] == identifier
                &&& packet.header[6] == 0x40
                &&& packet.header[7] == 0
                &&& packet.header[8] == time_to_live
                &&& packet.header[9] == match protocol {
                    Protocol::Test => 0u8,
                    Protocol::Tcp => 6,
                    Protocol::RIP => 200,
                }
                &&& packet.source() == source
                &&& packet.destination() == destination
                &&& packet.checksum_valid()
                &&& packet.data == data@
                &&& packet.options.len() == padded
                &&& packet.options.take(options@.len() as int) == options@
                &&& forall|i: int|
                    options@.len() <= i < padded ==> #[trigger] packet.options[i] == 0
                &&& parse_packet(packet.packed()) == Ok::<PacketParts, IpPacketError>(packet)
            }
        }),
{
    if result is Ok {
        let packet = result->Ok_0;
        let padded = padded_len(options@.len() as int);
        assert(packet.option_data@.take(options@.len() as int) =~= options@);
        assert(packet.option_data@.len() == padded);
        lemma_new_header_addresses(
            source,
            destination,
            protocol,
            time_to_live,
            data@.len() as int,
            identifier,
            packet.option_data@,
        );
        law_pack_unpack(packet@);
    }
}

/// Each setter sets its own field, and the getters give it back.
pub proof fn law_fields_are_set(
    packet: &mut IpPacket,
    time_to_live: u8,
    protocol: Protocol,
    identification: u16,
    total_length: u16,
    address: Ipv4Addr,
)
    requires
        call_ensures(IpPacket::set_time_to_live, (packet, time_to_live), ())
            || call_ensures(IpPacket::set_protocol, (packet, protocol), ())
            || call_ensures(IpPacket::set_identification, (packet, identification), ())
            || call_ensures(IpPacket::set_total_length, (packet, total_length), ())
            || call_ensures(IpPacket::set_source_address, (packet, address), ())
            || call_ensures(IpPacket::set_destination_address, (packet, address), ()),
    ensures
        final(packet)@.data == old(packet)@.data,
        final(packet)@.options == old(packet)@.options,
        final(packet)@.checksum_valid(),
        call_ensures(IpPacket::set_time_to_live, (packet, time_to_live), ()) ==> {
            &&& final(packet).header@[8] == time_to_live
            &&& final(packet).header@[9] == old(packet).header@[9]
            &&& final(packet)@.source() == old(packet)@.source()
            &&& final(packet)@.destination() == old(packet)@.destination()
        },
        call_ensures(IpPacket::set_protocol, (packet, protocol), ()) ==> {
            &&& final(packet).header@[9] == match protocol {
                Protocol::Test => 0u8,
                Protocol::Tcp => 6,
                Protocol::RIP => 200,
            }
            &&& final(packet).header@[8] == old(packet).header@[8]
        },
        call_ensures(IpPacket::set_identification, (packet, identification), ()) ==> final(packet).header@[4] * 256 + final(packet).header@[5] == identification,
        call_ensures(IpPacket::set_total_length, (packet, total_length), ()) ==> final(packet).header@[2] * 256 + final(packet).header@[3] == total_length,
        call_ensures(IpPacket::set_source_address, (packet, address), ()) ==> {
            &&& final(packet)@.source() == address
            &&& final(packet)@.destination() == old(packet)@.destination()
        },
        call_ensures(IpPacket::set_destination_address, (packet, address), ()) ==> {
            &&& final(packet)@.destination() == address
            &&& final(packet)@.source() == old(packet)@.source()
        },
{
}

/// A fragment offset is read from its two bytes just as it was written: the second bit says not to
/// fragment, the third that more fragments follow, and the rest is the offset. The first bit is
/// reserved.
pub proof fn law_fragment_offsets_are_read(
    offset: &FragmentOffset,
    bytes: (u8, u8),
    result: Result<FragmentOffset, IpPacketError>,
)
    requires
        offset.wf(),
        call_ensures(FragmentOffset::to_bytes, (offset,), bytes),
        call_ensures(FragmentOffset::unpack, (&bytes.0, &bytes.1), result),
    ensures
        result == Ok::<FragmentOffset, IpPacketError>(*offset),
        bytes.0 * 256 + bytes.1 == offset.fragment_offset + (if offset.dont_fragment {
            0x4000int
        } else {
            0
        }) + (if offset.more_fragments {
            0x2000int
        } else {
            0
        }),
{
    law_fragment_offset_round_trip(*offset);
}

} // verus!
