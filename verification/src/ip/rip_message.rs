use vstd::prelude::*;

use super::{
    addr_octets, be_u16, be_u32, law_octets_round_trip, octet, octets, read_be_u16, read_be_u32,
};

verus! {

#[derive(Debug, Clone, Copy, PartialEq, Eq, Structural)]
pub enum RipCommand {
    Request,
    Response,
}

#[derive(Debug)]
pub struct RipMsg {
    pub command: RipCommand,
    /// Entries for the packet; triple of (cost, address, mask)
    pub entries: Vec<RipEntry>,
}

#[derive(Debug, Clone, Copy, PartialEq, Eq, Structural)]
pub struct RipEntry {
    pub cost: u8,
    pub address: u32,
    pub mask: u32,
}

pub const INFINITY_COST: u8 = 16;

/// The most entries that a message has.
pub const MAX_ENTRIES: usize = 65535;

/// Why bytes are no RIP message.
#[derive(Debug, Clone, Copy, PartialEq, Eq, Structural)]
pub enum RipError {
    /// RipMsg was less than 4 bytes
    TooShort,
    /// RipMsg does not have enough bytes for complete entry structs, only has this many
    IncompleteEntry(usize),
    /// Invalid cmd type
    InvalidCommand(u16),
    /// RipEntry was incorrect size
    EntrySize(usize),
    /// Cost exceeded 16
    CostTooHigh(u32),
}

impl RipCommand {
    pub open spec fn number(self) -> u16 {
        match self {
            RipCommand::Request => 1,
            RipCommand::Response => 2,
        }
    }
}

/// The entry that stands in `bytes` from index `at` on, if its cost is one.
pub open spec fn entry_at(bytes: Seq<u8>, at: int) -> RipEntry {
    RipEntry {
        cost: be_u32(bytes, at) as u8,
        address: be_u32(bytes, at + 4),
        mask: be_u32(bytes, at + 8),
    }
}

/// An entry as it goes over the network.
pub open spec fn entry_bytes(entry: RipEntry) -> Seq<u8> {
    addr_octets(entry.cost as u32) + addr_octets(entry.address) + addr_octets(entry.mask)
}

/// The first `n` entries as they go over the network.
pub open spec fn entries_bytes(entries: Seq<RipEntry>, n: nat) -> Seq<u8>
    decreases n,
{
    if n == 0 {
        Seq::empty()
    } else {
        entries_bytes(entries, (n - 1) as nat) + entry_bytes(entries[n - 1])
    }
}

/// The number of entries that go into a message.
pub open spec fn kept_entries(entries: Seq<RipEntry>) -> nat {
    if entries.len() <= MAX_ENTRIES {
        entries.len()
    } else {
        MAX_ENTRIES as nat
    }
}

/// A message as it goes over the network.
pub open spec fn msg_bytes(command: RipCommand, entries: Seq<RipEntry>) -> Seq<u8> {
    let n = kept_entries(entries);
    seq![0u8, command.number() as u8, (n / 256) as u8, (n % 256) as u8] + entries_bytes(entries, n)
}

/// What `bytes` hold as a message: `msg` or the error `e`. How many entries the message claims to
/// have does not matter.
pub open spec fn parses_msg(
    bytes: Seq<u8>,
    result: Result<(RipCommand, Seq<RipEntry>), RipError>,
) -> bool {
    let n = (bytes.len() - 4) / 12;
    if bytes.len() < 4 {
        result == Err::<(RipCommand, Seq<RipEntry>), RipError>(RipError::TooShort)
    } else if (bytes.len() - 4) % 12 != 0 {
        result == Err::<(RipCommand, Seq<RipEntry>), RipError>(
            RipError::IncompleteEntry(bytes.len() as usize),
        )
    } else if be_u16(bytes, 0) != 1 && be_u16(bytes, 0) != 2 {
        result == Err::<(RipCommand, Seq<RipEntry>), RipError>(
            RipError::InvalidCommand(be_u16(bytes, 0)),
        )
    } else {
        match result {
            Ok((command, entries)) => {
                &&& command.number() == be_u16(bytes, 0)
                &&& entries == Seq::new(n as nat, |i: int| entry_at(bytes, 4 + 12 * i))
                &&& forall|i: int|
                    0 <= i < n ==> be_u32(bytes, #[trigger] (4 + 12 * i)) <= INFINITY_COST
            },
            Err(e) => exists|i: int|
                {
                    &&& 0 <= i < n
                    &&& be_u32(bytes, #[trigger] (4 + 12 * i)) > INFINITY_COST
                    &&& e == RipError::CostTooHigh(be_u32(bytes, 4 + 12 * i))
                    &&& forall|j: int|
                        0 <= j < i ==> be_u32(bytes, #[trigger] (4 + 12 * j)) <= INFINITY_COST
                },
        }
    }
}

/// What `bytes` hold as a message, if they hold one.
pub open spec fn rip_parse(bytes: Seq<u8>) -> Option<(RipCommand, Seq<RipEntry>)> {
    let n = (bytes.len() - 4) / 12;
    if bytes.len() < 4 || (bytes.len() - 4) % 12 != 0 || (exists|i: int|
        0 <= i < n && be_u32(bytes, #[trigger] (4 + 12 * i)) > INFINITY_COST) {
        None
    } else if be_u16(bytes, 0) == 1 {
        Some(
            (RipCommand::Request, Seq::new(n as nat, |i: int| entry_at(bytes, 4 + 12 * i))),
        )
    } else if be_u16(bytes, 0) == 2 {
        Some(
            (RipCommand::Response, Seq::new(n as nat, |i: int| entry_at(bytes, 4 + 12 * i))),
        )
    } else {
        None
    }
}

impl RipMsg {
    pub fn unpack(bytes: &[u8]) -> (result: Result<RipMsg, RipError>)
        ensures
            match result {
                Ok(msg) => {
                    &&& parses_msg(bytes@, Ok((msg.command, msg.entries@)))
                    &&& rip_parse(bytes@) == Some((msg.command, msg.entries@))
                    &&& forall|i: int|
                        0 <= i < msg.entries@.len() ==> (#[trigger] msg.entries@[i]).cost
                            <= INFINITY_COST
                },
                Err(e) => parses_msg(bytes@, Err(e)) && rip_parse(bytes@) is None,
            },
    {
        let len: usize = bytes.len();
        let ghost all = Seq::new(
            ((len - 4) / 12) as nat,
            |k: int| entry_at(bytes@, 4 + 12 * k),
        );
        if len < 4 {
            return Err(RipError::TooShort);
        }
        if (len - 4) % 12 != 0 {
            return Err(RipError::IncompleteEntry(len));
        }
        let command = match read_be_u16(bytes, 0) {
            1 => RipCommand::Request,
            2 => RipCommand::Response,
            other => return Err(RipError::InvalidCommand(other)),
        };
        let n: usize = (len - 4) / 12;
        let mut entries: Vec<RipEntry> = Vec::new();
        let mut i: usize = 0;
        while i < n
            invariant
                i <= n,
                len == bytes@.len(),
                len >= 4,
                (len - 4) % 12 == 0,
                n == (len - 4) / 12,
                be_u16(bytes@, 0) == 1 || be_u16(bytes@, 0) == 2,
                entries@ == Seq::new(i as nat, |k: int| entry_at(bytes@, 4 + 12 * k)),
                forall|k: int|
                    0 <= k < i ==> be_u32(bytes@, #[trigger] (4 + 12 * k)) <= INFINITY_COST,
            decreases n - i,
        {
            let at: usize = 4 + 12 * i;
            let part = vstd::slice::slice_subrange(bytes, at, at + 12);
            proof {
                assert(be_u32(part@, 0) == be_u32(bytes@, 4 + 12 * i));
                assert(entry_at(part@, 0) == entry_at(bytes@, 4 + 12 * i));
            }
            match RipEntry::unpack(part) {
                Ok(entry) => entries.push(entry),
                Err(e) => return Err(e),
            }
            i += 1;
            assert(entries@ =~= Seq::new(i as nat, |k: int| entry_at(bytes@, 4 + 12 * k)));
        }
        proof {
            assert(entries@ =~= all);
            assert forall|k: int| 0 <= k < entries@.len() implies (#[trigger] entries@[k]).cost
                <= INFINITY_COST by {
                assert(be_u32(bytes@, 4 + 12 * k) <= INFINITY_COST);
            }
        }
        Ok(RipMsg { command, entries })
    }

    pub fn pack(&self) -> (bytes: Vec<u8>)
        ensures
            bytes@ == msg_bytes(self.command, self.entries@),
    {
        let n: usize = if self.entries.len() <= MAX_ENTRIES {
            self.entries.len()
        } else {
            MAX_ENTRIES
        };
        let cmd: u8 = match self.command {
            RipCommand::Request => 1,
            RipCommand::Response => 2,
        };
        let mut buffer: Vec<u8> = Vec::new();
        buffer.push(0);
        buffer.push(cmd);
        buffer.push((n / 256) as u8);
        buffer.push((n % 256) as u8);
        let ghost head = buffer@;
        let mut i: usize = 0;
        assert(buffer@ =~= head + entries_bytes(self.entries@, 0));
        while i < n
            invariant
                i <= n <= self.entries@.len(),
                buffer@ == head + entries_bytes(self.entries@, i as nat),
            decreases n - i,
        {
            let entry = self.entries[i].pack();
            buffer.extend_from_slice(entry.as_slice());
            i += 1;
            assert(buffer@ =~= head + entries_bytes(self.entries@, i as nat));
        }
        assert(buffer@ =~= msg_bytes(self.command, self.entries@));
        buffer
    }
}

impl RipEntry {
    pub fn unpack(bytes: &[u8]) -> (result: Result<RipEntry, RipError>)
        ensures
            result == if bytes@.len() != 12 {
                Err::<RipEntry, RipError>(RipError::EntrySize(bytes@.len() as usize))
            } else if be_u32(bytes@, 0) > INFINITY_COST {
                Err(RipError::CostTooHigh(be_u32(bytes@, 0)))
            } else {
                Ok(entry_at(bytes@, 0))
            },
    {
        if bytes.len() != 12 {
            return Err(RipError::EntrySize(bytes.len()));
        }
        let cost: u32 = read_be_u32(bytes, 0);
        if cost > INFINITY_COST as u32 {
            return Err(RipError::CostTooHigh(cost));
        }
        Ok(
            RipEntry {
                cost: cost as u8,
                address: read_be_u32(bytes, 4),
                mask: read_be_u32(bytes, 8),
            },
        )
    }

    pub fn pack(&self) -> (bytes: Vec<u8>)
        ensures
            bytes@ == entry_bytes(*self),
    {
        let mut buffer: Vec<u8> = Vec::new();
        buffer.extend_from_slice(octets(self.cost as u32).as_slice());
        buffer.extend_from_slice(octets(self.address).as_slice());
        buffer.extend_from_slice(octets(self.mask).as_slice());
        assert(buffer@ =~= entry_bytes(*self));
        buffer
    }
}

/// The bytes of entry `i` stand in the bytes of all of them.
proof fn lemma_entries_bytes(entries: Seq<RipEntry>, n: nat, i: int)
    requires
        0 <= i < n <= entries.len(),
    ensures
        entries_bytes(entries, n).len() == 12 * n,
        entries_bytes(entries, n).subrange(12 * i, 12 * i + 12) == entry_bytes(entries[i]),
    decreases n,
{
    lemma_entries_len(entries, n);
    lemma_entries_len(entries, (n - 1) as nat);
    let bytes = entries_bytes(entries, n);
    let before = entries_bytes(entries, (n - 1) as nat);
    if i == n - 1 {
        assert(bytes.subrange(12 * i, 12 * i + 12) =~= entry_bytes(entries[i]));
    } else {
        lemma_entries_bytes(entries, (n - 1) as nat, i);
        assert(bytes.subrange(12 * i, 12 * i + 12) =~= before.subrange(12 * i, 12 * i + 12));
    }
}

proof fn lemma_entries_len(entries: Seq<RipEntry>, n: nat)
    ensures
        entries_bytes(entries, n).len() == 12 * n,
    decreases n,
{
    if n > 0 {
        lemma_entries_len(entries, (n - 1) as nat);
    }
}

/// The length of a message.
pub proof fn lemma_msg_len(command: RipCommand, entries: Seq<RipEntry>)
    ensures
        msg_bytes(command, entries).len() == 4 + 12 * kept_entries(entries),
{
    lemma_entries_len(entries, kept_entries(entries));
}

/// A message with valid costs, and with no more entries than fit, is read back from its bytes, and
/// nothing else is.
pub proof fn law_rip_round_trip(
    command: RipCommand,
    entries: Seq<RipEntry>,
    result: Result<(RipCommand, Seq<RipEntry>), RipError>,
)
    requires
        entries.len() <= MAX_ENTRIES,
        forall|i: int| 0 <= i < entries.len() ==> (#[trigger] entries[i]).cost <= INFINITY_COST,
    ensures
        parses_msg(msg_bytes(command, entries), result) <==> result == Ok::<
            (RipCommand, Seq<RipEntry>),
            RipError,
        >((command, entries)),
        rip_parse(msg_bytes(command, entries)) == Some((command, entries)),
{
    let n = entries.len();
    let bytes = msg_bytes(command, entries);
    let body = entries_bytes(entries, n);
    lemma_entries_len(entries, n);
    assert(bytes.len() == 4 + 12 * n);
    assert(be_u16(bytes, 0) == command.number());
    assert forall|i: int| 0 <= i < n implies {
        &&& be_u32(bytes, #[trigger] (4 + 12 * i)) == entries[i].cost
        &&& entry_at(bytes, 4 + 12 * i) == entries[i]
    } by {
        lemma_entries_bytes(entries, n, i);
        let at = 4 + 12 * i;
        let part = body.subrange(12 * i, 12 * i + 12);
        assert(bytes.subrange(at, at + 12) =~= part);
        assert(bytes.subrange(at, at + 4) =~= part.subrange(0, 4));
        assert(bytes.subrange(at + 4, at + 8) =~= part.subrange(4, 8));
        assert(bytes.subrange(at + 8, at + 12) =~= part.subrange(8, 12));
        assert(part.subrange(0, 4) =~= addr_octets(entries[i].cost as u32));
        assert(part.subrange(4, 8) =~= addr_octets(entries[i].address));
        assert(part.subrange(8, 12) =~= addr_octets(entries[i].mask));
        law_octets_round_trip(entries[i].cost as u32, bytes, at);
        law_octets_round_trip(entries[i].address, bytes, at + 4);
        law_octets_round_trip(entries[i].mask, bytes, at + 8);
    }
    let read = Seq::new(n, |i: int| entry_at(bytes, 4 + 12 * i));
    assert(read =~= entries) by {
        assert forall|i: int| 0 <= i < n implies read[i] == entries[i] by {
            assert(be_u32(bytes, 4 + 12 * i) == entries[i].cost);
        }
    }
    assert(Seq::new(((bytes.len() - 4) / 12) as nat, |i: int| entry_at(bytes, 4 + 12 * i)) =~= read);
}

/// A message on the wire: 0 and then 1 for a request or 2 for a response, the number of entries in
/// two bytes, and twelve bytes for each entry, in order: its cost, address and mask, of four bytes
/// each.
pub proof fn law_rip_layout(msg: &RipMsg, bytes: Vec<u8>, i: int)
    requires
        msg.entries@.len() <= 65535,
        call_ensures(RipMsg::pack, (msg,), bytes),
    ensures
        bytes@.len() == 4 + 12 * msg.entries@.len(),
        bytes@[0] == 0,
        bytes@[1] == match msg.command {
            RipCommand::Request => 1u8,
            RipCommand::Response => 2u8,
        },
        bytes@[2] * 256 + bytes@[3] == msg.entries@.len(),
        0 <= i < msg.entries@.len() ==> {
            let at = 4 + 12 * i;
            let entry = msg.entries@[i];
            &&& bytes@[at] == 0
            &&& bytes@[at + 1] == 0
            &&& bytes@[at + 2] == 0
            &&& bytes@[at + 3] == entry.cost
            &&& bytes@[at + 4] * 0x100_0000 + bytes@[at + 5] * 0x1_0000 + bytes@[at + 6] * 0x100
                + bytes@[at + 7] == entry.address
            &&& bytes@[at + 8] * 0x100_0000 + bytes@[at + 9] * 0x1_0000 + bytes@[at + 10] * 0x100
                + bytes@[at + 11] == entry.mask
        },
{
    let entries = msg.entries@;
    let n = entries.len();
    let body = entries_bytes(entries, n);
    lemma_entries_len(entries, n);
    if 0 <= i < n {
        lemma_entries_bytes(entries, n, i);
        lemma_entry_layout(entries[i]);
        let part = body.subrange(12 * i, 12 * i + 12);
        let at = 4 + 12 * i;
        assert(bytes@.subrange(at, at + 12) =~= part);
        assert forall|k: int| 0 <= k < 12 implies bytes@[at + k] == #[trigger] part[k] by {
            assert(bytes@.subrange(at, at + 12)[k] == bytes@[at + k]);
        }
        assert(bytes@[at + 0] == part[0]);
        assert(bytes@[at + 1] == part[1]);
        assert(bytes@[at + 2] == part[2]);
        assert(bytes@[at + 3] == part[3]);
        assert(bytes@[at + 4] == part[4]);
        assert(bytes@[at + 5] == part[5]);
        assert(bytes@[at + 6] == part[6]);
        assert(bytes@[at + 7] == part[7]);
        assert(bytes@[at + 8] == part[8]);
        assert(bytes@[at + 9] == part[9]);
        assert(bytes@[at + 10] == part[10]);
        assert(bytes@[at + 11] == part[11]);
    }
}

proof fn lemma_entry_layout(entry: RipEntry)
    ensures
        ({
            let bytes = entry_bytes(entry);
            &&& bytes.len() == 12
            &&& bytes[0] == 0
            &&& bytes[1] == 0
            &&& bytes[2] == 0
            &&& bytes[3] == entry.cost
            &&& bytes[4] * 0x100_0000 + bytes[5] * 0x1_0000 + bytes[6] * 0x100 + bytes[7]
                == entry.address
            &&& bytes[8] * 0x100_0000 + bytes[9] * 0x1_0000 + bytes[10] * 0x100 + bytes[11]
                == entry.mask
        }),
{
    let bytes = entry_bytes(entry);
    assert(bytes.subrange(4, 8) =~= addr_octets(entry.address));
    assert(bytes.subrange(8, 12) =~= addr_octets(entry.mask));
    law_octets_round_trip(entry.address, bytes, 4);
    law_octets_round_trip(entry.mask, bytes, 8);
}

/// What is read as a message: four bytes and whole entries of twelve, one of the two commands, and
/// no cost above 16. Each entry is read from its own bytes.
pub proof fn law_rip_messages_are_read(bytes: &[u8], result: Result<RipMsg, RipError>)
    requires
        call_ensures(RipMsg::unpack, (bytes,), result),
    ensures
        ({
            let n = (bytes@.len() - 4) / 12;
            &&& result is Ok <==> {
                &&& bytes@.len() >= 4
                &&& (bytes@.len() - 4) % 12 == 0
                &&& bytes@[0] == 0 && (bytes@[1] == 1 || bytes@[1] == 2)
                &&& forall|i: int| 0 <= i < n ==> be_u32(bytes@, #[trigger] (4 + 12 * i)) <= 16
            }
            &&& result is Ok ==> {
                let msg = result->Ok_0;
                &&& msg.command == if bytes@[1] == 1 {
                    RipCommand::Request
                } else {
                    RipCommand::Response
                }
                &&& msg.entries@.len() == n
                &&& forall|i: int|
                    0 <= i < n ==> (#[trigger] msg.entries@[i]) == (RipEntry {
                        cost: be_u32(bytes@, 4 + 12 * i) as u8,
                        address: be_u32(bytes@, 8 + 12 * i),
                        mask: be_u32(bytes@, 12 + 12 * i),
                    })
            }
        }),
{
    let n = (bytes@.len() - 4) / 12;
    if result is Err {
        assert(parses_msg(bytes@, Err(result->Err_0)));
        assert(rip_parse(bytes@) is None);
        if bytes@.len() >= 4 && (bytes@.len() - 4) % 12 == 0 && bytes@[0] == 0 && (bytes@[1] == 1
            || bytes@[1] == 2) {
            let i = choose|i: int|
                0 <= i < n && be_u32(bytes@, #[trigger] (4 + 12 * i)) > INFINITY_COST;
            assert(be_u32(bytes@, 4 + 12 * i) > 16);
        }
    } else {
        let msg = result->Ok_0;
        assert(parses_msg(bytes@, Ok((msg.command, msg.entries@))));
        assert(rip_parse(bytes@) == Some((msg.command, msg.entries@)));
        assert forall|i: int| 0 <= i < n implies be_u32(bytes@, #[trigger] (4 + 12 * i)) <= 16 by {}
    }
}

} // verus!
