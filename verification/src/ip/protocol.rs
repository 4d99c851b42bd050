use vstd::prelude::*;

verus! {

#[derive(Debug, Clone, Copy, PartialEq, Eq, Hash, Structural)]
pub enum Protocol {
    Test,
    Tcp,
    RIP,
}

/// The protocol number that is not recognized.
#[derive(Debug, Clone, Copy, PartialEq, Eq, Structural)]
pub struct UnrecognizedProtocol(pub u8);

impl Protocol {
    pub open spec fn number(self) -> u8 {
        match self {
            Protocol::Test => 0,
            Protocol::Tcp => 6,
            Protocol::RIP => 200,
        }
    }

    pub open spec fn is_number(value: u8) -> bool {
        value == 0 || value == 6 || value == 200
    }

    /// The protocol with a number.
    pub open spec fn of_number(value: u8) -> Option<Protocol> {
        if value == 0 {
            Some(Protocol::Test)
        } else if value == 6 {
            Some(Protocol::Tcp)
        } else if value == 200 {
            Some(Protocol::RIP)
        } else {
            None
        }
    }

    pub fn try_from(value: u8) -> (protocol: Result<Protocol, UnrecognizedProtocol>)
        ensures
            protocol == match Self::of_number(value) {
                Some(p) => Ok::<Protocol, UnrecognizedProtocol>(p),
                None => Err(UnrecognizedProtocol(value)),
            },
    {
        match value {
            0 => Ok(Protocol::Test),
            6 => Ok(Protocol::Tcp),
            200 => Ok(Protocol::RIP),
            other => Err(UnrecognizedProtocol(other)),
        }
    }

    pub fn into(self) -> (value: u8)
        ensures
            value == self.number(),
    {
        match self {
            Protocol::Test => 0,
            Protocol::Tcp => 6,
            Protocol::RIP => 200,
        }
    }

    pub fn to_string(&self) -> (name: String)
        ensures
            name@ == match self {
                Protocol::Test => "Test"@,
                Protocol::Tcp => "Tcp"@,
                Protocol::RIP => "RIP"@,
            },
    {
        match self {
            Protocol::Test => "Test".to_owned(),
            Protocol::Tcp => "Tcp".to_owned(),
            Protocol::RIP => "RIP".to_owned(),
        }
    }
}

/// Every protocol is recognized by its own number, and no two share one.
pub proof fn law_protocol_numbers_are_distinct(a: Protocol, b: Protocol)
    ensures
        Protocol::of_number(a.number()) == Some(a),
        Protocol::is_number(a.number()),
        a.number() == b.number() ==> a == b,
{
}

} // verus!
