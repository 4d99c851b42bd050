use vstd::prelude::*;
use vstd::string::StringExecFns;

use crate::ip::Ipv4Addr;
use crate::misc::text::{addr_string, addr_text, decimal_string, decimal_text, str_eq};

verus! {

pub type InterfaceId = usize;

/// The UDP address of a link's far end.
#[derive(Debug, Clone, Copy, PartialEq, Eq, Structural)]
pub struct LinkAddr {
    pub ip: Ipv4Addr,
    pub port: u16,
}

/// One of the addresses that a host name resolves to.
#[derive(Debug, Clone, Copy, PartialEq, Eq, Structural)]
pub enum ResolvedAddr {
    V4(LinkAddr),
    V6,
}

#[derive(Debug, PartialEq, Eq, Copy, Clone, Structural)]
pub enum State {
    UP,
    DOWN,
}

/// The error for a word that names no state.
#[derive(Debug, PartialEq, Eq, Copy, Clone, Structural)]
pub struct UnknownState;

/// The error for a link whose name resolves to no IPv4 address.
#[derive(Debug, PartialEq, Eq, Copy, Clone, Structural)]
pub struct InvalidSocketAddr;

impl State {
    /// The state that a word names.
    pub open spec fn named(input: Seq<char>) -> Option<State> {
        if input == "down"@ {
            Some(State::DOWN)
        } else if input == "up"@ {
            Some(State::UP)
        } else {
            None
        }
    }

    pub fn from_str(input: &str) -> (state: Result<State, UnknownState>)
        ensures
            state == match Self::named(input@) {
                Some(state) => Ok::<State, UnknownState>(state),
                None => Err(UnknownState),
            },
    {
        if str_eq(input, "down") {
            Ok(State::DOWN)
        } else if str_eq(input, "up") {
            Ok(State::UP)
        } else {
            Err(UnknownState)
        }
    }
}

#[derive(Debug)]
pub struct Interface {
    pub id: InterfaceId,
    pub outgoing_link: String,
    pub outgoing_link_addr: LinkAddr,
    pub our_ip: Ipv4Addr,
    pub their_ip: Ipv4Addr,
    pub state: State,
}

/// The first IPv4 address among those that a name resolves to.
pub open spec fn first_v4(resolved: Seq<ResolvedAddr>) -> Option<LinkAddr>
    decreases resolved.len(),
{
    if resolved.len() == 0 {
        None
    } else {
        match resolved[0] {
            ResolvedAddr::V4(addr) => Some(addr),
            ResolvedAddr::V6 => first_v4(resolved.skip(1)),
        }
    }
}

impl Interface {
    /// An interface that is up. `resolved` are the addresses that the link's name resolves to, of
    /// which the first IPv4 one is used.
    pub fn new(
        id: InterfaceId,
        outgoing_link: String,
        resolved: &[ResolvedAddr],
        our_ip: Ipv4Addr,
        their_ip: Ipv4Addr,
    ) -> (result: Result<Interface, InvalidSocketAddr>)
        ensures
            result == match first_v4(resolved@) {
                Some(outgoing_link_addr) => Ok::<Interface, InvalidSocketAddr>(
                    Interface {
                        id,
                        outgoing_link,
                        outgoing_link_addr,
                        our_ip,
                        their_ip,
                        state: State::UP,
                    },
                ),
                None => Err(InvalidSocketAddr),
            },
    {
        let mut i: usize = 0;
        assert(resolved@.skip(0) =~= resolved@);
        while i < resolved.len()
            invariant
                i <= resolved@.len(),
                first_v4(resolved@) == first_v4(resolved@.skip(i as int)),
            decreases resolved@.len() - i,
        {
            assert(resolved@.skip(i as int).skip(1) =~= resolved@.skip(i + 1));
            if let ResolvedAddr::V4(outgoing_link_addr) = resolved[i] {
                return Ok(
                    Interface {
                        id,
                        outgoing_link,
                        outgoing_link_addr,
                        our_ip,
                        their_ip,
                        state: State::UP,
                    },
                );
            }
            i += 1;
        }
        Err(InvalidSocketAddr)
    }

    /// Sets interface to UP state
    pub fn up(&mut self)
        ensures
            *final(self) == (Interface { state: State::UP, ..*old(self) }),
    {
        self.state = State::UP;
    }

    /// Sets interface to DOWN state
    pub fn down(&mut self)
        ensures
            *final(self) == (Interface { state: State::DOWN, ..*old(self) }),
    {
        self.state = State::DOWN;
    }

    pub fn state(&self) -> (state: State)
        ensures
            state == self.state,
    {
        self.state
    }
}

impl State {
    pub open spec fn text(self) -> Seq<char> {
        match self {
            State::UP => "UP"@,
            State::DOWN => "DOWN"@,
        }
    }
}

impl Interface {
    /// The interface as it is shown to the user, with its link if `verbose`.
    pub open spec fn text(self, verbose: bool) -> Seq<char> {
        let link = if verbose {
            ", outgoing_link "@ + self.outgoing_link@
        } else {
            Seq::empty()
        };
        decimal_text(self.id as int) + ": status "@ + self.state.text() + link + ", their_ip "@
            + addr_text(self.their_ip) + ", our_ip "@ + addr_text(self.our_ip)
    }

    pub fn to_string(&self, verbose: bool) -> (s: String)
        ensures
            s@ == self.text(verbose),
    {
        let mut s = decimal_string(self.id as u64);
        s.append(": status ");
        match self.state {
            State::UP => s.append("UP"),
            State::DOWN => s.append("DOWN"),
        }
        let ghost head = s@;
        if verbose {
            s.append(", outgoing_link ");
            s.append(self.outgoing_link.as_str());
        }
        proof {
            let link = if verbose {
                ", outgoing_link "@ + self.outgoing_link@
            } else {
                Seq::empty()
            };
            assert(s@ =~= head + link);
        }
        s.append(", their_ip ");
        s.append(addr_string(self.their_ip).as_str());
        s.append(", our_ip ");
        s.append(addr_string(self.our_ip).as_str());
        s
    }
}

/// An interface uses the first IPv4 address that its link's name resolves to, and is up. A name that
/// resolves to none is an error.
pub proof fn law_new_interfaces(
    id: InterfaceId,
    outgoing_link: String,
    resolved: &[ResolvedAddr],
    our_ip: Ipv4Addr,
    their_ip: Ipv4Addr,
    result: Result<Interface, InvalidSocketAddr>,
)
    requires
        call_ensures(
            Interface::new,
            (id, outgoing_link, resolved, our_ip, their_ip),
            result,
        ),
    ensures
        result is Err <==> forall|i: int|
            0 <= i < resolved@.len() ==> #[trigger] resolved@[i] == ResolvedAddr::V6,
        result is Ok ==> {
            let interface = result->Ok_0;
            &&& interface.id == id
            &&& interface.outgoing_link == outgoing_link
            &&& interface.our_ip == our_ip
            &&& interface.their_ip == their_ip
            &&& interface.state == State::UP
            &&& exists|i: int|
                {
                    &&& 0 <= i < resolved@.len()
                    &&& #[trigger] resolved@[i] == ResolvedAddr::V4(interface.outgoing_link_addr)
                    &&& forall|j: int| 0 <= j < i ==> #[trigger] resolved@[j] == ResolvedAddr::V6
                }
        },
{
    lemma_first_v4(resolved@);
}

proof fn lemma_first_v4(resolved: Seq<ResolvedAddr>)
    ensures
        match first_v4(resolved) {
            None => forall|i: int|
                0 <= i < resolved.len() ==> #[trigger] resolved[i] == ResolvedAddr::V6,
            Some(addr) => exists|i: int|
                {
                    &&& 0 <= i < resolved.len()
                    &&& #[trigger] resolved[i] == ResolvedAddr::V4(addr)
                    &&& forall|j: int| 0 <= j < i ==> #[trigger] resolved[j] == ResolvedAddr::V6
                },
        },
    decreases resolved.len(),
{
    if resolved.len() > 0 && resolved[0] == ResolvedAddr::V6 {
        let rest = resolved.skip(1);
        lemma_first_v4(rest);
        match first_v4(resolved) {
            None => {
                assert forall|i: int| 0 <= i < resolved.len() implies #[trigger] resolved[i]
                    == ResolvedAddr::V6 by {
                    if i > 0 {
                        assert(rest[i - 1] == resolved[i]);
                    }
                }
            },
            Some(addr) => {
                let i = choose|i: int|
                    {
                        &&& 0 <= i < rest.len()
                        &&& #[trigger] rest[i] == ResolvedAddr::V4(addr)
                        &&& forall|j: int| 0 <= j < i ==> #[trigger] rest[j] == ResolvedAddr::V6
                    };
                assert(resolved[i + 1] == ResolvedAddr::V4(addr));
                assert forall|j: int| 0 <= j < i + 1 implies #[trigger] resolved[j]
                    == ResolvedAddr::V6 by {
                    if j > 0 {
                        assert(rest[j - 1] == resolved[j]);
                    }
                }
            },
        }
    }
}

/// An interface is shown with its number, whether it is up, their address and ours, in this order,
/// and with its link in between if all of it is asked for.
pub proof fn law_interfaces_are_shown(interface: &Interface, verbose: bool, s: String)
    requires
        call_ensures(Interface::to_string, (interface, verbose), s),
    ensures
        s@ == decimal_text(interface.id as int) + ": status "@ + (match interface.state {
            State::UP => "UP"@,
            State::DOWN => "DOWN"@,
        }) + (if verbose {
            ", outgoing_link "@ + interface.outgoing_link@
        } else {
            Seq::empty()
        }) + ", their_ip "@ + addr_text(interface.their_ip) + ", our_ip "@ + addr_text(
            interface.our_ip,
        ),
{
}

} // verus!
