use vstd::prelude::*;

use super::interface::{Interface, InterfaceId, LinkAddr, State};
use crate::ip::Ipv4Addr;

verus! {

/// The largest datagram that is read from a link.
pub const MAX_SIZE: usize = 65536;

/// The interface to send on, or none for all that are up, and what to send.
pub type LinkSendMsg = (Option<InterfaceId>, Vec<u8>);

/// The interface that something arrived on, and what arrived.
pub type LinkRecvMsg = (InterfaceId, Vec<u8>);

pub struct LinkLayer {
    pub interfaces: Vec<Interface>,
}

#[derive(Debug, PartialEq, Eq, Copy, Clone, Structural)]
pub struct UnknownInterface;

/// The links of the interfaces that are up, in order.
pub open spec fn up_links(interfaces: Seq<Interface>) -> Seq<LinkAddr>
    decreases interfaces.len(),
{
    if interfaces.len() == 0 {
        Seq::empty()
    } else {
        let rest = up_links(interfaces.drop_last());
        if interfaces.last().state == State::UP {
            rest.push(interfaces.last().outgoing_link_addr)
        } else {
            rest
        }
    }
}

impl LinkLayer {
    /// Whether each interface is known by its place.
    pub open spec fn wf(self) -> bool {
        forall|i: int| 0 <= i < self.interfaces@.len() ==> (#[trigger] self.interfaces@[i]).id == i
    }

    /// Whether `id` is the interface that leads to `addr`: where several do, the last one counts.
    pub open spec fn leads_to(self, id: int, addr: LinkAddr) -> bool {
        &&& 0 <= id < self.interfaces@.len()
        &&& self.interfaces@[id].outgoing_link_addr == addr
        &&& forall|j: int|
            id < j < self.interfaces@.len() ==> (#[trigger] self.interfaces@[j]).outgoing_link_addr
                != addr
    }

    /// Whether what comes from `src` arrives on the interface `id`: the one that leads there, which
    /// has to be up. None arrives where there is no such interface.
    pub open spec fn hears(self, src: LinkAddr, id: Option<InterfaceId>) -> bool {
        match id {
            Some(id) => self.leads_to(id as int, src) && self.interfaces@[id as int].state
                == State::UP,
            None => forall|i: int| #[trigger]
                self.leads_to(i, src) ==> self.interfaces@[i].state == State::DOWN,
        }
    }

    pub fn get_interfaces(&self) -> (interfaces: &Vec<Interface>)
        ensures
            interfaces@ == self.interfaces@,
    {
        &self.interfaces
    }

    pub fn new(interfaces: Vec<Interface>) -> (layer: LinkLayer)
        ensures
            layer.interfaces@ == interfaces@,
    {
        LinkLayer { interfaces }
    }

    /// Sets the specified interface up
    pub fn up(&mut self, interface_id: InterfaceId) -> (result: Result<(), UnknownInterface>)
        ensures
            if interface_id >= old(self).interfaces@.len() {
                &&& result == Err::<(), UnknownInterface>(UnknownInterface)
                &&& final(self).interfaces@ == old(self).interfaces@
            } else {
                &&& result == Ok::<(), UnknownInterface>(())
                &&& final(self).interfaces@ == old(self).interfaces@.update(
                    interface_id as int,
                    Interface { state: State::UP, ..old(self).interfaces@[interface_id as int] },
                )
            },
            old(self).wf() ==> final(self).wf(),
    {
        if interface_id >= self.interfaces.len() {
            Err(UnknownInterface)
        } else {
            self.interfaces[interface_id].up();
            Ok(())
        }
    }

    /// Sets the specified interface down
    pub fn down(&mut self, interface_id: InterfaceId) -> (result: Result<(), UnknownInterface>)
        ensures
            if interface_id >= old(self).interfaces@.len() {
                &&& result == Err::<(), UnknownInterface>(UnknownInterface)
                &&& final(self).interfaces@ == old(self).interfaces@
            } else {
                &&& result == Ok::<(), UnknownInterface>(())
                &&& final(self).interfaces@ == old(self).interfaces@.update(
                    interface_id as int,
                    Interface { state: State::DOWN, ..old(self).interfaces@[interface_id as int] },
                )
            },
            old(self).wf() ==> final(self).wf(),
    {
        if interface_id >= self.interfaces.len() {
            Err(UnknownInterface)
        } else {
            self.interfaces[interface_id].down();
            Ok(())
        }
    }

    /// Returns the state of the specified interface
    pub fn get_state(&self, interface_id: InterfaceId) -> (state: Result<State, UnknownInterface>)
        ensures
            state == if interface_id >= self.interfaces@.len() {
                Err::<State, UnknownInterface>(UnknownInterface)
            } else {
                Ok(self.interfaces@[interface_id as int].state)
            },
    {
        if interface_id >= self.interfaces.len() {
            Err(UnknownInterface)
        } else {
            Ok(self.interfaces[interface_id].state())
        }
    }

    /// Returns our address on the specified interface
    pub fn get_our_ip(&self, interface_id: InterfaceId) -> (ip: Result<Ipv4Addr, UnknownInterface>)
        ensures
            ip == if interface_id >= self.interfaces@.len() {
                Err::<Ipv4Addr, UnknownInterface>(UnknownInterface)
            } else {
                Ok(self.interfaces@[interface_id as int].our_ip)
            },
    {
        if interface_id >= self.interfaces.len() {
            Err(UnknownInterface)
        } else {
            Ok(self.interfaces[interface_id].our_ip)
        }
    }

    /// The links that a message is sent on: the one of the given interface if it is up, or, if none
    /// is given, those of all interfaces that are up.
    pub fn send_targets(&self, id_opt: Option<InterfaceId>) -> (links: Vec<LinkAddr>)
        requires
            id_opt matches Some(id) ==> id < self.interfaces@.len(),
        ensures
            match id_opt {
                Some(id) => links@ == if self.interfaces@[id as int].state == State::UP {
                    seq![self.interfaces@[id as int].outgoing_link_addr]
                } else {
                    Seq::<LinkAddr>::empty()
                },
                None => links@ == up_links(self.interfaces@),
            },
    {
        let mut links: Vec<LinkAddr> = Vec::new();
        match id_opt {
            Some(id) => {
                let interface = &self.interfaces[id];
                if interface.state() == State::UP {
                    links.push(interface.outgoing_link_addr);
                }
                assert(links@ =~= if self.interfaces@[id as int].state == State::UP {
                    seq![self.interfaces@[id as int].outgoing_link_addr]
                } else {
                    Seq::<LinkAddr>::empty()
                });
            },
            None => {
                let mut i: usize = 0;
                while i < self.interfaces.len()
                    invariant
                        i <= self.interfaces@.len(),
                        links@ == up_links(self.interfaces@.take(i as int)),
                    decreases self.interfaces@.len() - i,
                {
                    assert(self.interfaces@.take(i + 1).drop_last() =~= self.interfaces@.take(
                        i as int,
                    ));
                    if self.interfaces[i].state() == State::UP {
                        links.push(self.interfaces[i].outgoing_link_addr);
                    }
                    i += 1;
                }
                assert(self.interfaces@.take(i as int) =~= self.interfaces@);
            },
        }
        links
    }

    /// The interface that something from `src` arrived on. None if no link leads there or the
    /// interface is down, in which cases it is dropped.
    pub fn recv_interface(&self, src: LinkAddr) -> (id: Option<InterfaceId>)
        ensures
            self.hears(src, id),
    {
        let mut i: usize = self.interfaces.len();
        while i > 0
            invariant
                i <= self.interfaces@.len(),
                forall|j: int|
                    i <= j < self.interfaces@.len() ==> (
                    #[trigger] self.interfaces@[j]).outgoing_link_addr != src,
            decreases i,
        {
            i -= 1;
            if self.interfaces[i].outgoing_link_addr == src {
                assert(self.leads_to(i as int, src));
                if self.interfaces[i].state() == State::UP {
                    return Some(i);
                }
                assert forall|k: int| #[trigger] self.leads_to(k, src) implies k == i by {
                    if k < i {
                        assert(self.interfaces@[i as int].outgoing_link_addr != src);
                    }
                }
                return None;
            }
        }
        None
    }
}

/// A message goes out on a link only if its interface is up. Without an interface given it goes out
/// on the link of every one that is.
pub proof fn law_up_links_are_used(
    layer: &LinkLayer,
    id: Option<InterfaceId>,
    links: Vec<LinkAddr>,
)
    requires
        id matches Some(id) ==> id < layer.interfaces@.len(),
        call_ensures(LinkLayer::send_targets, (layer, id), links),
    ensures
        match id {
            Some(id) => {
                &&& layer.interfaces@[id as int].state == State::UP ==> links@ == seq![
                    layer.interfaces@[id as int].outgoing_link_addr,
                ]
                &&& layer.interfaces@[id as int].state == State::DOWN ==> links@.len() == 0
            },
            None => {
                &&& forall|i: int|
                    0 <= i < layer.interfaces@.len() && (#[trigger] layer.interfaces@[i]).state
                        == State::UP ==> links@.contains(layer.interfaces@[i].outgoing_link_addr)
                &&& forall|k: int|
                    0 <= k < links@.len() ==> exists|i: int|
                        0 <= i < layer.interfaces@.len() && (#[trigger] layer.interfaces@[i]).state
                            == State::UP && layer.interfaces@[i].outgoing_link_addr
                            == #[trigger] links@[k]
                &&& links@.len() <= layer.interfaces@.len()
            },
        },
{
    lemma_up_links(layer.interfaces@);
}

proof fn lemma_up_links(interfaces: Seq<Interface>)
    ensures
        ({
            let links = up_links(interfaces);
            &&& forall|i: int|
                0 <= i < interfaces.len() && (#[trigger] interfaces[i]).state == State::UP
                    ==> links.contains(interfaces[i].outgoing_link_addr)
            &&& forall|k: int|
                0 <= k < links.len() ==> exists|i: int|
                    0 <= i < interfaces.len() && (#[trigger] interfaces[i]).state == State::UP
                        && interfaces[i].outgoing_link_addr == #[trigger] links[k]
            &&& links.len() <= interfaces.len()
        }),
    decreases interfaces.len(),
{
    let links = up_links(interfaces);
    if interfaces.len() > 0 {
        let shorter = interfaces.drop_last();
        let rest = up_links(shorter);
        lemma_up_links(shorter);
        assert forall|i: int|
            0 <= i < interfaces.len() && (#[trigger] interfaces[i]).state
                == State::UP implies links.contains(interfaces[i].outgoing_link_addr) by {
            if i < shorter.len() {
                assert(shorter[i] == interfaces[i]);
                assert(rest.contains(interfaces[i].outgoing_link_addr));
                let k = choose|k: int|
                    0 <= k < rest.len() && rest[k] == interfaces[i].outgoing_link_addr;
                assert(links[k] == rest[k]);
            } else {
                assert(links[rest.len() as int] == interfaces[i].outgoing_link_addr);
            }
        }
        assert forall|k: int| 0 <= k < links.len() implies exists|i: int|
            0 <= i < interfaces.len() && (#[trigger] interfaces[i]).state == State::UP
                && interfaces[i].outgoing_link_addr == #[trigger] links[k] by {
            if k < rest.len() {
                let i = choose|i: int|
                    0 <= i < shorter.len() && (#[trigger] shorter[i]).state == State::UP
                        && shorter[i].outgoing_link_addr == rest[k];
                assert(interfaces[i] == shorter[i]);
            } else {
                assert(interfaces[interfaces.len() - 1].outgoing_link_addr == links[k]);
            }
        }
    }
}

/// What arrives from the far end of a link is taken in if the link's interface is up, and dropped
/// otherwise, as is what comes from anywhere else. No two interfaces share a link here.
pub proof fn law_up_links_are_heard(layer: &LinkLayer, src: LinkAddr, id: Option<InterfaceId>)
    requires
        forall|i: int, j: int|
            0 <= i < j < layer.interfaces@.len() ==> (
            #[trigger] layer.interfaces@[i]).outgoing_link_addr != (
            #[trigger] layer.interfaces@[j]).outgoing_link_addr,
        call_ensures(LinkLayer::recv_interface, (layer, src), id),
    ensures
        match id {
            Some(id) => {
                &&& id < layer.interfaces@.len()
                &&& layer.interfaces@[id as int].outgoing_link_addr == src
                &&& layer.interfaces@[id as int].state == State::UP
            },
            None => forall|i: int|
                0 <= i < layer.interfaces@.len() && (
                #[trigger] layer.interfaces@[i]).outgoing_link_addr == src
                    ==> layer.interfaces@[i].state == State::DOWN,
        },
{
    if id is None {
        assert forall|i: int|
            0 <= i < layer.interfaces@.len() && (
            #[trigger] layer.interfaces@[i]).outgoing_link_addr
                == src implies layer.interfaces@[i].state == State::DOWN by {
            assert forall|j: int|
                i < j < layer.interfaces@.len() implies (
            #[trigger] layer.interfaces@[j]).outgoing_link_addr != src by {
                assert(layer.interfaces@[i].outgoing_link_addr
                    != layer.interfaces@[j].outgoing_link_addr);
            }
            assert(layer.leads_to(i, src));
        }
    }
}

} // verus!
