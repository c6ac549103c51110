//! The internal message algebra: everything that moves between the device,
//! the router and the sockets. Read-direction variants enter the router;
//! write-direction variants leave it and carry their destination.

use vstd::prelude::*;

use crate::addr::SocketAddress;
use crate::package::Package;

verus! {

/// A node announcement: "peer `name` owns `sub_net/net_mask`, reachable at
/// `real_ip:port`, heard `jump` hops away".
#[derive(Debug, PartialEq, Eq)]
pub struct Node {
    pub name: String,
    pub sub_net: Vec<u8>,
    pub net_mask: u32,
    pub real_ip: Vec<u8>,
    pub port: i32,
    pub jump: i32,
}

/// Model of `Node`.
pub ghost struct NodeV {
    pub name: Seq<char>,
    pub sub_net: Seq<u8>,
    pub net_mask: u32,
    pub real_ip: Seq<u8>,
    pub port: i32,
    pub jump: i32,
}

impl View for Node {
    type V = NodeV;

    open spec fn view(&self) -> NodeV {
        NodeV {
            name: self.name@,
            sub_net: self.sub_net@,
            net_mask: self.net_mask,
            real_ip: self.real_ip@,
            port: self.port,
            jump: self.jump,
        }
    }
}

impl Node {
    /// An announcement with every field empty or zero; fields are then
    /// filled by the builder of the announcement.
    pub fn empty() -> (r: Node)
        ensures
            r@ == (NodeV {
                name: Seq::<char>::empty(),
                sub_net: Seq::<u8>::empty(),
                net_mask: 0,
                real_ip: Seq::<u8>::empty(),
                port: 0,
                jump: 0,
            }),
    {
        let r = Node {
            name: String::new(),
            sub_net: Vec::new(),
            net_mask: 0,
            real_ip: Vec::new(),
            port: 0,
            jump: 0,
        };
        proof {
            assert(r@.name =~= Seq::<char>::empty());
            assert(r@.sub_net =~= Seq::<u8>::empty());
            assert(r@.real_ip =~= Seq::<u8>::empty());
        }
        r
    }

    /// A copy carrying the same fields.
    pub fn duplicate(&self) -> (r: Node)
        ensures
            r@ == self@,
    {
        Node {
            name: self.name.clone(),
            sub_net: crate::utils::copy_bytes(&self.sub_net),
            net_mask: self.net_mask,
            real_ip: crate::utils::copy_bytes(&self.real_ip),
            port: self.port,
            jump: self.jump,
        }
    }
}

/// The message bus: packets and control messages in both directions, and a
/// no-op for input that decodes to nothing.
#[derive(Debug, PartialEq, Eq)]
pub enum Message {
    InterfaceRead(Package),
    InterfaceWrite(Package),
    PackageShareRead(Package, u32),
    PackageShareWrite(SocketAddress, Package, u32),
    AddNodeRead(SocketAddress, Node),
    AddNodeWrite(SocketAddress, Node),
    DelNodeRead(SocketAddress, Node),
    DelNodeWrite(SocketAddress, Node),
    PingPongRead(SocketAddress, String),
    PingPongWrite(SocketAddress, String),
    DoNoting,
}

/// Model of `Message`.
pub ghost enum MessageV {
    InterfaceRead(Seq<u8>),
    InterfaceWrite(Seq<u8>),
    PackageShareRead(Seq<u8>, u32),
    PackageShareWrite((Seq<u8>, u16), Seq<u8>, u32),
    AddNodeRead((Seq<u8>, u16), NodeV),
    AddNodeWrite((Seq<u8>, u16), NodeV),
    DelNodeRead((Seq<u8>, u16), NodeV),
    DelNodeWrite((Seq<u8>, u16), NodeV),
    PingPongRead((Seq<u8>, u16), Seq<char>),
    PingPongWrite((Seq<u8>, u16), Seq<char>),
    DoNoting,
}

impl View for Message {
    type V = MessageV;

    open spec fn view(&self) -> MessageV {
        match self {
            Message::InterfaceRead(p) => MessageV::InterfaceRead(p@),
            Message::InterfaceWrite(p) => MessageV::InterfaceWrite(p@),
            Message::PackageShareRead(p, ttl) => MessageV::PackageShareRead(p@, *ttl),
            Message::PackageShareWrite(a, p, ttl) => MessageV::PackageShareWrite(a@, p@, *ttl),
            Message::AddNodeRead(a, n) => MessageV::AddNodeRead(a@, n@),
            Message::AddNodeWrite(a, n) => MessageV::AddNodeWrite(a@, n@),
            Message::DelNodeRead(a, n) => MessageV::DelNodeRead(a@, n@),
            Message::DelNodeWrite(a, n) => MessageV::DelNodeWrite(a@, n@),
            Message::PingPongRead(a, s) => MessageV::PingPongRead(a@, s@),
            Message::PingPongWrite(a, s) => MessageV::PingPongWrite(a@, s@),
            Message::DoNoting => MessageV::DoNoting,
        }
    }
}

} // verus!
