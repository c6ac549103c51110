//! The control- and data-plane logic: a pure transition from one incoming
//! message to the table mutation it causes and the outgoing messages it
//! produces. The router holds the two per-family routing tables and is the
//! only place they change; it performs no I/O.

use vstd::prelude::*;

use crate::addr::{IpAddress, SocketAddress};
use crate::message::{Message, MessageV, Node, NodeV};
use crate::package::{spec_destination, spec_valid_package, Package};
use crate::peer::{host_of, spec_best, Host, HostV, Peer, PeerV};
use crate::table::{
    bits_of, find_key, find_name, insert_model, reachable_socks, spec_lpm, wf_table, LikeRouter,
    Table, TableEntryV,
};

verus! {

/// The router: one table per IP family, this node's name, and this node's
/// own announcement (hop count zero), sent back to whoever contacts us.
pub struct Router {
    pub ipv4_table: Table,
    pub ipv6_table: Table,
    pub own_name: String,
    pub self_node: Node,
}

/// Model of `Router`.
pub ghost struct RouterV {
    pub ipv4_table: Seq<TableEntryV>,
    pub ipv6_table: Seq<TableEntryV>,
    pub own_name: Seq<char>,
    pub self_node: NodeV,
}

impl View for Router {
    type V = RouterV;

    open spec fn view(&self) -> RouterV {
        RouterV {
            ipv4_table: self.ipv4_table@,
            ipv6_table: self.ipv6_table@,
            own_name: self.own_name@,
            self_node: self.self_node@,
        }
    }
}

/// Both tables keep their keys distinct.
pub open spec fn wf_router(r: RouterV) -> bool {
    wf_table(r.ipv4_table) && wf_table(r.ipv6_table)
}

/// What the router accepts: read-direction messages only, and any packet in
/// them already validated at ingress. Feeding a write-direction message back
/// is a caller error.
pub open spec fn routable(m: MessageV) -> bool {
    match m {
        MessageV::InterfaceRead(pkg) => spec_valid_package(pkg),
        MessageV::PackageShareRead(pkg, _) => spec_valid_package(pkg),
        MessageV::AddNodeRead(_, _) => true,
        MessageV::DelNodeRead(_, _) => true,
        MessageV::PingPongRead(_, _) => true,
        MessageV::DoNoting => true,
        _ => false,
    }
}

/// A hop count one higher, capped at the type's maximum.
pub open spec fn bump_jump(j: i32) -> i32 {
    if j < i32::MAX {
        (j + 1) as i32
    } else {
        j
    }
}

/// Routing one data packet: deliver locally, forward to the owning peer with
/// the hop budget decremented (dropping it at zero), or drop it when no
/// route covers the destination or the peer is unreachable.
pub open spec fn step_share(r: RouterV, pkg: Seq<u8>, ttl: u32) -> Seq<MessageV>
    recommends
        spec_valid_package(pkg),
{
    let dest = spec_destination(pkg);
    let t = if dest.len() == 4 {
        r.ipv4_table
    } else {
        r.ipv6_table
    };
    match spec_lpm(t, bits_of(dest)) {
        Option::None => seq![MessageV::DoNoting],
        Option::Some(e) => match host_of(spec_best(e.peer.host)) {
            HostV::Localhost => seq![MessageV::InterfaceWrite(pkg)],
            HostV::Unreachable => seq![MessageV::DoNoting],
            HostV::Socket(a) => if ttl == 0 {
                seq![MessageV::DoNoting]
            } else {
                seq![MessageV::PackageShareWrite(a, pkg, (ttl - 1) as u32)]
            },
        },
    }
}

/// Merging one announcement. A self-echo is dropped without output; a
/// malformed relayed address or subnet is dropped; a novel binding is
/// re-broadcast to every reachable peer with the hop count bumped and the
/// origin made explicit, plus a reciprocal announcement of this node back to
/// the sender; a duplicate is suppressed, which is the gossip loop-breaker.
pub open spec fn step_add_node(r: RouterV, addr: (Seq<u8>, u16), n: NodeV) -> (
    RouterV,
    Seq<MessageV>,
) {
    if n.name == r.own_name {
        (r, Seq::empty())
    } else if !(n.jump <= 0 || n.real_ip.len() == 4 || n.real_ip.len() == 16) {
        (r, seq![MessageV::DoNoting])
    } else {
        let src = if n.jump <= 0 {
            addr
        } else {
            (n.real_ip, n.port as u16)
        };
        if !(n.sub_net.len() == 4 || n.sub_net.len() == 16) || n.net_mask > 8 * n.sub_net.len() {
            (r, seq![MessageV::DoNoting])
        } else {
            let key = bits_of(n.sub_net).subrange(0, n.net_mask as int);
            let v4 = n.sub_net.len() == 4;
            let t = if v4 {
                r.ipv4_table
            } else {
                r.ipv6_table
            };
            let ins = insert_model(t, key, n.name, HostV::Socket(src));
            let r2 = if v4 {
                RouterV { ipv4_table: ins.0, ..r }
            } else {
                RouterV { ipv6_table: ins.0, ..r }
            };
            if ins.1 {
                let relayed = NodeV {
                    real_ip: src.0,
                    port: src.1 as i32,
                    jump: bump_jump(n.jump),
                    ..n
                };
                let socks = reachable_socks(r2.ipv4_table) + reachable_socks(r2.ipv6_table);
                (
                    r2,
                    socks.map_values(|a: (Seq<u8>, u16)| MessageV::AddNodeWrite(a, relayed)).push(
                        MessageV::AddNodeWrite(addr, r.self_node),
                    ),
                )
            } else {
                (r2, Seq::empty())
            }
        }
    }
}

/// The router's transition function: the state after one message and the
/// messages going out. A packet read from the local device enters the data
/// plane with the full hop budget (the first send costs one hop of the
/// budget of 128); a received deletion is acknowledged and ignored; a probe
/// is answered with this node's name.
pub open spec fn route_step(r: RouterV, m: MessageV) -> (RouterV, Seq<MessageV>)
    recommends
        routable(m),
{
    match m {
        MessageV::InterfaceRead(pkg) => (r, step_share(r, pkg, 128)),
        MessageV::PackageShareRead(pkg, ttl) => (r, step_share(r, pkg, ttl)),
        MessageV::AddNodeRead(addr, n) => step_add_node(r, addr, n),
        MessageV::DelNodeRead(_, _) => (r, seq![MessageV::DoNoting]),
        MessageV::PingPongRead(addr, _) => (r, seq![MessageV::PingPongWrite(addr, r.own_name)]),
        MessageV::DoNoting => (r, seq![MessageV::DoNoting]),
        _ => (r, Seq::empty()),
    }
}

impl Router {
    /// A router with empty tables for a node of the given name, announcing
    /// `self_node`.
    pub fn new(own_name: String, self_node: Node) -> (r: Router)
        ensures
            r@.ipv4_table == Seq::<TableEntryV>::empty(),
            r@.ipv6_table == Seq::<TableEntryV>::empty(),
            r@.own_name == own_name@,
            r@.self_node == self_node@,
            wf_router(r@),
    {
        Router { ipv4_table: Table::new(), ipv6_table: Table::new(), own_name, self_node }
    }

    /// The socket addresses of every peer reachable over the network, the v4
    /// table's first.
    pub fn get_all_node(&self) -> (r: Vec<SocketAddress>)
        ensures
            r@.map_values(|s: SocketAddress| s@) == reachable_socks(self@.ipv4_table)
                + reachable_socks(self@.ipv6_table),
    {
        let mut v = self.ipv4_table.get_all_nodes();
        let mut o = self.ipv6_table.get_all_nodes();
        let ghost v0 = v@;
        let ghost o0 = o@;
        v.append(&mut o);
        proof {
            assert(v@.map_values(|s: SocketAddress| s@) =~= v0.map_values(
                |s: SocketAddress| s@,
            ) + o0.map_values(|s: SocketAddress| s@));
        }
        v
    }

    /// Upserts a route into the table of the destination's family.
    pub fn insert_to_table(&mut self, dest: IpAddress, mask: u16, name: String, host: Host) -> (r:
        Result<(), ()>)
        requires
            mask as int <= 8 * dest@.len(),
        ensures
            ({
                let key = bits_of(dest@).subrange(0, mask as int);
                let v4 = dest@.len() == 4;
                let t = if v4 {
                    old(self)@.ipv4_table
                } else {
                    old(self)@.ipv6_table
                };
                let m = insert_model(t, key, name@, host@);
                &&& final(self)@ == if v4 {
                    RouterV { ipv4_table: m.0, ..old(self)@ }
                } else {
                    RouterV { ipv6_table: m.0, ..old(self)@ }
                }
                &&& (r is Ok) == m.1
                &&& wf_router(old(self)@) ==> wf_router(final(self)@)
            }),
    {
        if dest.is_v4() {
            self.ipv4_table.insert(dest, mask, name, host)
        } else {
            self.ipv6_table.insert(dest, mask, name, host)
        }
    }

    /// Longest-prefix lookup of a packet's destination in the table of its
    /// family.
    pub fn find_in_table(&self, package: &Package) -> (r: Option<Peer>)
        requires
            spec_valid_package(package@),
        ensures
            ({
                let dest = spec_destination(package@);
                let t = if dest.len() == 4 {
                    self@.ipv4_table
                } else {
                    self@.ipv6_table
                };
                match r {
                    Some(p) => spec_lpm(t, bits_of(dest)) matches Some(e) && e.peer == p@,
                    None => spec_lpm(t, bits_of(dest)) is None,
                }
            }),
    {
        let dest = package.destination_address();
        if dest.is_v4() {
            self.ipv4_table.find(dest)
        } else {
            self.ipv6_table.find(dest)
        }
    }

    /// The first peer of that name, searching the v4 table first.
    pub fn get_by_name(&self, name: &str) -> (r: Option<Peer>)
        ensures
            match r {
                Some(p) => {
                    ||| (find_name(self@.ipv4_table, name@) >= 0 && p@ == self@.ipv4_table[
                        find_name(self@.ipv4_table, name@)
                    ].peer)
                    ||| (find_name(self@.ipv4_table, name@) == -1 && find_name(
                        self@.ipv6_table,
                        name@,
                    ) >= 0 && p@ == self@.ipv6_table[find_name(self@.ipv6_table, name@)].peer)
                },
                None => find_name(self@.ipv4_table, name@) == -1 && find_name(
                    self@.ipv6_table,
                    name@,
                ) == -1,
            },
    {
        if let Some(peer) = self.ipv4_table.get_by_peer_name(name) {
            return Some(peer);
        }
        if let Some(peer) = self.ipv6_table.get_by_peer_name(name) {
            return Some(peer);
        }
        None
    }

    /// Routes one data packet; see `step_share`.
    fn route_share(&self, package: Package, ttl: u32) -> (out: Vec<Message>)
        requires
            spec_valid_package(package@),
        ensures
            out@.map_values(|x: Message| x@) == step_share(self@, package@, ttl),
    {
        let mut out: Vec<Message> = Vec::new();
        match self.find_in_table(&package) {
            None => {
                out.push(Message::DoNoting);
            },
            Some(peer) => {
                match peer.get_host() {
                    Host::Localhost => {
                        out.push(Message::InterfaceWrite(package));
                    },
                    Host::Unreachable => {
                        out.push(Message::DoNoting);
                    },
                    Host::Socket(addr) => {
                        if ttl == 0 {
                            out.push(Message::DoNoting);
                        } else {
                            out.push(Message::PackageShareWrite(addr, package, ttl - 1));
                        }
                    },
                }
            },
        }
        proof {
            assert(out@.map_values(|x: Message| x@) =~= step_share(self@, package@, ttl));
        }
        out
    }

    /// Dispatches one incoming message: mutates the tables as the transition
    /// function says and returns the outgoing messages.
    pub fn router_message(&mut self, m: Message) -> (out: Vec<Message>)
        requires
            routable(m@),
        ensures
            ({
                let s = route_step(old(self)@, m@);
                &&& final(self)@ == s.0
                &&& out@.map_values(|x: Message| x@) == s.1
                &&& wf_router(old(self)@) ==> wf_router(final(self)@)
            }),
    {
        match m {
            Message::PackageShareRead(package, ttl) => self.route_share(package, ttl),
            Message::InterfaceRead(package) => self.route_share(package, 128),
            Message::AddNodeRead(addr, node) => self.route_add_node(addr, node),
            Message::DelNodeRead(_, _) => {
                let mut out: Vec<Message> = Vec::new();
                out.push(Message::DoNoting);
                proof {
                    assert(out@.map_values(|x: Message| x@) =~= seq![MessageV::DoNoting]);
                }
                out
            },
            Message::PingPongRead(addr, _) => {
                let mut out: Vec<Message> = Vec::new();
                out.push(Message::PingPongWrite(addr, self.own_name.clone()));
                proof {
                    assert(out@.map_values(|x: Message| x@) =~= seq![
                        MessageV::PingPongWrite(addr@, self@.own_name),
                    ]);
                }
                out
            },
            Message::DoNoting => {
                let mut out: Vec<Message> = Vec::new();
                out.push(Message::DoNoting);
                proof {
                    assert(out@.map_values(|x: Message| x@) =~= seq![MessageV::DoNoting]);
                }
                out
            },
            _ => vstd::pervasive::unreached(),
        }
    }

    /// Merges one announcement; see `step_add_node`.
    fn route_add_node(&mut self, addr: SocketAddress, node: Node) -> (out: Vec<Message>)
        ensures
            ({
                let s = step_add_node(old(self)@, addr@, node@);
                &&& final(self)@ == s.0
                &&& out@.map_values(|x: Message| x@) == s.1
                &&& wf_router(old(self)@) ==> wf_router(final(self)@)
            }),
    {
        let ghost nv = node@;
        if node.name == self.own_name {
            let out: Vec<Message> = Vec::new();
            proof {
                assert(out@.map_values(|x: Message| x@) =~= Seq::<MessageV>::empty());
            }
            return out;
        }
        let source: SocketAddress = if node.jump <= 0 {
            addr
        } else {
            match IpAddress::from_bytes(node.real_ip.as_slice()) {
                None => {
                    let mut out: Vec<Message> = Vec::new();
                    out.push(Message::DoNoting);
                    proof {
                        assert(out@.map_values(|x: Message| x@) =~= seq![MessageV::DoNoting]);
                    }
                    return out;
                },
                Some(ip) => SocketAddress::new(ip, #[verifier::truncate] (node.port as u16)),
            }
        };
        proof {
            assert(source@ == if nv.jump <= 0 {
                addr@
            } else {
                (nv.real_ip, nv.port as u16)
            });
        }
        let subnet: IpAddress = match IpAddress::from_bytes(node.sub_net.as_slice()) {
            None => {
                let mut out: Vec<Message> = Vec::new();
                out.push(Message::DoNoting);
                proof {
                    assert(out@.map_values(|x: Message| x@) =~= seq![MessageV::DoNoting]);
                }
                return out;
            },
            Some(ip) => ip,
        };
        let bit_count: u32 = if subnet.is_v4() {
            32
        } else {
            128
        };
        if node.net_mask > bit_count {
            let mut out: Vec<Message> = Vec::new();
            out.push(Message::DoNoting);
            proof {
                assert(out@.map_values(|x: Message| x@) =~= seq![MessageV::DoNoting]);
            }
            return out;
        }
        let inserted = self.insert_to_table(
            subnet,
            node.net_mask as u16,
            node.name.clone(),
            Host::Socket(source),
        );
        match inserted {
            Err(()) => {
                let out: Vec<Message> = Vec::new();
                proof {
                    assert(out@.map_values(|x: Message| x@) =~= Seq::<MessageV>::empty());
                }
                out
            },
            Ok(()) => {
                let bumped: i32 = if node.jump < i32::MAX {
                    node.jump + 1
                } else {
                    node.jump
                };
                let relayed = Node {
                    name: node.name,
                    sub_net: node.sub_net,
                    net_mask: node.net_mask,
                    real_ip: source.ip.octets(),
                    port: source.port as i32,
                    jump: bumped,
                };
                let ghost relayedv = (NodeV {
                    real_ip: source@.0,
                    port: source@.1 as i32,
                    jump: bump_jump(nv.jump),
                    ..nv
                });
                proof {
                    assert(relayed@ == relayedv);
                }
                let socks = self.get_all_node();
                let ghost socksv = socks@.map_values(|s: SocketAddress| s@);
                let mut out: Vec<Message> = Vec::new();
                let mut i: usize = 0;
                while i < socks.len()
                    invariant
                        i <= socks@.len(),
                        socksv == socks@.map_values(|s: SocketAddress| s@),
                        relayedv == relayed@,
                        out@.map_values(|x: Message| x@) =~= socksv.subrange(
                            0,
                            i as int,
                        ).map_values(|a: (Seq<u8>, u16)| MessageV::AddNodeWrite(a, relayedv)),
                    decreases socks@.len() - i,
                {
                    let dup = relayed.duplicate();
                    let msg = Message::AddNodeWrite(socks[i], dup);
                    proof {
                        assert(socksv[i as int] == socks@[i as int]@);
                        assert(msg@ == MessageV::AddNodeWrite(socksv[i as int], relayedv));
                    }
                    out.push(msg);
                    i = i + 1;
                    proof {
                        let f = |a: (Seq<u8>, u16)| MessageV::AddNodeWrite(a, relayedv);
                        assert(socksv.subrange(0, i as int) =~= socksv.subrange(
                            0,
                            i as int - 1,
                        ).push(socksv[i as int - 1]));
                        assert(socksv.subrange(0, i as int).map_values(f) =~= socksv.subrange(
                            0,
                            i as int - 1,
                        ).map_values(f).push(f(socksv[i as int - 1])));
                        assert(out@.map_values(|x: Message| x@) =~= socksv.subrange(
                            0,
                            i as int,
                        ).map_values(f));
                    }
                }
                out.push(Message::AddNodeWrite(addr, self.self_node.duplicate()));
                proof {
                    assert(socksv.subrange(0, socksv.len() as int) =~= socksv);
                    assert(out@.map_values(|x: Message| x@) =~= socksv.map_values(
                        |a: (Seq<u8>, u16)| MessageV::AddNodeWrite(a, relayedv),
                    ).push(MessageV::AddNodeWrite(addr@, old(self)@.self_node)));
                }
                out
            },
        }
    }

    /// The greeting announcements sent at startup: this node's announcement,
    /// marked as a very first contact with hop count `-1`, addressed to each
    /// configured bootstrap peer that is not this node itself.
    pub fn hello_messages(&self, servers: &Vec<(SocketAddress, String)>) -> (out: Vec<Message>)
        ensures
            out@.map_values(|x: Message| x@) == hello_model(
                servers@.map_values(|s: (SocketAddress, String)| (s.0@, s.1@)),
                self@,
            ),
    {
        let mut out: Vec<Message> = Vec::new();
        let mut i: usize = 0;
        while i < servers.len()
            invariant
                i <= servers@.len(),
                out@.map_values(|x: Message| x@) =~= hello_model(
                    servers@.map_values(|s: (SocketAddress, String)| (s.0@, s.1@)).subrange(
                        0,
                        i as int,
                    ),
                    self@,
                ),
            decreases servers@.len() - i,
        {
            let (server_addr, server_name) = &servers[i];
            if !crate::utils::str_eq(server_name.as_str(), self.own_name.as_str()) {
                let mut greeting = self.self_node.duplicate();
                greeting.jump = -1;
                out.push(Message::AddNodeWrite(*server_addr, greeting));
            }
            i = i + 1;
            proof {
                let sv = servers@.map_values(|s: (SocketAddress, String)| (s.0@, s.1@));
                assert(sv.subrange(0, i as int).drop_last() =~= sv.subrange(0, i as int - 1));
                assert(sv.subrange(0, i as int).last() == sv[i as int - 1]);
                assert(out@.map_values(|x: Message| x@) =~= hello_model(
                    sv.subrange(0, i as int),
                    self@,
                ));
            }
        }
        proof {
            let sv = servers@.map_values(|s: (SocketAddress, String)| (s.0@, s.1@));
            assert(sv.subrange(0, sv.len() as int) =~= sv);
        }
        out
    }
}

/// Self-suppression: an announcement carrying this node's own name changes
/// neither table and produces no output at all.
pub proof fn lemma_self_suppression(r: RouterV, addr: (Seq<u8>, u16), n: NodeV)
    requires
        n.name == r.own_name,
    ensures
        route_step(r, MessageV::AddNodeRead(addr, n)).0 == r,
        route_step(r, MessageV::AddNodeRead(addr, n)).1 == Seq::<MessageV>::empty(),
{
}

/// An announcement is well-shaped when its relayed origin (if it claims
/// one) and its subnet are addresses of a known family and the mask fits.
pub open spec fn wf_announcement(n: NodeV) -> bool {
    &&& n.jump <= 0 || n.real_ip.len() == 4 || n.real_ip.len() == 16
    &&& n.sub_net.len() == 4 || n.sub_net.len() == 16
    &&& n.net_mask <= 8 * n.sub_net.len()
}

/// The effective origin of an announcement: the sending socket for a first
/// contact, the carried address for a relay.
pub open spec fn announce_source(addr: (Seq<u8>, u16), n: NodeV) -> (Seq<u8>, u16) {
    if n.jump <= 0 {
        addr
    } else {
        (n.real_ip, n.port as u16)
    }
}

/// The key an announcement's subnet is stored under.
pub open spec fn announce_key(n: NodeV) -> Seq<u8> {
    bits_of(n.sub_net).subrange(0, n.net_mask as int)
}

/// Reciprocity: a novel well-shaped announcement from another node is
/// answered, and the last message out is this node's own announcement sent
/// back to the announcement's sender.
pub proof fn lemma_reciprocity(r: RouterV, addr: (Seq<u8>, u16), n: NodeV)
    requires
        n.name != r.own_name,
        wf_announcement(n),
        ({
            let t = if n.sub_net.len() == 4 {
                r.ipv4_table
            } else {
                r.ipv6_table
            };
            insert_model(t, announce_key(n), n.name, HostV::Socket(announce_source(addr, n))).1
        }),
    ensures
        ({
            let out = route_step(r, MessageV::AddNodeRead(addr, n)).1;
            &&& out.len() >= 1
            &&& out.last() == MessageV::AddNodeWrite(addr, r.self_node)
        }),
{
}

/// The gossip loop-breaker: the same well-shaped announcement fed twice
/// from the same source broadcasts the first time, when its prefix is new,
/// and produces no output at all the second time.
pub proof fn lemma_loop_break(r: RouterV, addr: (Seq<u8>, u16), n: NodeV)
    requires
        n.name != r.own_name,
        wf_announcement(n),
        ({
            let t = if n.sub_net.len() == 4 {
                r.ipv4_table
            } else {
                r.ipv6_table
            };
            find_key(t, announce_key(n)) == -1
        }),
    ensures
        ({
            let first = route_step(r, MessageV::AddNodeRead(addr, n));
            let second = route_step(first.0, MessageV::AddNodeRead(addr, n));
            &&& first.1.len() >= 1
            &&& second.1 == Seq::<MessageV>::empty()
        }),
{
    let src = announce_source(addr, n);
    let key = announce_key(n);
    let v4 = n.sub_net.len() == 4;
    let t = if v4 {
        r.ipv4_table
    } else {
        r.ipv6_table
    };
    let fresh = TableEntryV {
        key,
        peer: PeerV {
            name: n.name,
            host: crate::peer::add_host_model(Seq::empty(), HostV::Socket(src)).0,
        },
    };
    crate::table::lemma_find_key_from(t, key, 0);
    assert(insert_model(t, key, n.name, HostV::Socket(src)).1);
    let t2 = insert_model(t, key, n.name, HostV::Socket(src)).0;
    assert(t2 =~= t.push(fresh));
    let first = route_step(r, MessageV::AddNodeRead(addr, n));
    let r1 = first.0;
    let t1 = if v4 {
        r1.ipv4_table
    } else {
        r1.ipv6_table
    };
    assert(t1 == t2);
    crate::table::lemma_find_key_from(t2, key, 0);
    let k2 = crate::table::find_key(t2, key);
    assert(k2 != -1) by {
        if k2 == -1 {
            assert(t2[t.len() as int].key != key);
        }
    }
    assert(k2 == t.len() as int) by {
        if k2 < t.len() {
            assert(t2[k2] == t[k2]);
            assert(t[k2].key != key);
        }
    }
    let hosts = t2[k2].peer.host;
    assert(hosts =~= seq![crate::peer::CandidateV::Socket(src, 1)]);
    assert(crate::peer::find_socket(hosts, src) == 0) by {
        assert(crate::peer::is_socket_with(hosts[0], src));
    }
    assert(!crate::peer::add_host_model(hosts, HostV::Socket(src)).1);
    assert(r1.own_name == r.own_name);
}

/// The greeting this node sends at startup: its own announcement with hop
/// count `-1`.
pub open spec fn init_node(r: RouterV) -> NodeV {
    NodeV { jump: -1 as i32, ..r.self_node }
}

/// One greeting per configured bootstrap peer whose name is not our own, in
/// configuration order.
pub open spec fn hello_model(servers: Seq<((Seq<u8>, u16), Seq<char>)>, r: RouterV) -> Seq<
    MessageV,
>
    decreases servers.len(),
{
    if servers.len() == 0 {
        Seq::empty()
    } else {
        let rest = hello_model(servers.drop_last(), r);
        let s = servers.last();
        if s.1 == r.own_name {
            rest
        } else {
            rest.push(MessageV::AddNodeWrite(s.0, init_node(r)))
        }
    }
}

} // verus!
