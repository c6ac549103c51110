//! A peer: a logical node identity with a ranked set of reachability
//! candidates. Selecting the current reachability returns the highest-ranked
//! candidate, ordered `Localhost > Socket > Unreachable`, with ties among
//! sockets broken by a rank that grows each time the same endpoint is
//! re-announced.

use vstd::prelude::*;

use crate::addr::SocketAddress;

verus! {

/// The reachability of a peer, as reported to callers.
#[derive(Clone, Copy, Debug, PartialEq, Eq)]
pub enum Host {
    Localhost,
    Unreachable,
    Socket(SocketAddress),
}

/// Model of `Host`: the socket address reduced to its octets and port.
pub ghost enum HostV {
    Localhost,
    Unreachable,
    Socket((Seq<u8>, u16)),
}

impl View for Host {
    type V = HostV;

    open spec fn view(&self) -> HostV {
        match self {
            Host::Localhost => HostV::Localhost,
            Host::Unreachable => HostV::Unreachable,
            Host::Socket(a) => HostV::Socket(a@),
        }
    }
}

/// One stored reachability candidate; sockets carry their rank.
#[derive(Clone, Copy, Debug, PartialEq, Eq)]
pub enum Candidate {
    Localhost,
    Unreachable,
    Socket(SocketAddress, u32),
}

/// Model of `Candidate`.
pub ghost enum CandidateV {
    Localhost,
    Unreachable,
    Socket((Seq<u8>, u16), u32),
}

impl View for Candidate {
    type V = CandidateV;

    open spec fn view(&self) -> CandidateV {
        match self {
            Candidate::Localhost => CandidateV::Localhost,
            Candidate::Unreachable => CandidateV::Unreachable,
            Candidate::Socket(a, r) => CandidateV::Socket(a@, *r),
        }
    }
}

/// The coarse preference tier of a candidate.
pub open spec fn cand_level(c: CandidateV) -> int {
    match c {
        CandidateV::Localhost => 2,
        CandidateV::Socket(_, _) => 1,
        CandidateV::Unreachable => 0,
    }
}

/// The rank of a socket candidate; other candidates carry none.
pub open spec fn cand_rank(c: CandidateV) -> u32 {
    match c {
        CandidateV::Socket(_, r) => r,
        _ => 0,
    }
}

/// Strict preference: a higher tier wins, and within the socket tier a
/// strictly higher rank wins.
pub open spec fn better(a: CandidateV, b: CandidateV) -> bool {
    cand_level(a) > cand_level(b) || (cand_level(a) == cand_level(b) && cand_rank(a) > cand_rank(
        b,
    ))
}

/// The best candidate among the first `n`, keeping the earlier one on ties.
pub open spec fn best_upto(hosts: Seq<CandidateV>, n: int) -> Option<CandidateV>
    decreases n,
{
    if n <= 0 || n > hosts.len() {
        None
    } else {
        let c = hosts[n - 1];
        match best_upto(hosts, n - 1) {
            Option::None => Option::Some(c),
            Option::Some(p) => if better(c, p) {
                Option::Some(c)
            } else {
                Option::Some(p)
            },
        }
    }
}

/// The best candidate of the whole set.
pub open spec fn spec_best(hosts: Seq<CandidateV>) -> Option<CandidateV> {
    best_upto(hosts, hosts.len() as int)
}

/// The reachability a best candidate amounts to; an empty set means the peer
/// is unreachable.
pub open spec fn host_of(c: Option<CandidateV>) -> HostV {
    match c {
        Option::None => HostV::Unreachable,
        Option::Some(CandidateV::Localhost) => HostV::Localhost,
        Option::Some(CandidateV::Unreachable) => HostV::Unreachable,
        Option::Some(CandidateV::Socket(a, _)) => HostV::Socket(a),
    }
}

/// Whether a candidate is the socket entry for `addr`.
pub open spec fn is_socket_with(c: CandidateV, addr: (Seq<u8>, u16)) -> bool {
    c matches CandidateV::Socket(a, _) && a == addr
}

/// The index of the socket candidate carrying `addr`, searching from `i`;
/// `-1` when absent.
pub open spec fn find_socket_from(hosts: Seq<CandidateV>, addr: (Seq<u8>, u16), i: int) -> int
    decreases hosts.len() - i,
{
    if i < 0 || i >= hosts.len() {
        -1
    } else if is_socket_with(hosts[i], addr) {
        i
    } else {
        find_socket_from(hosts, addr, i + 1)
    }
}

/// The index of the socket candidate carrying `addr`, or `-1`.
pub open spec fn find_socket(hosts: Seq<CandidateV>, addr: (Seq<u8>, u16)) -> int {
    find_socket_from(hosts, addr, 0)
}

/// A rank bumped by one, capped at its maximum.
pub open spec fn bumped(r: u32) -> u32 {
    if r < u32::MAX {
        (r + 1) as u32
    } else {
        r
    }
}

/// Whether some candidate is the local interface.
pub open spec fn has_local(hosts: Seq<CandidateV>) -> bool {
    exists|i: int| 0 <= i < hosts.len() && (#[trigger] hosts[i]) is Localhost
}

/// Whether some candidate is the unreachable marker.
pub open spec fn has_unreachable(hosts: Seq<CandidateV>) -> bool {
    exists|i: int| 0 <= i < hosts.len() && (#[trigger] hosts[i]) is Unreachable
}

/// The candidate set after merging one more announcement, with whether the
/// announcement was novel. A duplicate socket endpoint only has its rank
/// bumped; a duplicate `Localhost` or `Unreachable` changes nothing.
pub open spec fn add_host_model(hosts: Seq<CandidateV>, h: HostV) -> (Seq<CandidateV>, bool) {
    match h {
        HostV::Localhost => {
            if has_local(hosts) {
                (hosts, false)
            } else {
                (hosts.push(CandidateV::Localhost), true)
            }
        },
        HostV::Unreachable => {
            if has_unreachable(hosts) {
                (hosts, false)
            } else {
                (hosts.push(CandidateV::Unreachable), true)
            }
        },
        HostV::Socket(addr) => {
            let i = find_socket(hosts, addr);
            if i >= 0 {
                (hosts.update(i, CandidateV::Socket(addr, bumped(cand_rank(hosts[i])))), false)
            } else {
                (hosts.push(CandidateV::Socket(addr, 1)), true)
            }
        },
    }
}

/// A peer: its unique name and its reachability candidates.
#[derive(Clone, Debug)]
pub struct Peer {
    pub name: String,
    pub host: Vec<Candidate>,
}

/// Model of `Peer`.
pub ghost struct PeerV {
    pub name: Seq<char>,
    pub host: Seq<CandidateV>,
}

impl View for Peer {
    type V = PeerV;

    open spec fn view(&self) -> PeerV {
        PeerV { name: self.name@, host: self.host@.map_values(|c: Candidate| c@) }
    }
}

/// Characterizes `find_socket_from`: a negative result means no matching
/// socket candidate at or after `i`; a non-negative result points at the
/// first one.
pub proof fn lemma_find_socket_from(hosts: Seq<CandidateV>, addr: (Seq<u8>, u16), i: int)
    requires
        0 <= i <= hosts.len(),
    ensures
        find_socket_from(hosts, addr, i) == -1 ==> forall|j: int|
            i <= j < hosts.len() ==> !is_socket_with(#[trigger] hosts[j], addr),
        find_socket_from(hosts, addr, i) != -1 ==> {
            let k = find_socket_from(hosts, addr, i);
            &&& i <= k < hosts.len()
            &&& is_socket_with(hosts[k], addr)
            &&& forall|j: int| i <= j < k ==> !is_socket_with(#[trigger] hosts[j], addr)
        },
    decreases hosts.len() - i,
{
    if i < hosts.len() {
        lemma_find_socket_from(hosts, addr, i + 1);
    }
}

impl Peer {
    pub fn new(name: String) -> (r: Peer)
        ensures
            r@.name == name@,
            r@.host == Seq::<CandidateV>::empty(),
    {
        let r = Peer { name, host: Vec::new() };
        proof {
            assert(r@.host =~= Seq::<CandidateV>::empty());
        }
        r
    }

    /// A copy carrying the same name and candidates.
    pub fn duplicate(&self) -> (r: Peer)
        ensures
            r@ == self@,
    {
        let name = self.name.clone();
        let mut host: Vec<Candidate> = Vec::new();
        let mut i: usize = 0;
        while i < self.host.len()
            invariant
                i <= self.host@.len(),
                host@ =~= self.host@.subrange(0, i as int),
            decreases self.host@.len() - i,
        {
            host.push(self.host[i]);
            i = i + 1;
        }
        proof {
            assert(host@ =~= self.host@);
        }
        let r = Peer { name, host };
        proof {
            assert(r@.host =~= self@.host);
        }
        r
    }

    /// The peer's current reachability: its best candidate.
    pub fn get_host(&self) -> (r: Host)
        ensures
            r@ == host_of(spec_best(self@.host)),
    {
        let mut best: Option<Candidate> = None;
        let mut i: usize = 0;
        while i < self.host.len()
            invariant
                i <= self.host@.len(),
                match best {
                    Option::None => best_upto(self@.host, i as int) is None,
                    Option::Some(b) => best_upto(self@.host, i as int) == Option::Some(b@),
                },
            decreases self.host@.len() - i,
        {
            let c = self.host[i];
            proof {
                assert(self@.host[i as int] == c@);
            }
            match best {
                None => {
                    best = Some(c);
                },
                Some(b) => {
                    if Self::better_exec(&c, &b) {
                        best = Some(c);
                    }
                },
            }
            i = i + 1;
        }
        proof {
            assert(self.host@.len() == self@.host.len());
        }
        match best {
            None => Host::Unreachable,
            Some(Candidate::Localhost) => Host::Localhost,
            Some(Candidate::Unreachable) => Host::Unreachable,
            Some(Candidate::Socket(a, _)) => Host::Socket(a),
        }
    }

    /// Strict preference between two stored candidates.
    fn better_exec(a: &Candidate, b: &Candidate) -> (r: bool)
        ensures
            r == better(a@, b@),
    {
        let la: u8 = match a {
            Candidate::Localhost => 2,
            Candidate::Socket(_, _) => 1,
            Candidate::Unreachable => 0,
        };
        let lb: u8 = match b {
            Candidate::Localhost => 2,
            Candidate::Socket(_, _) => 1,
            Candidate::Unreachable => 0,
        };
        if la != lb {
            la > lb
        } else {
            let ra: u32 = match a {
                Candidate::Socket(_, r) => *r,
                _ => 0,
            };
            let rb: u32 = match b {
                Candidate::Socket(_, r) => *r,
                _ => 0,
            };
            ra > rb
        }
    }

    /// Merges one announced reachability. `Ok` reports a novel candidate;
    /// `Err` reports a duplicate, whose rank (for sockets) was bumped.
    pub fn add_host(&mut self, host: Host) -> (r: Result<(), ()>)
        ensures
            final(self)@.name == old(self)@.name,
            final(self)@.host == add_host_model(old(self)@.host, host@).0,
            (r is Ok) == add_host_model(old(self)@.host, host@).1,
    {
        let ghost old_hosts = self@.host;
        match host {
            Host::Localhost => {
                let mut i: usize = 0;
                while i < self.host.len()
                    invariant
                        i <= self.host@.len(),
                        self@.name == old(self)@.name,
                        old_hosts == self@.host,
                        old_hosts == old(self)@.host,
                        forall|j: int| 0 <= j < i ==> !((#[trigger] old_hosts[j]) is Localhost),
                    decreases self.host@.len() - i,
                {
                    let c = self.host[i];
                    proof {
                        assert(old_hosts[i as int] == c@);
                    }
                    if let Candidate::Localhost = c {
                        proof {
                            assert(has_local(old_hosts)) by {
                                assert(old_hosts[i as int] is Localhost);
                            }
                        }
                        return Err(());
                    }
                    i = i + 1;
                }
                proof {
                    assert(!has_local(old_hosts));
                }
                self.host.push(Candidate::Localhost);
                proof {
                    assert(self@.host =~= old_hosts.push(CandidateV::Localhost));
                }
                Ok(())
            },
            Host::Unreachable => {
                let mut i: usize = 0;
                while i < self.host.len()
                    invariant
                        i <= self.host@.len(),
                        self@.name == old(self)@.name,
                        old_hosts == self@.host,
                        old_hosts == old(self)@.host,
                        forall|j: int| 0 <= j < i ==> !((#[trigger] old_hosts[j]) is Unreachable),
                    decreases self.host@.len() - i,
                {
                    let c = self.host[i];
                    proof {
                        assert(old_hosts[i as int] == c@);
                    }
                    if let Candidate::Unreachable = c {
                        proof {
                            assert(has_unreachable(old_hosts)) by {
                                assert(old_hosts[i as int] is Unreachable);
                            }
                        }
                        return Err(());
                    }
                    i = i + 1;
                }
                proof {
                    assert(!has_unreachable(old_hosts));
                }
                self.host.push(Candidate::Unreachable);
                proof {
                    assert(self@.host =~= old_hosts.push(CandidateV::Unreachable));
                }
                Ok(())
            },
            Host::Socket(addr) => {
                let ghost addrv = addr@;
                proof {
                    lemma_find_socket_from(old_hosts, addrv, 0);
                }
                let mut i: usize = 0;
                while i < self.host.len()
                    invariant
                        i <= self.host@.len(),
                        self@.name == old(self)@.name,
                        old_hosts == self@.host,
                        old_hosts == old(self)@.host,
                        addrv == addr@,
                        forall|j: int| 0 <= j < i ==> !is_socket_with(#[trigger] old_hosts[j], addrv),
                        find_socket(old_hosts, addrv) == -1 || find_socket(old_hosts, addrv) >= i,
                        find_socket(old_hosts, addrv) != -1 ==> {
                            let k = find_socket(old_hosts, addrv);
                            0 <= k < old_hosts.len() && is_socket_with(old_hosts[k], addrv)
                        },
                    decreases self.host@.len() - i,
                {
                    let c = self.host[i];
                    proof {
                        assert(old_hosts[i as int] == c@);
                    }
                    if let Candidate::Socket(a, r) = c {
                        if a.same_as(&addr) {
                            proof {
                                assert(is_socket_with(old_hosts[i as int], addrv));
                                assert(find_socket(old_hosts, addrv) == i) by {
                                    lemma_find_socket_from(old_hosts, addrv, 0);
                                }
                            }
                            let bumped_rank: u32 = if r < u32::MAX {
                                r + 1
                            } else {
                                r
                            };
                            self.host.set(i, Candidate::Socket(addr, bumped_rank));
                            proof {
                                assert(self@.host =~= old_hosts.update(
                                    i as int,
                                    CandidateV::Socket(addrv, bumped(cand_rank(old_hosts[i as int]))),
                                ));
                            }
                            return Err(());
                        }
                    }
                    proof {
                        assert(!is_socket_with(old_hosts[i as int], addrv));
                    }
                    i = i + 1;
                }
                proof {
                    assert(find_socket(old_hosts, addrv) == -1);
                }
                self.host.push(Candidate::Socket(addr, 1));
                proof {
                    assert(self@.host =~= old_hosts.push(CandidateV::Socket(addrv, 1)));
                }
                Ok(())
            },
        }
    }
}

} // verus!
