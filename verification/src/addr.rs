//! Address types of the library: an IP address held as its raw octets, and a
//! socket address pairing it with a UDP port. Holding octets directly keeps
//! every bit of the address visible to the contracts.

use vstd::prelude::*;

verus! {

/// An IP address as raw octets: four for the v4 family, sixteen for v6.
#[derive(Clone, Copy, Debug, PartialEq, Eq)]
pub enum IpAddress {
    V4([u8; 4]),
    V6([u8; 16]),
}

impl View for IpAddress {
    type V = Seq<u8>;

    open spec fn view(&self) -> Seq<u8> {
        match self {
            IpAddress::V4(a) => a@,
            IpAddress::V6(a) => a@,
        }
    }
}

impl IpAddress {
    /// True for an address of the v4 family.
    pub fn is_v4(&self) -> (r: bool)
        ensures
            r == (self@.len() == 4),
    {
        match self {
            IpAddress::V4(_) => true,
            IpAddress::V6(_) => false,
        }
    }

    /// The octets as an owned vector.
    pub fn octets(&self) -> (r: Vec<u8>)
        ensures
            r@ == self@,
    {
        let mut v: Vec<u8> = Vec::new();
        match self {
            IpAddress::V4(a) => {
                let mut i: usize = 0;
                while i < 4
                    invariant
                        i <= 4,
                        v@ =~= a@.subrange(0, i as int),
                    decreases 4 - i,
                {
                    v.push(a[i]);
                    i = i + 1;
                }
                proof {
                    assert(v@ =~= a@);
                }
            },
            IpAddress::V6(a) => {
                let mut i: usize = 0;
                while i < 16
                    invariant
                        i <= 16,
                        v@ =~= a@.subrange(0, i as int),
                    decreases 16 - i,
                {
                    v.push(a[i]);
                    i = i + 1;
                }
                proof {
                    assert(v@ =~= a@);
                }
            },
        }
        v
    }

    /// Reads an address back from raw octets: four octets give a v4 address,
    /// sixteen a v6 address, any other count is rejected.
    pub fn from_bytes(v: &[u8]) -> (r: Option<IpAddress>)
        ensures
            match r {
                Some(a) => a@ == v@ && (v@.len() == 4 || v@.len() == 16),
                None => v@.len() != 4 && v@.len() != 16,
            },
    {
        if v.len() == 4 {
            let a = [v[0], v[1], v[2], v[3]];
            proof {
                assert(a@ =~= v@);
            }
            Some(IpAddress::V4(a))
        } else if v.len() == 16 {
            let a = [
                v[0],
                v[1],
                v[2],
                v[3],
                v[4],
                v[5],
                v[6],
                v[7],
                v[8],
                v[9],
                v[10],
                v[11],
                v[12],
                v[13],
                v[14],
                v[15],
            ];
            proof {
                assert(a@ =~= v@);
            }
            Some(IpAddress::V6(a))
        } else {
            None
        }
    }

    /// Octet-for-octet equality, within one family.
    pub fn same_as(&self, other: &Self) -> (r: bool)
        ensures
            r == (self@ == other@),
    {
        match (self, other) {
            (IpAddress::V4(a), IpAddress::V4(b)) => {
                let mut i: usize = 0;
                let mut eq = true;
                while i < 4
                    invariant
                        i <= 4,
                        eq == (forall|k: int| 0 <= k < i ==> a@[k] == b@[k]),
                    decreases 4 - i,
                {
                    if a[i] != b[i] {
                        eq = false;
                    }
                    i = i + 1;
                }
                proof {
                    if eq {
                        assert(a@ =~= b@);
                    } else {
                        let k = choose|k: int| 0 <= k < 4 && a@[k] != b@[k];
                        assert(a@[k] != b@[k]);
                    }
                }
                eq
            },
            (IpAddress::V6(a), IpAddress::V6(b)) => {
                let mut i: usize = 0;
                let mut eq = true;
                while i < 16
                    invariant
                        i <= 16,
                        eq == (forall|k: int| 0 <= k < i ==> a@[k] == b@[k]),
                    decreases 16 - i,
                {
                    if a[i] != b[i] {
                        eq = false;
                    }
                    i = i + 1;
                }
                proof {
                    if eq {
                        assert(a@ =~= b@);
                    } else {
                        let k = choose|k: int| 0 <= k < 16 && a@[k] != b@[k];
                        assert(a@[k] != b@[k]);
                    }
                }
                eq
            },
            _ => {
                proof {
                    assert(self@.len() != other@.len());
                }
                false
            },
        }
    }
}

/// A reachable UDP endpoint: an IP address and a port.
#[derive(Clone, Copy, Debug, PartialEq, Eq)]
pub struct SocketAddress {
    pub ip: IpAddress,
    pub port: u16,
}

impl View for SocketAddress {
    type V = (Seq<u8>, u16);

    open spec fn view(&self) -> (Seq<u8>, u16) {
        (self.ip@, self.port)
    }
}

impl SocketAddress {
    pub fn new(ip: IpAddress, port: u16) -> (r: SocketAddress)
        ensures
            r@ == (ip@, port),
    {
        SocketAddress { ip, port }
    }

    /// Equality of both the address octets and the port.
    pub fn same_as(&self, other: &Self) -> (r: bool)
        ensures
            r == (self@ == other@),
    {
        self.port == other.port && self.ip.same_as(&other.ip)
    }
}

} // verus!
