//! The configuration record the daemon runs on: device, port, own subnet in
//! `A.B.C.D/M` form, shell hooks, bootstrap peers and the node's own name.
//! Loading it from disk and the command line is the binary's business; the
//! subnet parsing and the environment for the shell hooks are logic and live
//! here.

use vstd::prelude::*;
use vstd::utf8::encode_utf8;

use crate::addr::IpAddress;

verus! {

/// The kind of virtual device: `Tun` carries IP packets; `Tap` (Ethernet
/// frames) is declared but not implemented.
#[derive(Clone, Copy, Debug, PartialEq, Eq, Structural)]
pub enum Type {
    Tun,
    Tap,
}

/// One configured bootstrap peer.
#[derive(Debug)]
pub struct Server {
    pub address: String,
    pub port: u16,
    pub name: String,
}

/// The configuration record, as the core consumes it.
#[derive(Debug)]
pub struct Config {
    pub device_name: String,
    pub device_type: Type,
    pub port: u16,
    pub subnet: String,
    pub ifup: String,
    pub ifdown: String,
    pub servers: Vec<Server>,
    pub name: String,
}

/// An ASCII decimal digit.
pub open spec fn is_digit(b: u8) -> bool {
    48 <= b <= 57
}

/// The index after the run of digits starting at `i`.
pub open spec fn digit_run_end(b: Seq<u8>, i: int) -> int
    decreases b.len() - i,
{
    if i < 0 || i >= b.len() {
        i
    } else if is_digit(b[i]) {
        digit_run_end(b, i + 1)
    } else {
        i
    }
}

/// The value of the decimal digits `b[i..j]`, most significant first.
pub open spec fn dec_value(b: Seq<u8>, i: int, j: int) -> int
    decreases j - i,
{
    if j <= i {
        0
    } else {
        dec_value(b, i, j - 1) * 10 + (b[j - 1] - 48)
    }
}

/// Reads an unsigned decimal number at `i`: its value and the index after
/// it; nothing when no digit starts there or the value overflows 32 bits.
pub open spec fn parse_u32_at(b: Seq<u8>, i: int) -> Option<(u32, int)> {
    let j = digit_run_end(b, i);
    if j == i || dec_value(b, i, j) > 0xFFFF_FFFF {
        Option::None
    } else {
        Option::Some((dec_value(b, i, j) as u32, j))
    }
}

/// Reads one dotted-quad octet at `i`: a decimal number of at most 255.
pub open spec fn parse_octet_at(b: Seq<u8>, i: int) -> Option<(u8, int)> {
    match parse_u32_at(b, i) {
        Option::None => Option::None,
        Option::Some((v, j)) => if v <= 255 {
            Option::Some((v as u8, j))
        } else {
            Option::None
        },
    }
}

/// Reads `A.B.C.D` at `i`: the four octets and the index after them.
pub open spec fn parse_ipv4_at(b: Seq<u8>, i: int) -> Option<(Seq<u8>, int)> {
    match parse_octet_at(b, i) {
        Option::None => Option::None,
        Option::Some((o1, j1)) => if j1 < b.len() && b[j1] == 46 {
            match parse_octet_at(b, j1 + 1) {
                Option::None => Option::None,
                Option::Some((o2, j2)) => if j2 < b.len() && b[j2] == 46 {
                    match parse_octet_at(b, j2 + 1) {
                        Option::None => Option::None,
                        Option::Some((o3, j3)) => if j3 < b.len() && b[j3] == 46 {
                            match parse_octet_at(b, j3 + 1) {
                                Option::None => Option::None,
                                Option::Some((o4, j4)) => Option::Some(
                                    (seq![o1, o2, o3, o4], j4),
                                ),
                            }
                        } else {
                            Option::None
                        },
                    }
                } else {
                    Option::None
                },
            }
        } else {
            Option::None
        },
    }
}

/// The index of the first `/` at or after `i`, or the length.
pub open spec fn slash_at(b: Seq<u8>, i: int) -> int
    decreases b.len() - i,
{
    if i < 0 || i >= b.len() {
        b.len() as int
    } else if b[i] == 47 {
        i
    } else {
        slash_at(b, i + 1)
    }
}

/// The address part of a `A.B.C.D/M` subnet string: the four octets, if
/// everything before the first slash is exactly a dotted quad.
pub open spec fn spec_subnet_v4(b: Seq<u8>) -> Option<Seq<u8>> {
    match parse_ipv4_at(b, 0) {
        Option::None => Option::None,
        Option::Some((o, j)) => if j == slash_at(b, 0) {
            Option::Some(o)
        } else {
            Option::None
        },
    }
}

/// The mask part of a `A.B.C.D/M` subnet string: the number after the first
/// slash, if the slash exists and the rest is exactly a number.
pub open spec fn spec_subnet_mask(b: Seq<u8>) -> Option<u32> {
    let s = slash_at(b, 0);
    if s == b.len() {
        Option::None
    } else {
        match parse_u32_at(b, s + 1) {
            Option::None => Option::None,
            Option::Some((m, k)) => if k == b.len() {
                Option::Some(m)
            } else {
                Option::None
            },
        }
    }
}

/// Reads a decimal `u32` in a byte slice; mirrors `parse_u32_at`.
fn read_u32_at(b: &[u8], i: usize) -> (r: Option<(u32, usize)>)
    requires
        i <= b@.len(),
    ensures
        match r {
            Some(p) => parse_u32_at(b@, i as int) == Option::Some((p.0, p.1 as int)) && i < p.1
                <= b@.len(),
            None => parse_u32_at(b@, i as int) is None,
        },
{
    let mut j: usize = i;
    let mut acc: u64 = 0;
    let mut over = false;
    while j < b.len() && b[j] >= 48 && b[j] <= 57
        invariant
            i <= j <= b@.len(),
            digit_run_end(b@, i as int) == digit_run_end(b@, j as int),
            over == (dec_value(b@, i as int, j as int) > 0xFFFF_FFFF),
            !over ==> acc == dec_value(b@, i as int, j as int),
            acc <= 0xFFFF_FFFF,
        decreases b@.len() - j,
    {
        let d = (b[j] - 48) as u64;
        if over {
            proof {
                assert(dec_value(b@, i as int, j as int + 1) == dec_value(
                    b@,
                    i as int,
                    j as int,
                ) * 10 + (b@[j as int] - 48));
            }
        } else {
            let next = acc * 10 + d;
            if next > 0xFFFF_FFFF {
                over = true;
            } else {
                acc = next;
            }
        }
        j = j + 1;
    }
    proof {
        assert(digit_run_end(b@, j as int) == j);
    }
    if j == i || over {
        None
    } else {
        Some((acc as u32, j))
    }
}

/// Reads one octet; mirrors `parse_octet_at`.
fn read_octet_at(b: &[u8], i: usize) -> (r: Option<(u8, usize)>)
    requires
        i <= b@.len(),
    ensures
        match r {
            Some(p) => parse_octet_at(b@, i as int) == Option::Some((p.0, p.1 as int)) && i < p.1
                <= b@.len(),
            None => parse_octet_at(b@, i as int) is None,
        },
{
    match read_u32_at(b, i) {
        None => None,
        Some((v, j)) => {
            if v <= 255 {
                Some((v as u8, j))
            } else {
                None
            }
        },
    }
}

/// Reads a dotted quad; mirrors `parse_ipv4_at`.
fn read_ipv4_at(b: &[u8], i: usize) -> (r: Option<([u8; 4], usize)>)
    requires
        i <= b@.len(),
    ensures
        match r {
            Some(p) => parse_ipv4_at(b@, i as int) == Option::Some((p.0@, p.1 as int)) && p.1
                <= b@.len(),
            None => parse_ipv4_at(b@, i as int) is None,
        },
{
    match read_octet_at(b, i) {
        None => None,
        Some((o1, j1)) => {
            if j1 < b.len() && b[j1] == 46 {
                match read_octet_at(b, j1 + 1) {
                    None => None,
                    Some((o2, j2)) => {
                        if j2 < b.len() && b[j2] == 46 {
                            match read_octet_at(b, j2 + 1) {
                                None => None,
                                Some((o3, j3)) => {
                                    if j3 < b.len() && b[j3] == 46 {
                                        match read_octet_at(b, j3 + 1) {
                                            None => None,
                                            Some((o4, j4)) => {
                                                let quad = [o1, o2, o3, o4];
                                                proof {
                                                    assert(quad@ =~= seq![o1, o2, o3, o4]);
                                                }
                                                Some((quad, j4))
                                            },
                                        }
                                    } else {
                                        None
                                    }
                                },
                            }
                        } else {
                            None
                        }
                    },
                }
            } else {
                None
            }
        },
    }
}

/// The index of the first slash; mirrors `slash_at`.
fn find_slash(b: &[u8]) -> (r: usize)
    ensures
        r == slash_at(b@, 0),
        r <= b@.len(),
{
    let mut i: usize = 0;
    while i < b.len()
        invariant
            i <= b@.len(),
            slash_at(b@, 0) == slash_at(b@, i as int),
        decreases b@.len() - i,
    {
        if b[i] == 47 {
            return i;
        }
        i = i + 1;
    }
    i
}

impl Config {
    /// The environment handed to the `ifup`/`ifdown` shell hooks: the device
    /// name and the configured subnet, under their fixed variable names.
    pub fn get_env(&self) -> (r: Vec<(String, String)>)
        ensures
            r@.len() == 2,
            r@[0].0@ == "INTERFACE"@,
            r@[0].1@ == self.device_name@,
            r@[1].0@ == "IP_ADDR_MASK"@,
            r@[1].1@ == self.subnet@,
    {
        let mut r: Vec<(String, String)> = Vec::new();
        r.push(("INTERFACE".to_owned(), self.device_name.clone()));
        r.push(("IP_ADDR_MASK".to_owned(), self.subnet.clone()));
        r
    }

    /// The address of the configured subnet, when the part before the slash
    /// is a well-formed dotted quad.
    pub fn get_v4(&self) -> (r: Option<IpAddress>)
        ensures
            match r {
                Some(a) => spec_subnet_v4(encode_utf8(self.subnet@)) == Option::Some(a@),
                None => spec_subnet_v4(encode_utf8(self.subnet@)) is None,
            },
    {
        let b = self.subnet.as_str().as_bytes();
        match read_ipv4_at(b, 0) {
            None => None,
            Some((quad, j)) => {
                let s = find_slash(b);
                if j == s {
                    Some(IpAddress::V4(quad))
                } else {
                    None
                }
            },
        }
    }

    /// The mask of the configured subnet, when a slash is present and
    /// followed by exactly a number.
    pub fn get_v4_mask(&self) -> (r: Option<u32>)
        ensures
            r == spec_subnet_mask(encode_utf8(self.subnet@)),
    {
        let b = self.subnet.as_str().as_bytes();
        let s = find_slash(b);
        if s == b.len() {
            return None;
        }
        match read_u32_at(b, s + 1) {
            None => None,
            Some((m, k)) => {
                if k == b.len() {
                    Some(m)
                } else {
                    None
                }
            },
        }
    }
}

/// An ASCII letter or digit.
pub open spec fn is_alnum(c: char) -> bool {
    ('0' <= c <= '9') || ('a' <= c <= 'z') || ('A' <= c <= 'Z')
}

/// Relies on rand's thread-local generator with the `Alphanumeric`
/// distribution, which draws bytes from the 62 ASCII letters and digits:
/// five such characters. Which five is left to the generator.
#[verifier::external_body]
fn random_alnum_suffix() -> (r: String)
    ensures
        r@.len() == 5,
        forall|i: int| 0 <= i < r@.len() ==> is_alnum(#[trigger] r@[i]),
{
    <rand::distr::Alphanumeric as rand::distr::Distribution<u8>>::sample_iter(
        rand::distr::Alphanumeric,
        rand::rng(),
    ).take(5).map(char::from).collect()
}

impl Default for Config {
    /// A fallback configuration: a `tun` device named `ph0` on the default
    /// port, an unusable subnet, hooks that refuse to run, no bootstrap
    /// peers, and a name of `ph-` followed by five random characters so two
    /// unconfigured nodes do not collide.
    fn default() -> (r: Config)
        ensures
            r.device_name@ == "ph0"@,
            r.device_type == Type::Tun,
            r.port == 7654,
            r.subnet@ == "128.66.1.0/32"@,
            r.servers@.len() == 0,
            r.name@.len() == 8,
            r.name@.subrange(0, 3) == "ph-"@,
            forall|i: int| 3 <= i < 8 ==> is_alnum(#[trigger] r.name@[i]),
    {
        proof {
            reveal_strlit("ph-");
        }
        let suffix = random_alnum_suffix();
        let mut name = "ph-".to_owned();
        name.append(suffix.as_str());
        proof {
            assert(name@.subrange(0, 3) =~= "ph-"@);
        }
        Config {
            device_name: "ph0".to_owned(),
            device_type: Type::Tun,
            port: 7654,
            subnet: "128.66.1.0/32".to_owned(),
            ifup: "/bin/sh -c 'exit 1'".to_owned(),
            ifdown: "/bin/sh -c 'exit 1'".to_owned(),
            servers: Vec::new(),
            name,
        }
    }
}

} // verus!
