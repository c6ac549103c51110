//! An IP datagram held as an owned byte buffer, with parse-on-demand access
//! to the version nibble and the source and destination addresses, and a pool
//! of fixed-size receive buffers.

use vstd::prelude::*;

use crate::addr::IpAddress;

verus! {

/// The IP family read from a packet's version nibble.
#[derive(Clone, Copy, Debug, PartialEq, Eq, Structural)]
pub enum Version {
    V4,
    V6,
}

/// One IP datagram: the raw bytes as read from or written to the device.
#[derive(Clone, Debug, PartialEq, Eq)]
pub struct Package {
    pub raw_package: Vec<u8>,
}

impl View for Package {
    type V = Seq<u8>;

    open spec fn view(&self) -> Seq<u8> {
        self.raw_package@
    }
}

/// A well-formed packet: the version nibble names a family and the buffer is
/// long enough for that family's fixed header.
pub open spec fn spec_valid_package(bytes: Seq<u8>) -> bool {
    bytes.len() >= 1 && ((bytes[0] / 16 == 4 && bytes.len() >= 20) || (bytes[0] / 16 == 6
        && bytes.len() >= 40))
}

/// The source address field of a well-formed packet.
pub open spec fn spec_source(bytes: Seq<u8>) -> Seq<u8>
    recommends
        spec_valid_package(bytes),
{
    if bytes[0] / 16 == 4 {
        bytes.subrange(12, 16)
    } else {
        bytes.subrange(8, 24)
    }
}

/// The destination address field of a well-formed packet.
pub open spec fn spec_destination(bytes: Seq<u8>) -> Seq<u8>
    recommends
        spec_valid_package(bytes),
{
    if bytes[0] / 16 == 4 {
        bytes.subrange(16, 20)
    } else {
        bytes.subrange(24, 40)
    }
}

impl Package {
    /// Wraps a raw buffer; nothing is checked here, `valid` tells whether the
    /// bytes form a packet the router may see.
    pub fn from_buffer(buffer: Vec<u8>) -> (r: Package)
        ensures
            r@ == buffer@,
    {
        Package { raw_package: buffer }
    }

    pub fn len(&self) -> (r: usize)
        ensures
            r == self@.len(),
    {
        self.raw_package.len()
    }

    pub fn is_empty(&self) -> (r: bool)
        ensures
            r == (self@.len() == 0),
    {
        self.raw_package.is_empty()
    }

    /// Whether the buffer holds a packet with a known version nibble and a
    /// complete fixed header. Malformed packets are dropped at ingress.
    pub fn valid(&self) -> (r: bool)
        ensures
            r == spec_valid_package(self@),
    {
        if self.raw_package.len() == 0 {
            return false;
        }
        let nibble = self.raw_package[0] / 16;
        (nibble == 4 && self.raw_package.len() >= 20) || (nibble == 6 && self.raw_package.len()
            >= 40)
    }

    /// The IP family of the packet.
    pub fn version(&self) -> (v: Version)
        requires
            spec_valid_package(self@),
        ensures
            v == Version::V4 <==> self@[0] / 16 == 4,
            v == Version::V6 <==> self@[0] / 16 == 6,
    {
        let nibble = crate::utils::Reader::read_u4_high(self.raw_package.as_slice());
        if nibble == 4 {
            Version::V4
        } else {
            Version::V6
        }
    }

    /// The source address bytes of the header.
    pub fn source_address(&self) -> (r: IpAddress)
        requires
            spec_valid_package(self@),
        ensures
            r@ == spec_source(self@),
    {
        let r = &self.raw_package;
        match self.version() {
            Version::V4 => {
                let a = [r[12], r[13], r[14], r[15]];
                proof {
                    assert(a@ =~= self@.subrange(12, 16));
                }
                IpAddress::V4(a)
            },
            Version::V6 => {
                let a = [
                    r[8],
                    r[9],
                    r[10],
                    r[11],
                    r[12],
                    r[13],
                    r[14],
                    r[15],
                    r[16],
                    r[17],
                    r[18],
                    r[19],
                    r[20],
                    r[21],
                    r[22],
                    r[23],
                ];
                proof {
                    assert(a@ =~= self@.subrange(8, 24));
                }
                IpAddress::V6(a)
            },
        }
    }

    /// The destination address bytes of the header.
    pub fn destination_address(&self) -> (r: IpAddress)
        requires
            spec_valid_package(self@),
        ensures
            r@ == spec_destination(self@),
    {
        let r = &self.raw_package;
        match self.version() {
            Version::V4 => {
                let a = [r[16], r[17], r[18], r[19]];
                proof {
                    assert(a@ =~= self@.subrange(16, 20));
                }
                IpAddress::V4(a)
            },
            Version::V6 => {
                let a = [
                    r[24],
                    r[25],
                    r[26],
                    r[27],
                    r[28],
                    r[29],
                    r[30],
                    r[31],
                    r[32],
                    r[33],
                    r[34],
                    r[35],
                    r[36],
                    r[37],
                    r[38],
                    r[39],
                ];
                proof {
                    assert(a@ =~= self@.subrange(24, 40));
                }
                IpAddress::V6(a)
            },
        }
    }
}

/// A pool of 1500-byte receive buffers, refilled in bursts of five when it
/// runs dry so the hot path does not allocate.
pub struct Buffer {
    pub free: Vec<Vec<u8>>,
}

impl Buffer {
    pub fn new() -> (r: Buffer)
        ensures
            r.free@.len() == 0,
    {
        Buffer { free: Vec::new() }
    }

    /// Hands out one buffer of exactly 1500 bytes, reusing a pooled one when
    /// available and restocking five spares otherwise.
    pub fn get(&mut self) -> (r: Vec<u8>)
        ensures
            r@.len() == 1500,
            final(self).free@.len() == if old(self).free@.len() == 0 {
                5int
            } else {
                old(self).free@.len() - 1
            },
    {
        if self.free.is_empty() {
            let mut i: usize = 0;
            while i < 5
                invariant
                    i <= 5,
                    self.free@.len() == i,
                decreases 5 - i,
            {
                let spare: Vec<u8> = vec![0u8; 1500];
                self.free.push(spare);
                i = i + 1;
            }
            let fresh: Vec<u8> = vec![0u8; 1500];
            fresh
        } else {
            let mut b = self.free.pop().unwrap();
            b.resize(1500, 0u8);
            b
        }
    }

    /// Trims a buffer to the bytes actually read.
    pub fn set_len(buffer: &mut Vec<u8>, len: usize)
        requires
            len <= old(buffer)@.len(),
        ensures
            final(buffer)@ == old(buffer)@.subrange(0, len as int),
    {
        buffer.truncate(len);
    }

    /// Returns a buffer to the pool once its contents are consumed.
    pub fn put_back(&mut self, buffer: Vec<u8>)
        ensures
            final(self).free@ == old(self).free@.push(buffer),
    {
        self.free.push(buffer);
    }
}

} // verus!
