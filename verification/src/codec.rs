//! The wire codec: a length-delimited tagged-union binary form for the
//! control and data messages, little-endian base-128 varints with one-byte
//! field tags. Unknown fields are skipped on decode; any malformed input
//! decodes to the no-op message.

use vstd::prelude::*;
use vstd::utf8::{decode_utf8, encode_utf8, valid_utf8};

use crate::addr::SocketAddress;
use crate::message::{Message, MessageV, Node, NodeV};
use crate::package::Package;

verus! {

/// The wire-level content of an encodable message, before the destination
/// address is attached.
pub ghost enum PayloadV {
    Package(Seq<u8>, u32),
    AddNode(NodeV),
    DelNode(NodeV),
    Ping(Seq<char>),
}

/// A base-128 varint, least significant group first, high bit marking
/// continuation.
pub open spec fn enc_varint(x: u64) -> Seq<u8>
    decreases x,
{
    if x < 128 {
        seq![x as u8]
    } else {
        seq![(x % 128 + 128) as u8] + enc_varint(x / 128)
    }
}

/// A length-delimited field: tag, length varint, raw bytes.
pub open spec fn enc_bytes_field(tag: u8, b: Seq<u8>) -> Seq<u8> {
    seq![tag] + enc_varint(b.len() as u64) + b
}

/// A varint field: tag, value varint.
pub open spec fn enc_varint_field(tag: u8, v: u64) -> Seq<u8> {
    seq![tag] + enc_varint(v)
}

/// A node announcement record: name, subnet, mask, real address, port, hop
/// count, each under its fixed tag.
pub open spec fn enc_node(n: NodeV) -> Seq<u8> {
    enc_bytes_field(0x0A, encode_utf8(n.name)) + enc_bytes_field(0x12, n.sub_net)
        + enc_varint_field(0x18, n.net_mask as u64) + enc_bytes_field(0x22, n.real_ip)
        + enc_varint_field(0x28, n.port as u64) + enc_varint_field(0x30, n.jump as u64)
}

/// The top-level record: exactly one payload choice under its tag.
pub open spec fn enc_payload(p: PayloadV) -> Seq<u8> {
    match p {
        PayloadV::Package(b, ttl) => enc_bytes_field(
            0x0A,
            enc_bytes_field(0x0A, b) + enc_varint_field(0x10, ttl as u64),
        ),
        PayloadV::AddNode(n) => enc_bytes_field(0x12, enc_node(n)),
        PayloadV::DelNode(n) => enc_bytes_field(0x1A, enc_node(n)),
        PayloadV::Ping(name) => enc_bytes_field(0x22, enc_bytes_field(0x0A, encode_utf8(name))),
    }
}

/// Whether a message can go on the wire: only the four write-direction
/// transport variants can.
pub open spec fn is_encodable(m: MessageV) -> bool {
    ||| m is PackageShareWrite
    ||| m is AddNodeWrite
    ||| m is DelNodeWrite
    ||| m is PingPongWrite
}

/// The wire content of an encodable message.
pub open spec fn payload_of(m: MessageV) -> PayloadV
    recommends
        is_encodable(m),
{
    match m {
        MessageV::PackageShareWrite(_, b, ttl) => PayloadV::Package(b, ttl),
        MessageV::AddNodeWrite(_, n) => PayloadV::AddNode(n),
        MessageV::DelNodeWrite(_, n) => PayloadV::DelNode(n),
        MessageV::PingPongWrite(_, name) => PayloadV::Ping(name),
        _ => PayloadV::Ping(Seq::empty()),
    }
}

/// The destination an encodable message carries.
pub open spec fn dest_of(m: MessageV) -> (Seq<u8>, u16)
    recommends
        is_encodable(m),
{
    match m {
        MessageV::PackageShareWrite(a, _, _) => a,
        MessageV::AddNodeWrite(a, _) => a,
        MessageV::DelNodeWrite(a, _) => a,
        MessageV::PingPongWrite(a, _) => a,
        _ => (Seq::empty(), 0),
    }
}

/// Decodes one varint at `i`: the value and the index after it. Rejects a
/// value that would not fit in 64 bits, and a truncated input.
pub open spec fn dec_varint(b: Seq<u8>, i: int) -> Option<(u64, int)>
    decreases b.len() - i,
{
    if i < 0 || i >= b.len() {
        None
    } else {
        let x = b[i];
        if x < 128 {
            Option::Some((x as u64, i + 1))
        } else {
            match dec_varint(b, i + 1) {
                Option::None => Option::None,
                Option::Some((v, j)) => if v <= (0xFFFF_FFFF_FFFF_FFFFu64 - (x - 128)) / 128 {
                    Option::Some(((x - 128 + v * 128) as u64, j))
                } else {
                    Option::None
                },
            }
        }
    }
}

/// Decodes a length varint at `i` and takes that many bytes after it.
pub open spec fn dec_len_bytes(b: Seq<u8>, i: int) -> Option<(Seq<u8>, int)> {
    match dec_varint(b, i) {
        Option::None => Option::None,
        Option::Some((l, j)) => if j + l <= b.len() {
            Option::Some((b.subrange(j, j + l), j + l))
        } else {
            Option::None
        },
    }
}

/// The index after the content of a field of wire type `wt` starting at `i`;
/// used to step over unknown fields.
pub open spec fn dec_skip(b: Seq<u8>, i: int, wt: u64) -> Option<int> {
    if wt == 0 {
        match dec_varint(b, i) {
            Option::None => Option::None,
            Option::Some((v, j)) => Option::Some(j),
        }
    } else if wt == 1 {
        if 0 <= i && i + 8 <= b.len() {
            Option::Some(i + 8)
        } else {
            Option::None
        }
    } else if wt == 2 {
        match dec_len_bytes(b, i) {
            Option::None => Option::None,
            Option::Some((d, k)) => Option::Some(k),
        }
    } else if wt == 5 {
        if 0 <= i && i + 4 <= b.len() {
            Option::Some(i + 4)
        } else {
            Option::None
        }
    } else {
        Option::None
    }
}

/// The all-empty announcement every decode starts from.
pub open spec fn default_node() -> NodeV {
    NodeV {
        name: Seq::empty(),
        sub_net: Seq::empty(),
        net_mask: 0,
        real_ip: Seq::empty(),
        port: 0,
        jump: 0,
    }
}

/// Folds the fields of a node record over the accumulator; a later
/// occurrence of a field overrides an earlier one, unknown fields are
/// skipped.
pub open spec fn dec_node_fields(b: Seq<u8>, i: int, acc: NodeV) -> Option<NodeV>
    decreases b.len() - i,
{
    if i < 0 || i > b.len() {
        Option::None
    } else if i == b.len() {
        Option::Some(acc)
    } else {
        match dec_varint(b, i) {
            Option::None => Option::None,
            Option::Some((tag, j)) => {
                let f = tag / 8;
                let wt = tag % 8;
                if f == 1 && wt == 2 {
                    match dec_len_bytes(b, j) {
                        Option::None => Option::None,
                        Option::Some((data, k)) => if valid_utf8(data) && i < k && k <= b.len() {
                            dec_node_fields(b, k, NodeV { name: decode_utf8(data), ..acc })
                        } else {
                            Option::None
                        },
                    }
                } else if f == 2 && wt == 2 {
                    match dec_len_bytes(b, j) {
                        Option::None => Option::None,
                        Option::Some((data, k)) => if i < k && k <= b.len() {
                            dec_node_fields(b, k, NodeV { sub_net: data, ..acc })
                        } else {
                            Option::None
                        },
                    }
                } else if f == 3 && wt == 0 {
                    match dec_varint(b, j) {
                        Option::None => Option::None,
                        Option::Some((v, k)) => if i < k && k <= b.len() {
                            dec_node_fields(b, k, NodeV { net_mask: v as u32, ..acc })
                        } else {
                            Option::None
                        },
                    }
                } else if f == 4 && wt == 2 {
                    match dec_len_bytes(b, j) {
                        Option::None => Option::None,
                        Option::Some((data, k)) => if i < k && k <= b.len() {
                            dec_node_fields(b, k, NodeV { real_ip: data, ..acc })
                        } else {
                            Option::None
                        },
                    }
                } else if f == 5 && wt == 0 {
                    match dec_varint(b, j) {
                        Option::None => Option::None,
                        Option::Some((v, k)) => if i < k && k <= b.len() {
                            dec_node_fields(b, k, NodeV { port: v as i32, ..acc })
                        } else {
                            Option::None
                        },
                    }
                } else if f == 6 && wt == 0 {
                    match dec_varint(b, j) {
                        Option::None => Option::None,
                        Option::Some((v, k)) => if i < k && k <= b.len() {
                            dec_node_fields(b, k, NodeV { jump: v as i32, ..acc })
                        } else {
                            Option::None
                        },
                    }
                } else {
                    match dec_skip(b, j, wt) {
                        Option::None => Option::None,
                        Option::Some(k) => if i < k && k <= b.len() {
                            dec_node_fields(b, k, acc)
                        } else {
                            Option::None
                        },
                    }
                }
            },
        }
    }
}

/// Folds the fields of a tunneled-packet record: the raw packet bytes and
/// the remaining time-to-live.
pub open spec fn dec_package_fields(b: Seq<u8>, i: int, acc: (Seq<u8>, u32)) -> Option<
    (Seq<u8>, u32),
>
    decreases b.len() - i,
{
    if i < 0 || i > b.len() {
        Option::None
    } else if i == b.len() {
        Option::Some(acc)
    } else {
        match dec_varint(b, i) {
            Option::None => Option::None,
            Option::Some((tag, j)) => {
                let f = tag / 8;
                let wt = tag % 8;
                if f == 1 && wt == 2 {
                    match dec_len_bytes(b, j) {
                        Option::None => Option::None,
                        Option::Some((data, k)) => if i < k && k <= b.len() {
                            dec_package_fields(b, k, (data, acc.1))
                        } else {
                            Option::None
                        },
                    }
                } else if f == 2 && wt == 0 {
                    match dec_varint(b, j) {
                        Option::None => Option::None,
                        Option::Some((v, k)) => if i < k && k <= b.len() {
                            dec_package_fields(b, k, (acc.0, v as u32))
                        } else {
                            Option::None
                        },
                    }
                } else {
                    match dec_skip(b, j, wt) {
                        Option::None => Option::None,
                        Option::Some(k) => if i < k && k <= b.len() {
                            dec_package_fields(b, k, acc)
                        } else {
                            Option::None
                        },
                    }
                }
            },
        }
    }
}

/// Folds the fields of a liveness-probe record: the sender's name.
pub open spec fn dec_ping_fields(b: Seq<u8>, i: int, acc: Seq<char>) -> Option<Seq<char>>
    decreases b.len() - i,
{
    if i < 0 || i > b.len() {
        Option::None
    } else if i == b.len() {
        Option::Some(acc)
    } else {
        match dec_varint(b, i) {
            Option::None => Option::None,
            Option::Some((tag, j)) => {
                let f = tag / 8;
                let wt = tag % 8;
                if f == 1 && wt == 2 {
                    match dec_len_bytes(b, j) {
                        Option::None => Option::None,
                        Option::Some((data, k)) => if valid_utf8(data) && i < k && k <= b.len() {
                            dec_ping_fields(b, k, decode_utf8(data))
                        } else {
                            Option::None
                        },
                    }
                } else {
                    match dec_skip(b, j, wt) {
                        Option::None => Option::None,
                        Option::Some(k) => if i < k && k <= b.len() {
                            dec_ping_fields(b, k, acc)
                        } else {
                            Option::None
                        },
                    }
                }
            },
        }
    }
}

/// Folds the top-level record: the last payload choice seen wins, unknown
/// fields are skipped.
pub open spec fn dec_payload_fields(b: Seq<u8>, i: int, acc: Option<PayloadV>) -> Option<
    Option<PayloadV>,
>
    decreases b.len() - i,
{
    if i < 0 || i > b.len() {
        Option::None
    } else if i == b.len() {
        Option::Some(acc)
    } else {
        match dec_varint(b, i) {
            Option::None => Option::None,
            Option::Some((tag, j)) => {
                let f = tag / 8;
                let wt = tag % 8;
                if f == 1 && wt == 2 {
                    match dec_len_bytes(b, j) {
                        Option::None => Option::None,
                        Option::Some((data, k)) => match dec_package_fields(
                            data,
                            0,
                            (Seq::empty(), 0),
                        ) {
                            Option::None => Option::None,
                            Option::Some(pk) => if i < k && k <= b.len() {
                                dec_payload_fields(
                                    b,
                                    k,
                                    Option::Some(PayloadV::Package(pk.0, pk.1)),
                                )
                            } else {
                                Option::None
                            },
                        },
                    }
                } else if f == 2 && wt == 2 {
                    match dec_len_bytes(b, j) {
                        Option::None => Option::None,
                        Option::Some((data, k)) => match dec_node_fields(
                            data,
                            0,
                            default_node(),
                        ) {
                            Option::None => Option::None,
                            Option::Some(n) => if i < k && k <= b.len() {
                                dec_payload_fields(b, k, Option::Some(PayloadV::AddNode(n)))
                            } else {
                                Option::None
                            },
                        },
                    }
                } else if f == 3 && wt == 2 {
                    match dec_len_bytes(b, j) {
                        Option::None => Option::None,
                        Option::Some((data, k)) => match dec_node_fields(
                            data,
                            0,
                            default_node(),
                        ) {
                            Option::None => Option::None,
                            Option::Some(n) => if i < k && k <= b.len() {
                                dec_payload_fields(b, k, Option::Some(PayloadV::DelNode(n)))
                            } else {
                                Option::None
                            },
                        },
                    }
                } else if f == 4 && wt == 2 {
                    match dec_len_bytes(b, j) {
                        Option::None => Option::None,
                        Option::Some((data, k)) => match dec_ping_fields(data, 0, Seq::empty()) {
                            Option::None => Option::None,
                            Option::Some(nm) => if i < k && k <= b.len() {
                                dec_payload_fields(b, k, Option::Some(PayloadV::Ping(nm)))
                            } else {
                                Option::None
                            },
                        },
                    }
                } else {
                    match dec_skip(b, j, wt) {
                        Option::None => Option::None,
                        Option::Some(k) => if i < k && k <= b.len() {
                            dec_payload_fields(b, k, acc)
                        } else {
                            Option::None
                        },
                    }
                }
            },
        }
    }
}

/// The payload a byte string decodes to, if any: a decode error and an
/// absent payload both come out empty, and both are dropped by the caller.
pub open spec fn spec_decode(b: Seq<u8>) -> Option<PayloadV> {
    match dec_payload_fields(b, 0, Option::None) {
        Option::None => Option::None,
        Option::Some(acc) => acc,
    }
}

/// The message a received payload turns into, remembering the sender.
pub open spec fn message_of(addr: (Seq<u8>, u16), p: Option<PayloadV>) -> MessageV {
    match p {
        Option::None => MessageV::DoNoting,
        Option::Some(PayloadV::Package(b, ttl)) => MessageV::PackageShareRead(b, ttl),
        Option::Some(PayloadV::AddNode(n)) => MessageV::AddNodeRead(addr, n),
        Option::Some(PayloadV::DelNode(n)) => MessageV::DelNodeRead(addr, n),
        Option::Some(PayloadV::Ping(nm)) => MessageV::PingPongRead(addr, nm),
    }
}

/// Appends the varint form of `x`.
fn push_varint(v: &mut Vec<u8>, x: u64)
    ensures
        final(v)@ == old(v)@ + enc_varint(x),
{
    let ghost x0 = x;
    let mut x = x;
    while x >= 128
        invariant
            v@ + enc_varint(x) == old(v)@ + enc_varint(x0),
        decreases x,
    {
        let b = (x % 128 + 128) as u8;
        v.push(b);
        x = x / 128;
        proof {
            assert(v@ + enc_varint(x) =~= old(v)@ + enc_varint(x0));
        }
    }
    v.push(x as u8);
    proof {
        assert(v@ =~= old(v)@ + enc_varint(x0));
    }
}

/// Appends a length-delimited field.
fn push_bytes_field(v: &mut Vec<u8>, tag: u8, data: &[u8])
    ensures
        final(v)@ == old(v)@ + enc_bytes_field(tag, data@),
{
    v.push(tag);
    push_varint(v, data.len() as u64);
    let mut i: usize = 0;
    while i < data.len()
        invariant
            v@ == old(v)@ + seq![tag] + enc_varint(data@.len() as u64) + data@.subrange(
                0,
                i as int,
            ),
            i <= data@.len(),
        decreases data@.len() - i,
    {
        v.push(data[i]);
        i = i + 1;
        proof {
            assert(v@ =~= old(v)@ + seq![tag] + enc_varint(data@.len() as u64) + data@.subrange(
                0,
                i as int,
            ));
        }
    }
    proof {
        assert(data@.subrange(0, data@.len() as int) =~= data@);
        assert(v@ =~= old(v)@ + enc_bytes_field(tag, data@));
    }
}

/// Appends a varint field.
fn push_varint_field(v: &mut Vec<u8>, tag: u8, value: u64)
    ensures
        final(v)@ == old(v)@ + enc_varint_field(tag, value),
{
    v.push(tag);
    push_varint(v, value);
    proof {
        assert(v@ =~= old(v)@ + enc_varint_field(tag, value));
    }
}

/// Appends the record form of a node announcement.
fn push_node(v: &mut Vec<u8>, n: &Node)
    ensures
        final(v)@ == old(v)@ + enc_node(n@),
{
    push_bytes_field(v, 0x0A, n.name.as_str().as_bytes());
    push_bytes_field(v, 0x12, n.sub_net.as_slice());
    push_varint_field(v, 0x18, n.net_mask as u64);
    push_bytes_field(v, 0x22, n.real_ip.as_slice());
    push_varint_field(v, 0x28, n.port as u64);
    push_varint_field(v, 0x30, n.jump as u64);
    proof {
        assert(v@ =~= old(v)@ + enc_node(n@));
    }
}

/// A node announcement small enough to carry its field lengths in varints.
pub open spec fn wf_node_wire(n: NodeV) -> bool {
    &&& encode_utf8(n.name).len() < 0x1000_0000_0000_0000
    &&& n.sub_net.len() < 0x1000_0000_0000_0000
    &&& n.real_ip.len() < 0x1000_0000_0000_0000
}

/// A payload small enough to carry its lengths in varints; every value that
/// exists in memory satisfies this.
pub open spec fn wf_payload_wire(p: PayloadV) -> bool {
    match p {
        PayloadV::Package(bts, _) => bts.len() < 0x1000_0000_0000_0000,
        PayloadV::AddNode(n) => wf_node_wire(n),
        PayloadV::DelNode(n) => wf_node_wire(n),
        PayloadV::Ping(nm) => encode_utf8(nm).len() < 0x1000_0000_0000_0000,
    }
}

/// Decoding a varint out of its own encoding, wherever it sits in a longer
/// byte string, returns the value and stops right after it.
proof fn lemma_varint_rt(x: u64, b: Seq<u8>, i: int)
    requires
        0 <= i,
        i + enc_varint(x).len() <= b.len(),
        b.subrange(i, i + enc_varint(x).len()) == enc_varint(x),
    ensures
        dec_varint(b, i) == Option::Some((x, i + enc_varint(x).len())),
    decreases x,
{
    let e = enc_varint(x);
    if x < 128 {
        assert(b[i] == e[0]);
    } else {
        let e2 = enc_varint((x / 128) as u64);
        assert(b[i] == e[0]);
        assert(e[0] == x % 128 + 128);
        assert(b.subrange(i + 1, i + 1 + e2.len()) =~= e2) by {
            assert(forall|t: int|
                0 <= t < e2.len() ==> e[t + 1] == #[trigger] e2[t]);
        }
        lemma_varint_rt((x / 128) as u64, b, i + 1);
        assert(x / 128 <= (0xFFFF_FFFF_FFFF_FFFF - (x % 128)) / 128) by {
            assert(128 * (x / 128) <= 0xFFFF_FFFF_FFFF_FFFF - x % 128);
        }
        assert(x % 128 + (x / 128) * 128 == x);
    }
}

/// A varint spans between one and ten bytes: nine divisions by 128 take any
/// 64-bit value below 128.
proof fn lemma_varint_len(x: u64)
    ensures
        1 <= enc_varint(x).len() <= 10,
{
    let x1 = x / 128;
    let x2 = x1 / 128;
    let x3 = x2 / 128;
    let x4 = x3 / 128;
    let x5 = x4 / 128;
    let x6 = x5 / 128;
    let x7 = x6 / 128;
    let x8 = x7 / 128;
    let x9 = x8 / 128;
    assert(x9 < 128);
    assert(enc_varint(x9).len() == 1);
    assert(enc_varint(x8).len() <= 2);
    assert(enc_varint(x7).len() <= 3);
    assert(enc_varint(x6).len() <= 4);
    assert(enc_varint(x5).len() <= 5);
    assert(enc_varint(x4).len() <= 6);
    assert(enc_varint(x3).len() <= 7);
    assert(enc_varint(x2).len() <= 8);
    assert(enc_varint(x1).len() <= 9);
    assert(enc_varint(x).len() <= 10);
}

/// Parsing a length-delimited field out of its own encoding: the tag varint
/// reads back, and the length-plus-bytes reads back as the field data.
proof fn lemma_bytes_field_rt(b: Seq<u8>, i: int, tag: u8, data: Seq<u8>)
    requires
        0 <= i,
        tag < 128,
        data.len() < 0x8000_0000_0000_0000,
        i + enc_bytes_field(tag, data).len() <= b.len(),
        b.subrange(i, i + enc_bytes_field(tag, data).len()) == enc_bytes_field(tag, data),
    ensures
        dec_varint(b, i) == Option::Some((tag as u64, i + 1)),
        dec_len_bytes(b, i + 1) == Option::Some(
            (data, i + enc_bytes_field(tag, data).len()),
        ),
{
    let e = enc_bytes_field(tag, data);
    let lv = enc_varint(data.len() as u64);
    assert(b[i] == e[0]);
    assert(e[0] == tag);
    assert(b.subrange(i + 1, i + 1 + lv.len()) =~= lv) by {
        assert(forall|t: int| 0 <= t < lv.len() ==> e[t + 1] == #[trigger] lv[t]);
    }
    lemma_varint_rt(data.len() as u64, b, i + 1);
    let j = i + 1 + lv.len();
    assert(b.subrange(j, j + data.len()) =~= data) by {
        assert(forall|t: int|
            0 <= t < data.len() ==> e[t + 1 + lv.len()] == #[trigger] data[t]);
    }
}

/// Parsing a varint field out of its own encoding.
proof fn lemma_varint_field_rt(b: Seq<u8>, i: int, tag: u8, v: u64)
    requires
        0 <= i,
        tag < 128,
        i + enc_varint_field(tag, v).len() <= b.len(),
        b.subrange(i, i + enc_varint_field(tag, v).len()) == enc_varint_field(tag, v),
    ensures
        dec_varint(b, i) == Option::Some((tag as u64, i + 1)),
        dec_varint(b, i + 1) == Option::Some((v, i + enc_varint_field(tag, v).len())),
{
    let e = enc_varint_field(tag, v);
    let vv = enc_varint(v);
    assert(b[i] == e[0]);
    assert(e[0] == tag);
    assert(b.subrange(i + 1, i + 1 + vv.len()) =~= vv) by {
        assert(forall|t: int| 0 <= t < vv.len() ==> e[t + 1] == #[trigger] vv[t]);
    }
    lemma_varint_rt(v, b, i + 1);
}

/// Truncating the 64-bit sign extension of a 32-bit value recovers it.
proof fn lemma_i32_rt(p: i32)
    ensures
        ((p as u64) as i32) == p,
{
    assert(((p as u64) as i32) == p) by (bit_vector);
}

/// Decoding a node record out of its own encoding returns the announcement.
proof fn lemma_node_rt(n: NodeV)
    requires
        wf_node_wire(n),
    ensures
        dec_node_fields(enc_node(n), 0, default_node()) == Option::Some(n),
{
    let e = enc_node(n);
    let f1 = enc_bytes_field(0x0A, encode_utf8(n.name));
    let f2 = enc_bytes_field(0x12, n.sub_net);
    let f3 = enc_varint_field(0x18, n.net_mask as u64);
    let f4 = enc_bytes_field(0x22, n.real_ip);
    let f5 = enc_varint_field(0x28, n.port as u64);
    let f6 = enc_varint_field(0x30, n.jump as u64);
    let o1 = f1.len() as int;
    let o2 = o1 + f2.len();
    let o3 = o2 + f3.len();
    let o4 = o3 + f4.len();
    let o5 = o4 + f5.len();
    let o6 = o5 + f6.len();
    assert(e.len() == o6);
    assert(e.subrange(0, o1) =~= f1);
    assert(e.subrange(o1, o2) =~= f2);
    assert(e.subrange(o2, o3) =~= f3);
    assert(e.subrange(o3, o4) =~= f4);
    assert(e.subrange(o4, o5) =~= f5);
    assert(e.subrange(o5, o6) =~= f6);
    lemma_bytes_field_rt(e, 0, 0x0A, encode_utf8(n.name));
    lemma_bytes_field_rt(e, o1, 0x12, n.sub_net);
    lemma_varint_field_rt(e, o2, 0x18, n.net_mask as u64);
    lemma_bytes_field_rt(e, o3, 0x22, n.real_ip);
    lemma_varint_field_rt(e, o4, 0x28, n.port as u64);
    lemma_varint_field_rt(e, o5, 0x30, n.jump as u64);
    vstd::utf8::encode_utf8_valid_utf8(n.name);
    vstd::utf8::encode_utf8_decode_utf8(n.name);
    lemma_i32_rt(n.port);
    lemma_i32_rt(n.jump);
    let a1 = NodeV { name: n.name, ..default_node() };
    let a2 = NodeV { sub_net: n.sub_net, ..a1 };
    let a3 = NodeV { net_mask: n.net_mask, ..a2 };
    let a4 = NodeV { real_ip: n.real_ip, ..a3 };
    let a5 = NodeV { port: n.port, ..a4 };
    let a6 = NodeV { jump: n.jump, ..a5 };
    assert(dec_node_fields(e, o6, a6) == Option::Some(a6));
    assert(dec_node_fields(e, o5, a5) == Option::Some(a6));
    assert(dec_node_fields(e, o4, a4) == Option::Some(a6));
    assert(dec_node_fields(e, o3, a3) == Option::Some(a6));
    assert(dec_node_fields(e, o2, a2) == Option::Some(a6));
    assert(dec_node_fields(e, o1, a1) == Option::Some(a6));
    assert(dec_node_fields(e, 0, default_node()) == Option::Some(a6));
    assert(a6 == n);
}

/// Decoding a packet record out of its own encoding returns the bytes and
/// the time-to-live.
proof fn lemma_package_msg_rt(bts: Seq<u8>, ttl: u32)
    requires
        bts.len() < 0x1000_0000_0000_0000,
    ensures
        dec_package_fields(
            enc_bytes_field(0x0A, bts) + enc_varint_field(0x10, ttl as u64),
            0,
            (Seq::empty(), 0),
        ) == Option::Some((bts, ttl)),
{
    let e = enc_bytes_field(0x0A, bts) + enc_varint_field(0x10, ttl as u64);
    let f1 = enc_bytes_field(0x0A, bts);
    let f2 = enc_varint_field(0x10, ttl as u64);
    let o1 = f1.len() as int;
    let o2 = o1 + f2.len();
    assert(e.len() == o2);
    assert(e.subrange(0, o1) =~= f1);
    assert(e.subrange(o1, o2) =~= f2);
    lemma_bytes_field_rt(e, 0, 0x0A, bts);
    lemma_varint_field_rt(e, o1, 0x10, ttl as u64);
    let a1 = (bts, 0u32);
    let a2 = (bts, ttl);
    assert(dec_package_fields(e, o2, a2) == Option::Some(a2));
    assert(dec_package_fields(e, o1, a1) == Option::Some(a2));
    assert(dec_package_fields(e, 0, (Seq::<u8>::empty(), 0u32)) == Option::Some(a2));
}

/// Decoding a probe record out of its own encoding returns the name.
proof fn lemma_ping_msg_rt(nm: Seq<char>)
    requires
        encode_utf8(nm).len() < 0x1000_0000_0000_0000,
    ensures
        dec_ping_fields(enc_bytes_field(0x0A, encode_utf8(nm)), 0, Seq::empty())
            == Option::Some(nm),
{
    let e = enc_bytes_field(0x0A, encode_utf8(nm));
    assert(e.subrange(0, e.len() as int) =~= e);
    lemma_bytes_field_rt(e, 0, 0x0A, encode_utf8(nm));
    vstd::utf8::encode_utf8_valid_utf8(nm);
    vstd::utf8::encode_utf8_decode_utf8(nm);
    assert(dec_ping_fields(e, e.len() as int, nm) == Option::Some(nm));
}

/// Wire codec round trip: decoding an encoded payload returns it unchanged.
#[verifier::rlimit(100)]
pub proof fn lemma_codec_round_trip(p: PayloadV)
    requires
        wf_payload_wire(p),
    ensures
        spec_decode(enc_payload(p)) == Option::Some(p),
{
    let e = enc_payload(p);
    assert(e.subrange(0, e.len() as int) =~= e);
    match p {
        PayloadV::Package(bts, ttl) => {
            let inner = enc_bytes_field(0x0A, bts) + enc_varint_field(0x10, ttl as u64);
            assert(inner.len() < 0x8000_0000_0000_0000) by {
                lemma_varint_len(bts.len() as u64);
                lemma_varint_len(ttl as u64);
            }
            lemma_bytes_field_rt(e, 0, 0x0A, inner);
            lemma_package_msg_rt(bts, ttl);
            assert(dec_payload_fields(e, e.len() as int, Option::Some(p)) == Option::Some(
                Option::Some(p),
            ));
        },
        PayloadV::AddNode(n) => {
            assert(enc_node(n).len() < 0x8000_0000_0000_0000) by {
                lemma_varint_len(encode_utf8(n.name).len() as u64);
                lemma_varint_len(n.sub_net.len() as u64);
                lemma_varint_len(n.net_mask as u64);
                lemma_varint_len(n.real_ip.len() as u64);
                lemma_varint_len(n.port as u64);
                lemma_varint_len(n.jump as u64);
            }
            lemma_bytes_field_rt(e, 0, 0x12, enc_node(n));
            lemma_node_rt(n);
            assert(dec_payload_fields(e, e.len() as int, Option::Some(p)) == Option::Some(
                Option::Some(p),
            ));
        },
        PayloadV::DelNode(n) => {
            assert(enc_node(n).len() < 0x8000_0000_0000_0000) by {
                lemma_varint_len(encode_utf8(n.name).len() as u64);
                lemma_varint_len(n.sub_net.len() as u64);
                lemma_varint_len(n.net_mask as u64);
                lemma_varint_len(n.real_ip.len() as u64);
                lemma_varint_len(n.port as u64);
                lemma_varint_len(n.jump as u64);
            }
            lemma_bytes_field_rt(e, 0, 0x1A, enc_node(n));
            lemma_node_rt(n);
            assert(dec_payload_fields(e, e.len() as int, Option::Some(p)) == Option::Some(
                Option::Some(p),
            ));
        },
        PayloadV::Ping(nm) => {
            assert(enc_bytes_field(0x0A, encode_utf8(nm)).len() < 0x8000_0000_0000_0000) by {
                lemma_varint_len(encode_utf8(nm).len() as u64);
            }
            lemma_bytes_field_rt(e, 0, 0x22, enc_bytes_field(0x0A, encode_utf8(nm)));
            lemma_ping_msg_rt(nm);
            assert(dec_payload_fields(e, e.len() as int, Option::Some(p)) == Option::Some(
                Option::Some(p),
            ));
        },
    }
}

/// The read-direction mirror of a write-direction message, as a receiver at
/// the other end sees it coming from `src`.
pub open spec fn read_form(m: MessageV, src: (Seq<u8>, u16)) -> MessageV
    recommends
        is_encodable(m),
{
    match m {
        MessageV::PackageShareWrite(_, bts, ttl) => MessageV::PackageShareRead(bts, ttl),
        MessageV::AddNodeWrite(_, n) => MessageV::AddNodeRead(src, n),
        MessageV::DelNodeWrite(_, n) => MessageV::DelNodeRead(src, n),
        MessageV::PingPongWrite(_, nm) => MessageV::PingPongRead(src, nm),
        _ => MessageV::DoNoting,
    }
}

/// Message-level round trip: what `write_bytes` emits, `from_protobuf`
/// reads back as the matching read-direction message.
pub proof fn lemma_message_round_trip(m: MessageV, src: (Seq<u8>, u16))
    requires
        is_encodable(m),
        wf_payload_wire(payload_of(m)),
    ensures
        message_of(src, spec_decode(enc_payload(payload_of(m)))) == read_form(m, src),
{
    lemma_codec_round_trip(payload_of(m));
}

/// Relies on std's String::from_utf8: it accepts exactly the byte strings
/// that are valid UTF-8 and yields the characters they encode, which is what
/// vstd's `decode_utf8` states.
#[verifier::external_body]
fn bytes_to_string(v: Vec<u8>) -> (r: Option<String>)
    ensures
        r is Some <==> valid_utf8(v@),
        r matches Some(s) ==> s@ == decode_utf8(v@),
{
    String::from_utf8(v).ok()
}

/// Reads one varint; mirrors `dec_varint`.
fn read_varint(b: &Vec<u8>, i: usize) -> (r: Option<(u64, usize)>)
    ensures
        match r {
            Some(p) => dec_varint(b@, i as int) == Option::Some((p.0, p.1 as int)) && i < p.1
                <= b@.len(),
            None => dec_varint(b@, i as int) is None,
        },
    decreases b@.len() - i,
{
    if i >= b.len() {
        return None;
    }
    let x = b[i];
    if x < 128 {
        Some((x as u64, i + 1))
    } else {
        match read_varint(b, i + 1) {
            None => None,
            Some((v, j)) => {
                if v <= (0xFFFF_FFFF_FFFF_FFFFu64 - ((x - 128) as u64)) / 128 {
                    Some(((x - 128) as u64 + v * 128, j))
                } else {
                    None
                }
            },
        }
    }
}

/// Reads a length varint and copies out that many bytes; mirrors
/// `dec_len_bytes`.
fn read_len_bytes(b: &Vec<u8>, i: usize) -> (r: Option<(Vec<u8>, usize)>)
    ensures
        match r {
            Some(p) => {
                &&& dec_len_bytes(b@, i as int) == Option::Some((p.0@, p.1 as int))
                &&& i < p.1 <= b@.len()
            },
            None => dec_len_bytes(b@, i as int) is None,
        },
{
    match read_varint(b, i) {
        None => None,
        Some((l, j)) => {
            if l <= (b.len() - j) as u64 {
                let lu = l as usize;
                let mut data: Vec<u8> = Vec::new();
                let mut t: usize = 0;
                while t < lu
                    invariant
                        t <= lu,
                        j + lu <= b@.len(),
                        data@ =~= b@.subrange(j as int, j as int + t as int),
                    decreases lu - t,
                {
                    data.push(b[j + t]);
                    t = t + 1;
                }
                proof {
                    assert(data@ =~= b@.subrange(j as int, j as int + l as int));
                }
                Some((data, j + lu))
            } else {
                None
            }
        },
    }
}

/// Steps over the content of an unknown field; mirrors `dec_skip`.
fn skip_field(b: &Vec<u8>, i: usize, wt: u64) -> (r: Option<usize>)
    ensures
        match r {
            Some(k) => dec_skip(b@, i as int, wt) == Option::Some(k as int) && k <= b@.len(),
            None => dec_skip(b@, i as int, wt) is None,
        },
{
    if wt == 0 {
        match read_varint(b, i) {
            None => None,
            Some((_, j)) => Some(j),
        }
    } else if wt == 1 {
        if b.len() >= 8 && i <= b.len() - 8 {
            Some(i + 8)
        } else {
            None
        }
    } else if wt == 2 {
        match read_len_bytes(b, i) {
            None => None,
            Some((_, k)) => Some(k),
        }
    } else if wt == 5 {
        if b.len() >= 4 && i <= b.len() - 4 {
            Some(i + 4)
        } else {
            None
        }
    } else {
        None
    }
}

/// Parses the fields of a node record; mirrors `dec_node_fields`.
fn parse_node(b: &Vec<u8>, i: usize, acc: Node) -> (r: Option<Node>)
    requires
        i <= b@.len(),
    ensures
        match r {
            Some(n) => dec_node_fields(b@, i as int, acc@) == Option::Some(n@),
            None => dec_node_fields(b@, i as int, acc@) is None,
        },
    decreases b@.len() - i,
{
    if i == b.len() {
        return Some(acc);
    }
    match read_varint(b, i) {
        None => None,
        Some((tag, j)) => {
            let f = tag / 8;
            let wt = tag % 8;
            if f == 1 && wt == 2 {
                match read_len_bytes(b, j) {
                    None => None,
                    Some((data, k)) => {
                        let ghost datav = data@;
                        match bytes_to_string(data) {
                            None => None,
                            Some(s) => {
                                let acc2 = Node { name: s, ..acc };
                                proof {
                                    assert(acc2@ == (NodeV { name: decode_utf8(datav), ..acc@ }));
                                }
                                parse_node(b, k, acc2)
                            },
                        }
                    },
                }
            } else if f == 2 && wt == 2 {
                match read_len_bytes(b, j) {
                    None => None,
                    Some((data, k)) => parse_node(b, k, Node { sub_net: data, ..acc }),
                }
            } else if f == 3 && wt == 0 {
                match read_varint(b, j) {
                    None => None,
                    Some((v, k)) => parse_node(
                        b,
                        k,
                        Node { net_mask: #[verifier::truncate] (v as u32), ..acc },
                    ),
                }
            } else if f == 4 && wt == 2 {
                match read_len_bytes(b, j) {
                    None => None,
                    Some((data, k)) => parse_node(b, k, Node { real_ip: data, ..acc }),
                }
            } else if f == 5 && wt == 0 {
                match read_varint(b, j) {
                    None => None,
                    Some((v, k)) => parse_node(
                        b,
                        k,
                        Node { port: #[verifier::truncate] (v as i32), ..acc },
                    ),
                }
            } else if f == 6 && wt == 0 {
                match read_varint(b, j) {
                    None => None,
                    Some((v, k)) => parse_node(
                        b,
                        k,
                        Node { jump: #[verifier::truncate] (v as i32), ..acc },
                    ),
                }
            } else {
                match skip_field(b, j, wt) {
                    None => None,
                    Some(k) => {
                        if k > i {
                            parse_node(b, k, acc)
                        } else {
                            None
                        }
                    },
                }
            }
        },
    }
}

/// Parses the fields of a tunneled-packet record; mirrors
/// `dec_package_fields`.
fn parse_package(b: &Vec<u8>, i: usize, acc: (Vec<u8>, u32)) -> (r: Option<(Vec<u8>, u32)>)
    requires
        i <= b@.len(),
    ensures
        match r {
            Some(p) => dec_package_fields(b@, i as int, (acc.0@, acc.1)) == Option::Some(
                (p.0@, p.1),
            ),
            None => dec_package_fields(b@, i as int, (acc.0@, acc.1)) is None,
        },
    decreases b@.len() - i,
{
    if i == b.len() {
        return Some(acc);
    }
    match read_varint(b, i) {
        None => None,
        Some((tag, j)) => {
            let f = tag / 8;
            let wt = tag % 8;
            if f == 1 && wt == 2 {
                match read_len_bytes(b, j) {
                    None => None,
                    Some((data, k)) => parse_package(b, k, (data, acc.1)),
                }
            } else if f == 2 && wt == 0 {
                match read_varint(b, j) {
                    None => None,
                    Some((v, k)) => parse_package(
                        b,
                        k,
                        (acc.0, #[verifier::truncate] (v as u32)),
                    ),
                }
            } else {
                match skip_field(b, j, wt) {
                    None => None,
                    Some(k) => {
                        if k > i {
                            parse_package(b, k, acc)
                        } else {
                            None
                        }
                    },
                }
            }
        },
    }
}

/// Parses the fields of a liveness-probe record; mirrors `dec_ping_fields`.
fn parse_ping(b: &Vec<u8>, i: usize, acc: String) -> (r: Option<String>)
    requires
        i <= b@.len(),
    ensures
        match r {
            Some(s) => dec_ping_fields(b@, i as int, acc@) == Option::Some(s@),
            None => dec_ping_fields(b@, i as int, acc@) is None,
        },
    decreases b@.len() - i,
{
    if i == b.len() {
        return Some(acc);
    }
    match read_varint(b, i) {
        None => None,
        Some((tag, j)) => {
            let f = tag / 8;
            let wt = tag % 8;
            if f == 1 && wt == 2 {
                match read_len_bytes(b, j) {
                    None => None,
                    Some((data, k)) => {
                        match bytes_to_string(data) {
                            None => None,
                            Some(s) => parse_ping(b, k, s),
                        }
                    },
                }
            } else {
                match skip_field(b, j, wt) {
                    None => None,
                    Some(k) => {
                        if k > i {
                            parse_ping(b, k, acc)
                        } else {
                            None
                        }
                    },
                }
            }
        },
    }
}

/// Parses the top-level record into the message it stands for; mirrors
/// `dec_payload_fields`.
fn parse_payload(b: &Vec<u8>, i: usize, addr: SocketAddress, acc: Option<Message>) -> (r: Option<
    Option<Message>,
>)
    requires
        i <= b@.len(),
        acc_matches(acc, addr@),
    ensures
        match r {
            Some(m) => {
                &&& dec_payload_fields(b@, i as int, acc_payload(acc)) matches Option::Some(pv)
                &&& acc_matches_opt(m, pv, addr@)
            },
            None => dec_payload_fields(b@, i as int, acc_payload(acc)) is None,
        },
    decreases b@.len() - i,
{
    if i == b.len() {
        return Some(acc);
    }
    match read_varint(b, i) {
        None => None,
        Some((tag, j)) => {
            let f = tag / 8;
            let wt = tag % 8;
            if f == 1 && wt == 2 {
                match read_len_bytes(b, j) {
                    None => None,
                    Some((data, k)) => {
                        let empty: Vec<u8> = Vec::new();
                        match parse_package(&data, 0, (empty, 0)) {
                            None => None,
                            Some((pkg, ttl)) => {
                                let m = Message::PackageShareRead(Package::from_buffer(pkg), ttl);
                                parse_payload(b, k, addr, Some(m))
                            },
                        }
                    },
                }
            } else if f == 2 && wt == 2 {
                match read_len_bytes(b, j) {
                    None => None,
                    Some((data, k)) => {
                        match parse_node(&data, 0, Node::empty()) {
                            None => None,
                            Some(n) => parse_payload(b, k, addr, Some(Message::AddNodeRead(addr, n))),
                        }
                    },
                }
            } else if f == 3 && wt == 2 {
                match read_len_bytes(b, j) {
                    None => None,
                    Some((data, k)) => {
                        match parse_node(&data, 0, Node::empty()) {
                            None => None,
                            Some(n) => parse_payload(b, k, addr, Some(Message::DelNodeRead(addr, n))),
                        }
                    },
                }
            } else if f == 4 && wt == 2 {
                match read_len_bytes(b, j) {
                    None => None,
                    Some((data, k)) => {
                        match parse_ping(&data, 0, String::new()) {
                            None => None,
                            Some(s) => parse_payload(
                                b,
                                k,
                                addr,
                                Some(Message::PingPongRead(addr, s)),
                            ),
                        }
                    },
                }
            } else {
                match skip_field(b, j, wt) {
                    None => None,
                    Some(k) => {
                        if k > i {
                            parse_payload(b, k, addr, acc)
                        } else {
                            None
                        }
                    },
                }
            }
        },
    }
}

/// The payload an accumulated message stands for.
pub open spec fn acc_payload(acc: Option<Message>) -> Option<PayloadV> {
    match acc {
        Option::None => Option::None,
        Option::Some(m) => match m@ {
            MessageV::PackageShareRead(bts, ttl) => Option::Some(PayloadV::Package(bts, ttl)),
            MessageV::AddNodeRead(_, n) => Option::Some(PayloadV::AddNode(n)),
            MessageV::DelNodeRead(_, n) => Option::Some(PayloadV::DelNode(n)),
            MessageV::PingPongRead(_, nm) => Option::Some(PayloadV::Ping(nm)),
            _ => Option::None,
        },
    }
}

/// A well-formed accumulator: the message it holds is the read form of its
/// payload, addressed from `addr`.
pub open spec fn acc_matches(acc: Option<Message>, addr: (Seq<u8>, u16)) -> bool {
    match acc {
        Option::None => true,
        Option::Some(m) => m@ == message_of(addr, acc_payload(acc)),
    }
}

/// The accumulator carries exactly the payload `pv`.
pub open spec fn acc_matches_opt(
    acc: Option<Message>,
    pv: Option<PayloadV>,
    addr: (Seq<u8>, u16),
) -> bool {
    acc_payload(acc) == pv && acc_matches(acc, addr)
}

impl Message {
    /// Whether this message is one of the four write-direction transport
    /// variants, the only ones that can be serialized for the socket.
    pub fn is_transport_write(&self) -> (r: bool)
        ensures
            r == is_encodable(self@),
    {
        match self {
            Message::PackageShareWrite(_, _, _) => true,
            Message::AddNodeWrite(_, _) => true,
            Message::DelNodeWrite(_, _) => true,
            Message::PingPongWrite(_, _) => true,
            _ => false,
        }
    }

    /// Deserializes received bytes into the message they stand for,
    /// remembering the sender; anything malformed becomes the no-op message.
    pub fn from_protobuf(addr: SocketAddress, buffer: Vec<u8>) -> (r: Message)
        ensures
            r@ == message_of(addr@, spec_decode(buffer@)),
    {
        match parse_payload(&buffer, 0, addr, None) {
            None => Message::DoNoting,
            Some(None) => Message::DoNoting,
            Some(Some(m)) => m,
        }
    }

    /// Serializes a write-direction message, returning the destination and
    /// the wire bytes.
    pub fn write_bytes(self) -> (r: (SocketAddress, Vec<u8>))
        requires
            is_encodable(self@),
        ensures
            r.0@ == dest_of(self@),
            r.1@ == enc_payload(payload_of(self@)),
    {
        match self {
            Message::PackageShareWrite(addr, package, ttl) => {
                let mut inner: Vec<u8> = Vec::new();
                push_bytes_field(&mut inner, 0x0A, package.raw_package.as_slice());
                push_varint_field(&mut inner, 0x10, ttl as u64);
                let mut v: Vec<u8> = Vec::new();
                push_bytes_field(&mut v, 0x0A, inner.as_slice());
                (addr, v)
            },
            Message::AddNodeWrite(addr, node) => {
                let mut inner: Vec<u8> = Vec::new();
                push_node(&mut inner, &node);
                let mut v: Vec<u8> = Vec::new();
                push_bytes_field(&mut v, 0x12, inner.as_slice());
                (addr, v)
            },
            Message::DelNodeWrite(addr, node) => {
                let mut inner: Vec<u8> = Vec::new();
                push_node(&mut inner, &node);
                let mut v: Vec<u8> = Vec::new();
                push_bytes_field(&mut v, 0x1A, inner.as_slice());
                (addr, v)
            },
            Message::PingPongWrite(addr, name) => {
                let mut inner: Vec<u8> = Vec::new();
                push_bytes_field(&mut inner, 0x0A, name.as_str().as_bytes());
                let mut v: Vec<u8> = Vec::new();
                push_bytes_field(&mut v, 0x22, inner.as_slice());
                (addr, v)
            },
            _ => vstd::pervasive::unreached(),
        }
    }
}

} // verus!
