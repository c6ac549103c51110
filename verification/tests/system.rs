use overlay_vpn::addr::{IpAddress, SocketAddress};
use overlay_vpn::config::Config;
use overlay_vpn::message::{Message, Node};
use overlay_vpn::package::{Buffer, Package, Version};
use overlay_vpn::peer::Host;
use overlay_vpn::router::Router;
use overlay_vpn::utils::{bytes_to_hex, str_eq, Reader, Writer};

fn sock(a: u8, b: u8, c: u8, d: u8, port: u16) -> SocketAddress {
    SocketAddress::new(IpAddress::V4([a, b, c, d]), port)
}

fn announcement(name: &str, subnet: [u8; 4], mask: u32, jump: i32) -> Node {
    Node {
        name: name.to_string(),
        sub_net: subnet.to_vec(),
        net_mask: mask,
        real_ip: Vec::new(),
        port: 0,
        jump,
    }
}

/// A node with its own subnet installed as local, as the daemon does at
/// startup.
fn make_node(name: &str, subnet: [u8; 4], mask: u16) -> Router {
    let me = announcement(name, subnet, mask as u32, 0);
    let mut r = Router::new(name.to_string(), me);
    r.insert_to_table(IpAddress::V4(subnet), mask, name.to_string(), Host::Localhost)
        .unwrap();
    r
}

fn v4_packet(src: [u8; 4], dst: [u8; 4]) -> Package {
    let mut raw = vec![0u8; 20];
    raw[0] = 0x45;
    raw[12..16].copy_from_slice(&src);
    raw[16..20].copy_from_slice(&dst);
    Package::from_buffer(raw)
}

/// Carries one write-direction message over the simulated wire: encode at
/// the sender, decode at the receiver, who sees the sender's socket.
fn transmit(m: Message, sender: SocketAddress) -> Message {
    let (_dest, bytes) = m.write_bytes();
    Message::from_protobuf(sender, bytes)
}

#[test]
fn codec_round_trip_package_share() {
    let pkt = v4_packet([10, 0, 1, 1], [10, 0, 2, 42]);
    let m = Message::PackageShareWrite(sock(192, 0, 2, 2, 7654), pkt.clone(), 9);
    let got = transmit(m, sock(192, 0, 2, 1, 7654));
    assert_eq!(got, Message::PackageShareRead(pkt, 9));
}

#[test]
fn codec_round_trip_add_node() {
    let mut n = announcement("héllo-node", [10, 0, 3, 0], 24, 2);
    n.real_ip = vec![198, 51, 100, 7];
    n.port = 7654;
    let m = Message::AddNodeWrite(sock(192, 0, 2, 2, 7654), n);
    let src = sock(192, 0, 2, 9, 4000);
    let got = transmit(m, src);
    let mut expect = announcement("héllo-node", [10, 0, 3, 0], 24, 2);
    expect.real_ip = vec![198, 51, 100, 7];
    expect.port = 7654;
    assert_eq!(got, Message::AddNodeRead(src, expect));
}

#[test]
fn codec_round_trip_del_node() {
    let n = announcement("gone", [10, 9, 0, 0], 16, -1);
    let m = Message::DelNodeWrite(sock(192, 0, 2, 2, 7654), n);
    let src = sock(192, 0, 2, 9, 4000);
    let got = transmit(m, src);
    assert_eq!(got, Message::DelNodeRead(src, announcement("gone", [10, 9, 0, 0], 16, -1)));
}

#[test]
fn codec_round_trip_ping_pong() {
    let m = Message::PingPongWrite(sock(192, 0, 2, 2, 7654), "ping-from-me".to_string());
    let src = sock(192, 0, 2, 9, 4000);
    let got = transmit(m, src);
    assert_eq!(got, Message::PingPongRead(src, "ping-from-me".to_string()));
}

#[test]
fn codec_garbage_decodes_to_noop() {
    let src = sock(192, 0, 2, 9, 4000);
    assert_eq!(Message::from_protobuf(src, vec![0xFF, 0x01, 0x02]), Message::DoNoting);
    assert_eq!(Message::from_protobuf(src, Vec::new()), Message::DoNoting);
    // A truncated length-delimited field.
    assert_eq!(Message::from_protobuf(src, vec![0x22, 0x10, 0x0A]), Message::DoNoting);
}

#[test]
fn codec_skips_unknown_fields() {
    let m = Message::PingPongWrite(sock(192, 0, 2, 2, 7654), "abc".to_string());
    let (_dest, bytes) = m.write_bytes();
    // An unknown varint field (number 9) prepended to the record.
    let mut extended = vec![0x48, 0x05];
    extended.extend_from_slice(&bytes);
    let src = sock(192, 0, 2, 9, 4000);
    assert_eq!(
        Message::from_protobuf(src, extended),
        Message::PingPongRead(src, "abc".to_string())
    );
}

#[test]
fn packet_fields_match_header_bytes() {
    let pkt = v4_packet([10, 0, 1, 1], [10, 0, 2, 42]);
    assert!(pkt.valid());
    assert_eq!(pkt.version(), Version::V4);
    assert_eq!(pkt.source_address(), IpAddress::V4([10, 0, 1, 1]));
    assert_eq!(pkt.destination_address(), IpAddress::V4([10, 0, 2, 42]));
    assert_eq!(pkt.len(), 20);
    assert!(!pkt.is_empty());
}

#[test]
fn packet_v6_fields_match_header_bytes() {
    let mut raw = vec![0u8; 40];
    raw[0] = 0x60;
    for i in 0..16 {
        raw[8 + i] = i as u8;
        raw[24 + i] = (i as u8) + 100;
    }
    let pkt = Package::from_buffer(raw);
    assert!(pkt.valid());
    assert_eq!(pkt.version(), Version::V6);
    assert_eq!(
        pkt.source_address(),
        IpAddress::V6([0, 1, 2, 3, 4, 5, 6, 7, 8, 9, 10, 11, 12, 13, 14, 15])
    );
    assert_eq!(
        pkt.destination_address(),
        IpAddress::V6([
            100, 101, 102, 103, 104, 105, 106, 107, 108, 109, 110, 111, 112, 113, 114, 115
        ])
    );
}

#[test]
fn packet_rejects_bad_version_or_short_header() {
    let mut raw = vec![0u8; 20];
    raw[0] = 0x75;
    assert!(!Package::from_buffer(raw).valid());
    let mut short = vec![0u8; 10];
    short[0] = 0x45;
    assert!(!Package::from_buffer(short).valid());
    assert!(!Package::from_buffer(Vec::new()).valid());
}

#[test]
fn two_node_bootstrap() {
    let a_addr = sock(192, 0, 2, 1, 7654);
    let b_addr = sock(192, 0, 2, 2, 7654);
    let mut a = make_node("A", [10, 0, 1, 0], 24);
    let mut b = make_node("B", [10, 0, 2, 0], 24);

    // B greets A, as configured in its bootstrap list.
    let hello = b.hello_messages(&vec![(a_addr, "A".to_string())]);
    assert_eq!(hello.len(), 1);

    // A receives the greeting from B's socket and learns B.
    let at_a = transmit(hello.into_iter().next().unwrap(), b_addr);
    let replies = a.router_message(at_a);
    assert_eq!(a.get_by_name("B").unwrap().get_host(), Host::Socket(b_addr));

    // The last reply is A's own announcement back to B.
    let reciprocal = replies.into_iter().last().unwrap();
    assert!(matches!(&reciprocal, Message::AddNodeWrite(dest, _) if *dest == b_addr));
    let at_b = transmit(reciprocal, a_addr);
    b.router_message(at_b);
    assert_eq!(b.get_by_name("A").unwrap().get_host(), Host::Socket(a_addr));
}

#[test]
fn data_plane_forwarding() {
    let a_addr = sock(192, 0, 2, 1, 7654);
    let b_addr = sock(192, 0, 2, 2, 7654);
    let mut a = make_node("A", [10, 0, 1, 0], 24);
    let mut b = make_node("B", [10, 0, 2, 0], 24);
    let hello = b.hello_messages(&vec![(a_addr, "A".to_string())]);
    let replies = a.router_message(transmit(hello.into_iter().next().unwrap(), b_addr));
    b.router_message(transmit(replies.into_iter().last().unwrap(), a_addr));

    // A packet entering A's device for B's subnet crosses to B's device
    // bit-exact.
    let pkt = v4_packet([10, 0, 1, 1], [10, 0, 2, 42]);
    let out = a.router_message(Message::InterfaceRead(pkt.clone()));
    assert_eq!(out.len(), 1);
    let forwarded = out.into_iter().next().unwrap();
    assert!(matches!(&forwarded, Message::PackageShareWrite(dest, _, _) if *dest == b_addr));
    let at_b = transmit(forwarded, a_addr);
    let delivered = b.router_message(at_b);
    assert_eq!(delivered, vec![Message::InterfaceWrite(pkt)]);
}

#[test]
fn unknown_destination_is_dropped() {
    let mut a = make_node("A", [10, 0, 1, 0], 24);
    let pkt = v4_packet([10, 0, 1, 1], [10, 0, 99, 1]);
    let out = a.router_message(Message::InterfaceRead(pkt));
    assert_eq!(out, vec![Message::DoNoting]);
}

#[test]
fn self_announcement_is_dropped() {
    let b_addr = sock(192, 0, 2, 2, 7654);
    let mut a = make_node("A", [10, 0, 1, 0], 24);
    let before = a.ipv4_table.get_all_peer().len();
    let echo = announcement("A", [10, 0, 9, 0], 24, 0);
    let out = a.router_message(Message::AddNodeRead(b_addr, echo));
    assert!(out.is_empty());
    assert_eq!(a.ipv4_table.get_all_peer().len(), before);
}

#[test]
fn three_node_relay() {
    let a_addr = sock(192, 0, 2, 1, 7654);
    let b_addr = sock(192, 0, 2, 2, 7654);
    let c_addr = sock(192, 0, 2, 3, 7654);
    let mut a = make_node("A", [10, 0, 1, 0], 24);
    let mut b = make_node("B", [10, 0, 2, 0], 24);

    // B already knows A.
    b.insert_to_table(IpAddress::V4([10, 0, 1, 0]), 24, "A".to_string(), Host::Socket(a_addr))
        .unwrap();

    // C introduces itself to B directly.
    let c_hello = announcement("C", [10, 0, 3, 0], 24, 0);
    let out = b.router_message(Message::AddNodeRead(c_addr, c_hello));

    // Among B's broadcasts is a relay to A carrying C's real address and a
    // bumped hop count.
    let relay = out
        .into_iter()
        .find(|m| matches!(m, Message::AddNodeWrite(dest, _) if *dest == a_addr))
        .unwrap();
    if let Message::AddNodeWrite(_, n) = &relay {
        assert_eq!(n.jump, 1);
        assert_eq!(n.real_ip, vec![192, 0, 2, 3]);
        assert_eq!(n.port, 7654);
    } else {
        unreachable!();
    }

    // A hears the relay from B's socket but routes C's subnet straight to
    // C's advertised address, not through B.
    a.router_message(transmit(relay, b_addr));
    let pkt = v4_packet([10, 0, 1, 1], [10, 0, 3, 5]);
    let out = a.router_message(Message::InterfaceRead(pkt));
    assert!(matches!(&out[0], Message::PackageShareWrite(dest, _, _) if *dest == c_addr));
}

#[test]
fn ping_is_answered_with_own_name() {
    let b_addr = sock(192, 0, 2, 2, 7654);
    let mut a = make_node("A", [10, 0, 1, 0], 24);
    let out = a.router_message(Message::PingPongRead(b_addr, "B".to_string()));
    assert_eq!(out, vec![Message::PingPongWrite(b_addr, "A".to_string())]);
}

#[test]
fn del_node_is_acknowledged_and_ignored() {
    let b_addr = sock(192, 0, 2, 2, 7654);
    let mut a = make_node("A", [10, 0, 1, 0], 24);
    let before = a.ipv4_table.get_all_peer().len();
    let out = a.router_message(Message::DelNodeRead(b_addr, announcement("B", [10, 0, 2, 0], 24, 0)));
    assert_eq!(out, vec![Message::DoNoting]);
    assert_eq!(a.ipv4_table.get_all_peer().len(), before);
}

#[test]
fn ttl_expires_instead_of_looping() {
    let b_addr = sock(192, 0, 2, 2, 7654);
    let mut a = make_node("A", [10, 0, 1, 0], 24);
    a.insert_to_table(IpAddress::V4([10, 0, 2, 0]), 24, "B".to_string(), Host::Socket(b_addr))
        .unwrap();
    let pkt = v4_packet([10, 0, 1, 1], [10, 0, 2, 42]);
    let out = a.router_message(Message::PackageShareRead(pkt.clone(), 5));
    assert_eq!(out, vec![Message::PackageShareWrite(b_addr, pkt.clone(), 4)]);
    let out = a.router_message(Message::PackageShareRead(pkt, 0));
    assert_eq!(out, vec![Message::DoNoting]);
}

#[test]
fn duplicate_gossip_is_suppressed() {
    let c_addr = sock(192, 0, 2, 3, 7654);
    let mut b = make_node("B", [10, 0, 2, 0], 24);
    let first = b.router_message(Message::AddNodeRead(
        c_addr,
        announcement("C", [10, 0, 3, 0], 24, 0),
    ));
    assert!(!first.is_empty());
    let second = b.router_message(Message::AddNodeRead(
        c_addr,
        announcement("C", [10, 0, 3, 0], 24, 0),
    ));
    assert!(second.is_empty());
}

#[test]
fn config_subnet_parses() {
    let mut c = Config::default();
    c.subnet = "10.0.1.0/24".to_string();
    assert_eq!(c.get_v4(), Some(IpAddress::V4([10, 0, 1, 0])));
    assert_eq!(c.get_v4_mask(), Some(24));
}

#[test]
fn config_rejects_malformed_subnets() {
    let mut c = Config::default();
    c.subnet = "300.0.1.0/24".to_string();
    assert_eq!(c.get_v4(), None);
    c.subnet = "10.0.1.0".to_string();
    assert_eq!(c.get_v4(), Some(IpAddress::V4([10, 0, 1, 0])));
    assert_eq!(c.get_v4_mask(), None);
    c.subnet = "10.0.1.0/zz".to_string();
    assert_eq!(c.get_v4_mask(), None);
    c.subnet = "10.0.1/8".to_string();
    assert_eq!(c.get_v4(), None);
}

#[test]
fn config_default_and_env() {
    let c = Config::default();
    assert_eq!(c.device_name, "ph0");
    assert_eq!(c.port, 7654);
    assert_eq!(c.name.len(), 8);
    assert!(c.name.starts_with("ph-"));
    let env = c.get_env();
    assert_eq!(env.len(), 2);
    assert_eq!(env[0].0, "INTERFACE");
    assert_eq!(env[0].1, c.device_name);
    assert_eq!(env[1].0, "IP_ADDR_MASK");
    assert_eq!(env[1].1, c.subnet);
}

#[test]
fn buffer_pool_hands_out_full_buffers() {
    let mut pool = Buffer::new();
    let mut b = pool.get();
    assert_eq!(b.len(), 1500);
    Buffer::set_len(&mut b, 42);
    assert_eq!(b.len(), 42);
    pool.put_back(b);
    let again = pool.get();
    assert_eq!(again.len(), 1500);
}

#[test]
fn reader_and_writer_pick_fixed_fields() {
    let bytes = [0x45u8, 0x00, 0x12, 0x34];
    assert_eq!(Reader::read_u4_high(&bytes), 4);
    assert_eq!(Reader::read_u4_low(&bytes), 5);
    assert_eq!(Reader::read_u8(&bytes), 0x45);
    assert_eq!(Reader::read_u16(&bytes[2..]), 0x1234);
    let mut buf = [0u8; 2];
    Writer::write_u8(&mut buf, 0xAB);
    assert_eq!(buf[0], 0xAB);
}

#[test]
fn hex_dump_is_exact() {
    assert_eq!(bytes_to_hex(&[0x0F, 0x2A, 0x00]), "0F2A00");
    assert_eq!(bytes_to_hex(&[]), "");
}

#[test]
fn str_eq_compares_characters() {
    assert!(str_eq("grüße", "grüße"));
    assert!(!str_eq("grüße", "grüsse"));
    assert!(!str_eq("a", "ab"));
}
