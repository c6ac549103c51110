use overlay_vpn::addr::{IpAddress, SocketAddress};
use overlay_vpn::peer::{Host, Peer};
use overlay_vpn::table::{LikeRouter, Table};

fn sock(a: u8, b: u8, c: u8, d: u8, port: u16) -> SocketAddress {
    SocketAddress::new(IpAddress::V4([a, b, c, d]), port)
}

#[test]
pub fn it_works() {
    let mut p = Peer::new("test".to_string());
    assert_eq!(p.add_host(Host::Localhost).is_ok(), true);
    assert_eq!(p.add_host(Host::Localhost).is_err(), true);

    assert_eq!(p.add_host(Host::Socket(sock(128, 66, 1, 0, 1234))).is_ok(), true);
    assert_eq!(p.get_host(), Host::Localhost);
}

#[test]
pub fn add_two_host() {
    let mut p = Peer::new("test".to_string());
    assert_eq!(p.add_host(Host::Localhost).is_ok(), true);
    assert_eq!(p.add_host(Host::Unreachable).is_ok(), true);

    assert_eq!(p.get_host(), Host::Localhost);
}

#[test]
pub fn test_rank() {
    let mut p = Peer::new("test".to_string());
    assert_eq!(p.add_host(Host::Socket(sock(128, 66, 1, 0, 1234))).is_ok(), true);
    assert_eq!(p.add_host(Host::Socket(sock(128, 66, 1, 0, 1234))).is_err(), true);
    assert_eq!(p.add_host(Host::Socket(sock(128, 66, 1, 1, 1234))).is_ok(), true);

    assert_eq!(p.get_host(), Host::Socket(sock(128, 66, 1, 0, 1234)));
}

#[test]
pub fn crate_table() {
    let mut table = Table::new();
    table
        .insert(
            IpAddress::V4([128, 66, 1, 0]),
            24,
            "test".to_string(),
            Host::Localhost,
        )
        .unwrap();
}

#[test]
pub fn insert_table() {
    let mut table = Table::new();
    table
        .insert(
            IpAddress::V4([128, 66, 1, 0]),
            24,
            "test1".to_string(),
            Host::Localhost,
        )
        .unwrap();
    table
        .insert(
            IpAddress::V4([128, 66, 2, 0]),
            24,
            "test2".to_string(),
            Host::Localhost,
        )
        .unwrap();

    let ans1 = table.find(IpAddress::V4([128, 66, 1, 0])).unwrap();
    assert_eq!(ans1.name, "test1");
    let ans2 = table.find(IpAddress::V4([128, 66, 2, 0])).unwrap();
    assert_eq!(ans2.name, "test2");
}

#[test]
pub fn get_from_table() {
    let mut table = Table::new();
    table
        .insert(
            IpAddress::V4([128, 66, 1, 0]),
            24,
            "test1".to_string(),
            Host::Localhost,
        )
        .unwrap();
    table
        .insert(
            IpAddress::V4([128, 66, 2, 0]),
            24,
            "test2".to_string(),
            Host::Localhost,
        )
        .unwrap();

    let ans1 = table.find(IpAddress::V4([128, 66, 1, 1])).unwrap();
    assert_eq!(ans1.name, "test1");

    let ans1 = table.find(IpAddress::V4([128, 66, 1, 2])).unwrap();
    assert_eq!(ans1.name, "test1");

    let ans2 = table.find(IpAddress::V4([128, 66, 2, 1])).unwrap();
    assert_eq!(ans2.name, "test2");
    let ans2 = table.find(IpAddress::V4([128, 66, 2, 255])).unwrap();
    assert_eq!(ans2.name, "test2");

    let ans3 = table.find(IpAddress::V4([128, 66, 3, 0]));
    assert!(ans3.is_none());
}

#[test]
pub fn delete_from_table() {
    let mut table = Table::new();

    table
        .insert(
            IpAddress::V4([128, 66, 1, 0]),
            24,
            "test1".to_string(),
            Host::Localhost,
        )
        .unwrap();

    let ans1 = table.find(IpAddress::V4([128, 66, 1, 1])).unwrap();
    assert_eq!(ans1.name, "test1");

    let ans2 = table.find(IpAddress::V4([128, 66, 2, 1]));
    assert!(ans2.is_none());

    table.delete(IpAddress::V4([128, 66, 1, 0]), 24).unwrap();
    assert!(table.find(IpAddress::V4([128, 66, 1, 1])).is_none());
    assert!(table.find(IpAddress::V4([128, 66, 1, 0])).is_none());
}

#[test]
pub fn get_by_name() {
    let mut table = Table::new();
    table
        .insert(
            IpAddress::V4([128, 66, 1, 0]),
            24,
            "test1".to_string(),
            Host::Localhost,
        )
        .unwrap();
    table
        .insert(
            IpAddress::V4([128, 66, 2, 0]),
            24,
            "test2".to_string(),
            Host::Localhost,
        )
        .unwrap();

    assert_eq!(table.get_by_peer_name("test1").unwrap().name, "test1");
    assert_eq!(table.get_by_peer_name("test2").unwrap().name, "test2");
    assert!(table.get_by_peer_name("test3").is_none());
}

#[test]
pub fn get_all() {
    let mut table = Table::new();
    table
        .insert(
            IpAddress::V4([128, 66, 1, 0]),
            24,
            "test1".to_string(),
            Host::Localhost,
        )
        .unwrap();
    table
        .insert(
            IpAddress::V4([128, 66, 2, 0]),
            24,
            "test2".to_string(),
            Host::Localhost,
        )
        .unwrap();
    assert_eq!(2, table.get_all_peer().len());
}

#[test]
pub fn longest_prefix_wins() {
    let mut table = Table::new();
    table
        .insert(IpAddress::V4([10, 0, 0, 0]), 8, "X".to_string(), Host::Localhost)
        .unwrap();
    table
        .insert(
            IpAddress::V4([10, 0, 1, 0]),
            24,
            "Y".to_string(),
            Host::Localhost,
        )
        .unwrap();

    assert_eq!(table.find(IpAddress::V4([10, 0, 1, 5])).unwrap().name, "Y");
    assert_eq!(table.find(IpAddress::V4([10, 0, 2, 5])).unwrap().name, "X");
    assert!(table.find(IpAddress::V4([11, 0, 0, 1])).is_none());
}

#[test]
pub fn duplicate_insert_reports_known_host() {
    let mut table = Table::new();
    let host = Host::Socket(sock(192, 0, 2, 7, 7654));
    assert!(table
        .insert(IpAddress::V4([10, 0, 1, 0]), 24, "p".to_string(), host)
        .is_ok());
    assert!(table
        .insert(IpAddress::V4([10, 0, 1, 0]), 24, "p".to_string(), host)
        .is_err());
}

#[test]
pub fn delete_absent_prefix_fails() {
    let mut table = Table::new();
    assert!(table.delete(IpAddress::V4([10, 0, 1, 0]), 24).is_err());
}

#[test]
pub fn v6_addresses_route_in_their_own_table() {
    let mut table = Table::new();
    let v6 = IpAddress::V6([0x20, 0x01, 0x0d, 0xb8, 0, 0, 0, 0, 0, 0, 0, 0, 0, 0, 0, 0]);
    table.insert(v6, 32, "six".to_string(), Host::Localhost).unwrap();
    let probe = IpAddress::V6([
        0x20, 0x01, 0x0d, 0xb8, 0, 0, 0, 0, 0, 0, 0, 0, 0, 0, 0, 1,
    ]);
    assert_eq!(table.find(probe).unwrap().name, "six");
}

#[test]
pub fn empty_peer_is_unreachable() {
    let p = Peer::new("lonely".to_string());
    assert_eq!(p.get_host(), Host::Unreachable);
}

#[test]
pub fn socket_beats_unreachable() {
    let mut p = Peer::new("p".to_string());
    p.add_host(Host::Unreachable).unwrap();
    p.add_host(Host::Socket(sock(198, 51, 100, 1, 9000))).unwrap();
    assert_eq!(p.get_host(), Host::Socket(sock(198, 51, 100, 1, 9000)));
}
