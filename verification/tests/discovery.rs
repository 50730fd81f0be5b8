use dali::discovery::{answer, listen_address, query_target, PeerTable};
use dali::protocol::{DiscoveryMessage, IpAddress, Peer, SocketAddress};

fn announce_bytes(name: &str, transfer_port: u16) -> Vec<u8> {
    DiscoveryMessage::Announce { name: name.to_string(), transfer_port }.to_bytes()
}

fn peer(name: &str, ip: IpAddress, port: u16) -> Peer {
    Peer { name: name.to_string(), addr: SocketAddress { ip, port } }
}

const HOST_B: IpAddress = IpAddress::V4(0xc0a8_0117);
const HOST_C: IpAddress = IpAddress::V4(0xc0a8_0118);

#[test]
fn query_goes_to_the_broadcast_address() {
    assert_eq!(query_target(), SocketAddress { ip: IpAddress::V4(0xffff_ffff), port: 45678 });
    assert_eq!(listen_address(), SocketAddress { ip: IpAddress::V4(0), port: 45678 });
}

#[test]
fn a_query_is_answered_with_the_announcement() {
    let reply = answer(&DiscoveryMessage::Query.to_bytes(), "bravo", 45679);
    assert_eq!(
        reply,
        Some(b"{\"Announce\":{\"name\":\"bravo\",\"transfer_port\":45679}}".to_vec())
    );
}

#[test]
fn a_query_with_white_space_around_it_is_answered() {
    for datagram in [&b"\"Query\"\n"[..], &b" \"Query\""[..], &b"\r\n\t\"Query\" "[..]] {
        assert_eq!(
            answer(datagram, "bravo", 45679),
            Some(b"{\"Announce\":{\"name\":\"bravo\",\"transfer_port\":45679}}".to_vec())
        );
    }
}

#[test]
fn an_announcement_is_not_answered() {
    assert_eq!(answer(&announce_bytes("other", 1), "bravo", 45679), None);
}

#[test]
fn foreign_datagrams_are_not_answered_and_the_listener_goes_on() {
    let foreign: [&[u8]; 5] = [b"", b"garbage", b"\xff\xff", b"{\"Query\"}", b"\"Query\"?"];
    for datagram in foreign {
        assert_eq!(answer(datagram, "bravo", 45679), None);
        assert!(answer(b"\"Query\"", "bravo", 45679).is_some());
    }
}

#[test]
fn an_empty_table_has_no_peers() {
    let table = PeerTable::new();
    assert_eq!(table.len(), 0);
    assert_eq!(table.into_peers(), Vec::new());
}

#[test]
fn an_announcement_is_recorded_at_its_source() {
    let mut table = PeerTable::new();
    table.on_datagram(HOST_B, &announce_bytes("bravo", 45679));
    assert_eq!(table.len(), 1);
    assert_eq!(table.into_peers(), vec![peer("bravo", HOST_B, 45679)]);
}

#[test]
fn the_latest_announcement_of_a_source_stays() {
    let mut table = PeerTable::new();
    table.on_datagram(HOST_B, &announce_bytes("first", 1000));
    table.on_datagram(HOST_B, &announce_bytes("second", 2000));
    assert_eq!(table.len(), 1);
    assert_eq!(table.into_peers(), vec![peer("second", HOST_B, 2000)]);
}

#[test]
fn the_latest_announcement_stays_among_others() {
    let mut table = PeerTable::new();
    table.on_datagram(HOST_B, &announce_bytes("b1", 1));
    table.on_datagram(HOST_C, &announce_bytes("c1", 2));
    table.on_datagram(IpAddress::V6(1), &announce_bytes("six", 3));
    table.on_datagram(HOST_B, &announce_bytes("b2", 4));
    table.on_datagram(HOST_B, &announce_bytes("b2", 4));
    assert_eq!(table.len(), 3);
    let peers = table.into_peers();
    assert_eq!(peers.len(), 3);
    assert!(peers.contains(&peer("b2", HOST_B, 4)));
    assert!(peers.contains(&peer("c1", HOST_C, 2)));
    assert!(peers.contains(&peer("six", IpAddress::V6(1), 3)));
    assert_eq!(peers.iter().filter(|p| p.addr.ip == HOST_B).count(), 1);
}

#[test]
fn an_address_of_each_family_is_its_own_source() {
    let mut table = PeerTable::new();
    table.on_datagram(IpAddress::V4(1), &announce_bytes("four", 1));
    table.on_datagram(IpAddress::V6(1), &announce_bytes("six", 1));
    assert_eq!(table.len(), 2);
}

#[test]
fn queries_and_foreign_datagrams_leave_the_table() {
    let mut table = PeerTable::new();
    table.on_datagram(HOST_B, &announce_bytes("bravo", 45679));
    table.on_datagram(HOST_B, b"\"Query\"");
    table.on_datagram(HOST_C, b"\"Query\"");
    table.on_datagram(HOST_C, b"");
    table.on_datagram(HOST_C, b"{\"Announce\":{\"name\":\"c\",\"transfer_port\":70000}}");
    table.on_datagram(HOST_B, b"noise");
    assert_eq!(table.into_peers(), vec![peer("bravo", HOST_B, 45679)]);
}

#[test]
fn record_replaces_by_address() {
    let mut table = PeerTable::new();
    table.record(peer("a", HOST_B, 1));
    table.record(peer("b", HOST_C, 2));
    table.record(peer("c", HOST_B, 3));
    assert_eq!(table.into_peers(), vec![peer("c", HOST_B, 3), peer("b", HOST_C, 2)]);
}

#[test]
fn peers_compare_by_content() {
    assert_eq!(peer("a", HOST_B, 1).clone(), peer("a", HOST_B, 1));
    assert_ne!(peer("a", HOST_B, 1), peer("a", HOST_B, 2));
    assert_ne!(peer("a", HOST_B, 1), peer("a", HOST_C, 1));
    assert_ne!(peer("a", HOST_B, 1), peer("b", HOST_B, 1));
}

#[test]
fn discovery_finds_the_one_listener() {
    // Host A broadcasts its query; host B, named "bravo" and taking files on
    // 45679, answers it; A collects what came back until its time is up.
    let query = DiscoveryMessage::Query.to_bytes();
    let reply = answer(&query, "bravo", 45679).expect("a query is answered");
    let mut table = PeerTable::new();
    table.on_datagram(HOST_B, &reply);
    assert_eq!(table.into_peers(), vec![peer("bravo", HOST_B, 45679)]);
}
