use howm::addressing::{identify_peer_by_addr, resolve_peer_addr, same_ip, AddrTable, PeerAddr, WgPeerAddrs};
use howm::bridge::encode_b64;
use howm::stun::IpAddr;

fn v4(a: u8, b: u8, c: u8, d: u8) -> IpAddr {
    IpAddr::V4([a, b, c, d])
}

fn addr(ip: IpAddr, port: u16) -> PeerAddr {
    PeerAddr { ip, port }
}

#[test]
fn addr_table_insert_replaces() {
    let mut t = AddrTable::new();
    assert_eq!(t.get(&[1u8; 32]), None);
    t.insert([1u8; 32], addr(v4(192, 168, 1, 5), 7000));
    t.insert([2u8; 32], addr(v4(192, 168, 1, 6), 7000));
    t.insert([1u8; 32], addr(v4(192, 168, 1, 9), 7001));
    assert_eq!(t.get(&[1u8; 32]), Some(addr(v4(192, 168, 1, 9), 7001)));
    assert_eq!(t.get(&[2u8; 32]), Some(addr(v4(192, 168, 1, 6), 7000)));
    // The replaced address no longer identifies the peer.
    assert_eq!(t.peer_at(&v4(192, 168, 1, 5)), None);
    assert_eq!(t.peer_at(&v4(192, 168, 1, 9)), Some([1u8; 32]));
}

#[test]
fn same_ip_tells_families_apart() {
    assert!(same_ip(&v4(10, 0, 0, 1), &v4(10, 0, 0, 1)));
    assert!(!same_ip(&v4(10, 0, 0, 1), &v4(10, 0, 0, 2)));
    let mut six = [0u8; 16];
    six[10] = 0xff;
    six[11] = 0xff;
    six[12] = 10;
    six[15] = 1;
    assert!(!same_ip(&v4(10, 0, 0, 1), &IpAddr::V6(six)));
    assert!(same_ip(&IpAddr::V6(six), &IpAddr::V6(six)));
}

#[test]
fn resolve_prefers_override_then_hint_then_wg() {
    let peer = [7u8; 32];
    let wg = vec![WgPeerAddrs {
        pubkey: encode_b64(&peer),
        addresses: vec![Some(v4(100, 222, 0, 7)), Some(v4(10, 9, 0, 0))],
    }];
    let mut overrides = AddrTable::new();
    let mut hints = AddrTable::new();
    assert_eq!(
        resolve_peer_addr(&peer, &overrides, &hints, Some(&wg), 7000),
        Some(addr(v4(100, 222, 0, 7), 7000))
    );
    assert_eq!(resolve_peer_addr(&peer, &overrides, &hints, None, 7000), None);
    hints.insert(peer, addr(v4(192, 168, 1, 7), 7100));
    assert_eq!(
        resolve_peer_addr(&peer, &overrides, &hints, Some(&wg), 7000),
        Some(addr(v4(192, 168, 1, 7), 7100))
    );
    overrides.insert(peer, addr(v4(127, 0, 0, 1), 9000));
    assert_eq!(
        resolve_peer_addr(&peer, &overrides, &hints, Some(&wg), 7000),
        Some(addr(v4(127, 0, 0, 1), 9000))
    );
}

#[test]
fn resolve_skips_unparsed_first_entry() {
    let peer = [8u8; 32];
    let wg = vec![
        WgPeerAddrs { pubkey: encode_b64(&peer), addresses: vec![None, Some(v4(100, 222, 0, 8))] },
        WgPeerAddrs { pubkey: encode_b64(&peer), addresses: vec![Some(v4(100, 222, 0, 80))] },
    ];
    let empty = AddrTable::new();
    assert_eq!(
        resolve_peer_addr(&peer, &empty, &empty, Some(&wg), 7000),
        Some(addr(v4(100, 222, 0, 80), 7000))
    );
    assert_eq!(resolve_peer_addr(&[9u8; 32], &empty, &empty, Some(&wg), 7000), None);
}

#[test]
fn identify_by_override_hint_and_wg() {
    let a = [1u8; 32];
    let b = [2u8; 32];
    let c = [3u8; 32];
    let mut overrides = AddrTable::new();
    overrides.insert(a, addr(v4(127, 0, 0, 1), 9000));
    let mut hints = AddrTable::new();
    hints.insert(b, addr(v4(192, 168, 1, 2), 7000));
    hints.insert(a, addr(v4(192, 168, 1, 3), 7000));
    let wg = vec![
        // Listed, but its key is not 32 bytes: skipped.
        WgPeerAddrs { pubkey: encode_b64(&[4u8; 16]), addresses: vec![Some(v4(100, 222, 0, 3))] },
        WgPeerAddrs { pubkey: encode_b64(&c), addresses: vec![Some(v4(100, 222, 0, 9)), Some(v4(100, 222, 0, 3))] },
    ];
    assert_eq!(identify_peer_by_addr(&v4(127, 0, 0, 1), &overrides, &hints, Some(&wg)), Some(a));
    assert_eq!(identify_peer_by_addr(&v4(192, 168, 1, 2), &overrides, &hints, Some(&wg)), Some(b));
    assert_eq!(identify_peer_by_addr(&v4(192, 168, 1, 3), &overrides, &hints, Some(&wg)), Some(a));
    assert_eq!(identify_peer_by_addr(&v4(100, 222, 0, 3), &overrides, &hints, Some(&wg)), Some(c));
    assert_eq!(identify_peer_by_addr(&v4(100, 222, 0, 3), &overrides, &hints, None), None);
    assert_eq!(identify_peer_by_addr(&v4(8, 8, 8, 8), &overrides, &hints, Some(&wg)), None);
}
