use base64::Engine;
use wireguard_router::addr::Endpoint;
use wireguard_router::error::Error;
use wireguard_router::router::{Action, Router, WireguardPacket};
use wireguard_router::state::Identity;
use wireguard_router::utils::mac;
use wireguard_router::Peer;

fn b64(bytes: &[u8]) -> String {
    base64::engine::general_purpose::STANDARD.encode(bytes)
}

fn ep(ip0: u8, ip1: u8, ip2: u8, ip3: u8, port: u16) -> Endpoint {
    Endpoint { ip0, ip1, ip2, ip3, port }
}

fn backend(ip3: u8, key_byte: u8) -> Peer {
    Peer::build(format!("10.0.0.{}:51820", ip3), b64(&[key_byte; 32])).unwrap()
}

/// A 148-byte handshake initiation with the given sender id, its MAC1
/// computed with the given peer's precomputed key.
fn init_frame(sender: [u8; 4], target: &Peer) -> Vec<u8> {
    let mut f = vec![0u8; 148];
    f[0] = 0x01;
    f[4..8].copy_from_slice(&sender);
    let m = mac(&target.precomputed_hash_label_mac1, &f[..116]);
    f[116..132].copy_from_slice(&m);
    f
}

fn response_frame(sender: [u8; 4], receiver: [u8; 4]) -> Vec<u8> {
    let mut f = vec![0u8; 92];
    f[0] = 0x02;
    f[4..8].copy_from_slice(&sender);
    f[8..12].copy_from_slice(&receiver);
    f
}

fn cookie_frame(receiver: [u8; 4]) -> Vec<u8> {
    let mut f = vec![0u8; 64];
    f[0] = 0x03;
    f[4..8].copy_from_slice(&receiver);
    f
}

fn transport_frame(receiver: [u8; 4], size: usize) -> Vec<u8> {
    let mut f = vec![0u8; size];
    f[0] = 0x04;
    f[4..8].copy_from_slice(&receiver);
    f
}

fn client() -> Endpoint {
    ep(192, 168, 1, 5, 40000)
}

/// Runs the S2 scenario: two backends, an initiation whose MAC1 names
/// the second; returns the router afterwards with the pinned session.
fn routed_initiation() -> (Router, Peer, Peer) {
    let b1 = backend(1, 0x11);
    let b2 = backend(2, 0x22);
    let mut router = Router::new(vec![b1, b2]);
    let frame = init_frame([0xAA, 0xBB, 0xCC, 0xDD], &b2);
    let action = router.handle_packet(frame.len(), client(), &frame);
    assert_eq!(action, Action::Forward { dest: b2.address, len: 148 });
    (router, b1, b2)
}

#[test]
fn unknown_frame_dropped_silently() {
    let mut router = Router::new(vec![backend(1, 0x11)]);
    let frame = [0x00u8, 0, 0, 0, 0, 0, 0, 0];
    assert_eq!(router.handle_packet(8, client(), &frame), Action::Discard);
}

#[test]
fn initiation_routes_to_mac1_matched_backend() {
    let (router, _b1, b2) = routed_initiation();
    let entry = router.sessions.get(Identity([0xAA, 0xBB, 0xCC, 0xDD])).unwrap();
    assert_eq!(entry, (client(), b2.address));
    assert_eq!(b2.address, ep(10, 0, 0, 2, 51820));
}

#[test]
fn initiation_with_unknown_mac1_dropped() {
    let b1 = backend(1, 0x11);
    let stranger = backend(9, 0x99);
    let mut router = Router::new(vec![b1]);
    let frame = init_frame([0xAA, 0xBB, 0xCC, 0xDD], &stranger);
    assert_eq!(router.handle_packet(148, client(), &frame), Action::Discard);
    assert!(router.sessions.get(Identity([0xAA, 0xBB, 0xCC, 0xDD])).is_none());
}

#[test]
fn initiation_retransmit_reuses_pinned_backend() {
    let (mut router, _b1, b2) = routed_initiation();
    // Same sender id again, this time with a MAC1 nobody can verify:
    // the pinned session wins without re-verification.
    let stranger = backend(9, 0x99);
    let retransmit = init_frame([0xAA, 0xBB, 0xCC, 0xDD], &stranger);
    assert_eq!(
        router.handle_packet(148, client(), &retransmit),
        Action::Forward { dest: b2.address, len: 148 }
    );
}

#[test]
fn transport_without_session_dropped() {
    let mut router = Router::new(vec![backend(1, 0x11)]);
    let frame = transport_frame([0x11, 0x22, 0x33, 0x44], 60);
    assert_eq!(router.handle_packet(60, client(), &frame), Action::Discard);
}

#[test]
fn response_installs_reverse_route() {
    let (mut router, _b1, b2) = routed_initiation();
    let frame = response_frame([0x01, 0x02, 0x03, 0x04], [0xAA, 0xBB, 0xCC, 0xDD]);
    let action = router.handle_packet(92, b2.address, &frame);
    assert_eq!(action, Action::Forward { dest: client(), len: 92 });
    let entry = router.sessions.get(Identity([0x01, 0x02, 0x03, 0x04])).unwrap();
    assert_eq!(entry, (b2.address, client()));
    // Transport data addressed to the responder's sender id now reaches
    // the original client.
    let data = transport_frame([0x01, 0x02, 0x03, 0x04], 60);
    assert_eq!(
        router.handle_packet(60, b2.address, &data),
        Action::Forward { dest: client(), len: 60 }
    );
}

#[test]
fn response_without_session_dropped() {
    let mut router = Router::new(vec![backend(1, 0x11)]);
    let frame = response_frame([0x01, 0x02, 0x03, 0x04], [0xAA, 0xBB, 0xCC, 0xDD]);
    assert_eq!(router.handle_packet(92, client(), &frame), Action::Discard);
}

#[test]
fn cookie_reply_reaches_client() {
    let (mut router, _b1, b2) = routed_initiation();
    let frame = cookie_frame([0xAA, 0xBB, 0xCC, 0xDD]);
    assert_eq!(
        router.handle_packet(64, b2.address, &frame),
        Action::Forward { dest: client(), len: 64 }
    );
}

#[test]
fn cookie_reply_without_session_dropped() {
    let mut router = Router::new(vec![backend(1, 0x11)]);
    let frame = cookie_frame([0xAA, 0xBB, 0xCC, 0xDD]);
    assert_eq!(router.handle_packet(64, client(), &frame), Action::Discard);
}

#[test]
fn transport_follows_pinned_session() {
    let (mut router, _b1, b2) = routed_initiation();
    let frame = transport_frame([0xAA, 0xBB, 0xCC, 0xDD], 60);
    assert_eq!(
        router.handle_packet(60, client(), &frame),
        Action::Forward { dest: b2.address, len: 60 }
    );
}

#[test]
fn reload_keeps_sessions_but_not_removed_backends() {
    let (mut router, b1, b2) = routed_initiation();
    // Remove B2 from the configuration.
    router.set_peers(vec![b1]);
    // The pinned session still routes to B2's address.
    let data = transport_frame([0xAA, 0xBB, 0xCC, 0xDD], 60);
    assert_eq!(
        router.handle_packet(60, client(), &data),
        Action::Forward { dest: b2.address, len: 60 }
    );
    // A fresh initiation for B2's key is now dropped.
    let fresh = init_frame([0x55, 0x66, 0x77, 0x88], &b2);
    assert_eq!(router.handle_packet(148, client(), &fresh), Action::Discard);
    assert!(router.sessions.get(Identity([0x55, 0x66, 0x77, 0x88])).is_none());
}

#[test]
fn reload_with_same_peers_changes_nothing() {
    let (mut router, b1, b2) = routed_initiation();
    router.set_peers(vec![b1, b2]);
    let entry = router.sessions.get(Identity([0xAA, 0xBB, 0xCC, 0xDD])).unwrap();
    assert_eq!(entry, (client(), b2.address));
    let frame = init_frame([0x12, 0x34, 0x56, 0x78], &b1);
    assert_eq!(
        router.handle_packet(148, client(), &frame),
        Action::Forward { dest: b1.address, len: 148 }
    );
}

#[test]
fn mac1_match_wins_regardless_of_peer_order() {
    let b1 = backend(1, 0x11);
    let b2 = backend(2, 0x22);
    let frame = init_frame([0xAA, 0xBB, 0xCC, 0xDD], &b1);

    let mut forward_order = Router::new(vec![b1, b2]);
    let mut reverse_order = Router::new(vec![b2, b1]);
    assert_eq!(
        forward_order.handle_packet(148, client(), &frame),
        Action::Forward { dest: b1.address, len: 148 }
    );
    assert_eq!(
        reverse_order.handle_packet(148, client(), &frame),
        Action::Forward { dest: b1.address, len: 148 }
    );
}

#[test]
fn classifier_accepts_the_four_kinds() {
    let f = init_frame([1, 2, 3, 4], &backend(1, 0x11));
    match WireguardPacket::try_from(&f, 148).unwrap() {
        WireguardPacket::HandshakeInitiation(h) => {
            assert_eq!(h.sender, Identity([1, 2, 3, 4]));
            assert_eq!(h.mac1[..], f[116..132]);
        }
        _ => panic!("expected an initiation"),
    }
    let f = response_frame([1, 2, 3, 4], [5, 6, 7, 8]);
    match WireguardPacket::try_from(&f, 92).unwrap() {
        WireguardPacket::HandshakeResponse(h) => {
            assert_eq!(h.sender, Identity([1, 2, 3, 4]));
            assert_eq!(h.receiver, Identity([5, 6, 7, 8]));
        }
        _ => panic!("expected a response"),
    }
    let f = cookie_frame([1, 2, 3, 4]);
    match WireguardPacket::try_from(&f, 64).unwrap() {
        WireguardPacket::CookieReply(c) => assert_eq!(c.receiver, Identity([1, 2, 3, 4])),
        _ => panic!("expected a cookie reply"),
    }
    let f = transport_frame([1, 2, 3, 4], 60);
    match WireguardPacket::try_from(&f, 60).unwrap() {
        WireguardPacket::TransportData(t) => {
            assert_eq!(t.0.receiver, Identity([1, 2, 3, 4]));
            assert_eq!(t.1, 44);
        }
        _ => panic!("expected transport data"),
    }
}

#[test]
fn classifier_rejects_bad_sizes_and_opcodes() {
    assert_eq!(
        WireguardPacket::try_from(&[0u8; 4], 3).unwrap_err(),
        Error::PacketTooShort
    );
    let mut f = vec![0u8; 147];
    f[0] = 0x01;
    assert_eq!(
        WireguardPacket::try_from(&f, 147).unwrap_err(),
        Error::InvalidPacket
    );
    let mut f = vec![0u8; 31];
    f[0] = 0x04;
    assert_eq!(
        WireguardPacket::try_from(&f, 31).unwrap_err(),
        Error::InvalidPacket
    );
    let mut f = vec![0u8; 64];
    f[0] = 0x05;
    assert_eq!(
        WireguardPacket::try_from(&f, 64).unwrap_err(),
        Error::InvalidPacket
    );
}
