use base64::Engine;
use wireguard_router::addr::{parse_endpoint, Endpoint};
use wireguard_router::error::Error;
use wireguard_router::load_peers;
use wireguard_router::state::Identity;
use wireguard_router::utils::{hash, is_wg_packet, mac};
use wireguard_router::Peer;

fn b64(bytes: &[u8]) -> String {
    base64::engine::general_purpose::STANDARD.encode(bytes)
}

#[test]
fn endpoint_parses_dotted_quad() {
    let e = parse_endpoint(b"10.0.0.2:51820").unwrap();
    assert_eq!(
        e,
        Endpoint { ip0: 10, ip1: 0, ip2: 0, ip3: 2, port: 51820 }
    );
}

#[test]
fn endpoint_parses_extremes() {
    let e = parse_endpoint(b"255.255.255.255:65535").unwrap();
    assert_eq!(
        e,
        Endpoint { ip0: 255, ip1: 255, ip2: 255, ip3: 255, port: 65535 }
    );
    let e = parse_endpoint(b"0.0.0.0:0").unwrap();
    assert_eq!(e, Endpoint { ip0: 0, ip1: 0, ip2: 0, ip3: 0, port: 0 });
}

#[test]
fn endpoint_rejects_malformed() {
    assert!(parse_endpoint(b"").is_none());
    assert!(parse_endpoint(b"10.0.0.2").is_none());
    assert!(parse_endpoint(b"10.0.0:51820").is_none());
    assert!(parse_endpoint(b"10.0.0.2.3:51820").is_none());
    assert!(parse_endpoint(b"256.0.0.2:51820").is_none());
    assert!(parse_endpoint(b"10.0.0.2:65536").is_none());
    assert!(parse_endpoint(b"10.0.0.2:").is_none());
    assert!(parse_endpoint(b".0.0.2:51820").is_none());
    assert!(parse_endpoint(b"a.b.c.d:e").is_none());
    assert!(parse_endpoint(b"10.0.0.2:51820 ").is_none());
}

#[test]
fn peer_build_decodes_key_and_address() {
    let key = [7u8; 32];
    let p = Peer::build("10.0.0.1:51820".to_string(), b64(&key)).unwrap();
    assert_eq!(p.pub_key, key);
    assert_eq!(
        p.address,
        Endpoint { ip0: 10, ip1: 0, ip2: 0, ip3: 1, port: 51820 }
    );
    // The precomputed MAC1 key is BLAKE2s("mac1----" ++ pubkey).
    let mut input = b"mac1----".to_vec();
    input.extend_from_slice(&key);
    assert_eq!(p.precomputed_hash_label_mac1, hash(&input));
}

#[test]
fn peer_build_rejects_bad_descriptors() {
    let key = [7u8; 32];
    assert_eq!(
        Peer::build("not an address".to_string(), b64(&key)),
        Err(Error::ConfigInvalid)
    );
    assert_eq!(
        Peer::build("10.0.0.1:51820".to_string(), "!!!not base64!!!".to_string()),
        Err(Error::ConfigInvalid)
    );
    // Valid base64, wrong decoded length.
    assert_eq!(
        Peer::build("10.0.0.1:51820".to_string(), b64(&[7u8; 16])),
        Err(Error::ConfigInvalid)
    );
}

#[test]
fn load_peers_builds_all_or_nothing() {
    let good = vec![
        ("10.0.0.1:51820".to_string(), b64(&[1u8; 32])),
        ("10.0.0.2:51820".to_string(), b64(&[2u8; 32])),
    ];
    let ps = load_peers(good).unwrap();
    assert_eq!(ps.len(), 2);
    assert_eq!(ps[0].pub_key, [1u8; 32]);
    assert_eq!(ps[1].address.ip3, 2);

    let bad = vec![
        ("10.0.0.1:51820".to_string(), b64(&[1u8; 32])),
        ("10.0.0.2:51820".to_string(), "short".to_string()),
    ];
    assert_eq!(load_peers(bad).unwrap_err(), Error::ConfigInvalid);
}

#[test]
fn hash_matches_known_blake2s_vector() {
    // BLAKE2s-256("foo"), the vector from blake2s_simd's documentation.
    let expected_hex = "08d6cad88075de8f192db097573d0e829411cd91eb6ec65e8fc16c017edfdb74";
    let got = hash(b"foo");
    let mut hex = String::new();
    for b in got.iter() {
        hex.push_str(&format!("{:02x}", b));
    }
    assert_eq!(hex, expected_hex);
}

#[test]
fn mac_depends_on_key_and_input() {
    let m1 = mac(&[1u8; 32], b"message");
    let m2 = mac(&[2u8; 32], b"message");
    let m3 = mac(&[1u8; 32], b"other msg");
    assert_ne!(m1, m2);
    assert_ne!(m1, m3);
    assert_eq!(m1, mac(&[1u8; 32], b"message"));
}

#[test]
fn is_wg_packet_checks_opcode_and_reserved() {
    assert!(is_wg_packet(8, &[0x01, 0, 0, 0, 0, 0, 0, 0]));
    assert!(is_wg_packet(8, &[0x04, 0, 0, 0, 0, 0, 0, 0]));
    assert!(!is_wg_packet(8, &[0x00, 0, 0, 0, 0, 0, 0, 0]));
    assert!(!is_wg_packet(8, &[0x05, 0, 0, 0, 0, 0, 0, 0]));
    assert!(!is_wg_packet(8, &[0x01, 1, 0, 0, 0, 0, 0, 0]));
    assert!(!is_wg_packet(8, &[0x01, 0, 0, 9, 0, 0, 0, 0]));
    assert!(!is_wg_packet(4, &[0x01, 0, 0, 0]));
}

#[test]
fn identity_from_bytes() {
    let id = Identity::from([0xAA, 0xBB, 0xCC, 0xDD]);
    assert_eq!(id.0, [0xAA, 0xBB, 0xCC, 0xDD]);
    assert_eq!(id, Identity([0xAA, 0xBB, 0xCC, 0xDD]));
}
