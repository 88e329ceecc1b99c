//! A session-stateful WireGuard load balancer core: frame classification,
//! MAC1-based backend selection, bidirectional session pinning, and hot
//! peer-set reload. The caller owns the UDP socket and the configuration
//! file; this crate decides, for each received datagram, where it goes and
//! how the session table changes.

use base64::Engine;
use vstd::prelude::*;

pub mod addr;
pub mod error;
pub mod router;
pub mod state;
pub mod utils;

use crate::addr::Endpoint;
use crate::error::Error;
use crate::utils::blake2s_hash32;

verus! {

/// The label prefixed to a public key when deriving its MAC1 key: the
/// ASCII bytes of "mac1----".
pub open spec fn label_mac1() -> Seq<u8> {
    seq![0x6du8, 0x61u8, 0x63u8, 0x31u8, 0x2du8, 0x2du8, 0x2du8, 0x2du8]
}

/// What the base64 STANDARD engine decodes `s` to, or `None` where it
/// rejects `s`; a function of the input characters alone.
pub uninterp spec fn base64_std_decode(s: Seq<char>) -> Option<Seq<u8>>;

/// Relies on base64's `Engine::decode` on the STANDARD engine (standard
/// alphabet, padding required): whether it succeeds, and the bytes it
/// returns, depend on the input characters alone.
#[verifier::external_body]
fn decode_base64(s: &str) -> (r: Option<Vec<u8>>)
    ensures
        match r {
            Some(v) => base64_std_decode(s@) == Some(v@),
            None => base64_std_decode(s@) is None,
        },
{
    base64::engine::general_purpose::STANDARD.decode(s).ok()
}

/// The endpoint denoted by the character string `address`, if any: its
/// UTF-8 bytes read as dotted "a.b.c.d:port".
pub open spec fn spec_endpoint_of(address: Seq<char>) -> Option<Endpoint> {
    crate::addr::spec_parse_endpoint(vstd::utf8::encode_utf8(address))
}

/// A configured backend: its public key, the precomputed MAC1 key
/// `BLAKE2s("mac1----" ++ pub_key)`, and its transport endpoint.
/// Immutable once built; the peer set is replaced wholesale on reload.
#[derive(Clone, Copy, Debug, PartialEq, Eq)]
pub struct Peer {
    pub pub_key: [u8; 32],
    pub precomputed_hash_label_mac1: [u8; 32],
    pub address: Endpoint,
}

/// The descriptor pair (`address`, `pub_key`) denotes a peer: the address
/// parses and the key decodes to exactly 32 bytes.
pub open spec fn spec_peer_valid(address: Seq<char>, pub_key: Seq<char>) -> bool {
    &&& spec_endpoint_of(address) is Some
    &&& base64_std_decode(pub_key) matches Some(k) && k.len() == 32
}

/// The fields of `p` are the ones the descriptor pair denotes.
pub open spec fn spec_peer_built(p: Peer, address: Seq<char>, pub_key: Seq<char>) -> bool {
    &&& spec_endpoint_of(address) == Some(p.address)
    &&& base64_std_decode(pub_key) == Some(p.pub_key@)
    &&& p.precomputed_hash_label_mac1@ == blake2s_hash32(label_mac1() + p.pub_key@)
}

/// Building a peer is deterministic: two peers built from the same
/// descriptor are the same peer. Reloading an unchanged configuration
/// therefore reproduces the same peer set.
pub proof fn lemma_build_deterministic(p1: Peer, p2: Peer, address: Seq<char>, pub_key: Seq<char>)
    requires
        spec_peer_built(p1, address, pub_key),
        spec_peer_built(p2, address, pub_key),
    ensures
        p1 == p2,
{
    assert(p1.pub_key =~= p2.pub_key);
    assert(p1.precomputed_hash_label_mac1 =~= p2.precomputed_hash_label_mac1);
}

/// The 40-byte input of the MAC1 key derivation: label, then key.
fn mac1_key_input(pub_key: &[u8; 32]) -> (r: Vec<u8>)
    ensures
        r@ == label_mac1() + pub_key@,
{
    let mut v: Vec<u8> = Vec::new();
    v.push(0x6d);
    v.push(0x61);
    v.push(0x63);
    v.push(0x31);
    v.push(0x2d);
    v.push(0x2d);
    v.push(0x2d);
    v.push(0x2d);
    let mut i: usize = 0;
    while i < 32
        invariant
            i <= 32,
            v@ == label_mac1() + pub_key@.subrange(0, i as int),
        decreases 32 - i,
    {
        v.push(pub_key[i]);
        proof {
            assert(label_mac1() + pub_key@.subrange(0, i as int) + seq![pub_key@[i as int]]
                =~= label_mac1() + pub_key@.subrange(0, i + 1));
        }
        i = i + 1;
    }
    proof {
        assert(pub_key@.subrange(0, 32) =~= pub_key@);
    }
    v
}

impl Peer {
    /// Build a peer from its human-readable descriptor: parse the dotted
    /// "host:port" address, base64-decode the 44-character public key into
    /// exactly 32 bytes, and precompute the MAC1 key. Any failing step
    /// rejects the descriptor with `ConfigInvalid`.
    pub fn build(address: String, pub_key: String) -> (r: Result<Peer, Error>)
        ensures
            match r {
                Ok(p) => spec_peer_built(p, address@, pub_key@),
                Err(e) => e == Error::ConfigInvalid && !spec_peer_valid(address@, pub_key@),
            },
    {
        let ep = match crate::addr::parse_endpoint(address.as_str().as_bytes()) {
            Some(e) => e,
            None => {
                return Err(Error::ConfigInvalid);
            },
        };
        let decoded = match decode_base64(pub_key.as_str()) {
            Some(v) => v,
            None => {
                return Err(Error::ConfigInvalid);
            },
        };
        if decoded.len() != 32 {
            return Err(Error::ConfigInvalid);
        }
        let mut key: [u8; 32] = [0u8; 32];
        let mut i: usize = 0;
        while i < 32
            invariant
                i <= 32,
                decoded@.len() == 32,
                forall|j: int| 0 <= j < i ==> key@[j] == decoded@[j],
            decreases 32 - i,
        {
            key[i] = decoded[i];
            i = i + 1;
        }
        proof {
            assert(key@ =~= decoded@);
        }
        let hashed = crate::utils::hash(mac1_key_input(&key).as_slice());
        Ok(Peer { pub_key: key, precomputed_hash_label_mac1: hashed, address: ep })
    }
}

/// Build the peer list from descriptor pairs `(address, pubkey)`, in
/// order. The first invalid descriptor rejects the whole list, leaving
/// the caller's previous snapshot in place.
pub fn load_peers(entries: Vec<(String, String)>) -> (r: Result<Vec<Peer>, Error>)
    ensures
        match r {
            Ok(ps) => ps@.len() == entries@.len() && forall|i: int|
                0 <= i < ps@.len() ==> spec_peer_built(
                    #[trigger] ps@[i],
                    entries@[i].0@,
                    entries@[i].1@,
                ),
            Err(e) => e == Error::ConfigInvalid && exists|i: int|
                0 <= i < entries@.len() && !spec_peer_valid(
                    (#[trigger] entries@[i]).0@,
                    entries@[i].1@,
                ),
        },
{
    let mut ps: Vec<Peer> = Vec::new();
    let n = entries.len();
    let mut i: usize = 0;
    while i < n
        invariant
            i <= n,
            n == entries@.len(),
            ps@.len() == i,
            forall|j: int|
                0 <= j < i ==> spec_peer_built(#[trigger] ps@[j], entries@[j].0@, entries@[j].1@),
        decreases n - i,
    {
        let address = entries[i].0.clone();
        let pub_key = entries[i].1.clone();
        match Peer::build(address, pub_key) {
            Ok(p) => {
                ps.push(p);
            },
            Err(e) => {
                return Err(e);
            },
        }
        i = i + 1;
    }
    Ok(ps)
}

} // verus!
