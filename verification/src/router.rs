use crate::addr::Endpoint;
use crate::error::Error;
use crate::state::{id_key, Identity, SessionTable};
use crate::utils::{blake2s_mac16, spec_is_wg};
use crate::Peer;
use vstd::prelude::*;

verus! {

/// Structural view of a handshake initiation: the fields the router
/// consumes. The sender identity sits at bytes 4..8 of the frame, the
/// MAC1 authenticator at 116..132; the MAC1 input is the first 116 bytes.
#[derive(Clone, Copy, Debug, PartialEq, Eq)]
pub struct HandshakeInitiation {
    pub sender: Identity,
    pub mac1: [u8; 16],
}

/// Structural view of a handshake response: sender at 4..8, receiver at
/// 8..12.
#[derive(Clone, Copy, Debug, PartialEq, Eq)]
pub struct HandshakeResponse {
    pub sender: Identity,
    pub receiver: Identity,
}

/// Structural view of a cookie reply: receiver at 4..8.
#[derive(Clone, Copy, Debug, PartialEq, Eq)]
pub struct CookieReply {
    pub receiver: Identity,
}

/// Structural view of a transport-data header: receiver at 4..8; the
/// 16-byte header is followed by the encrypted payload.
#[derive(Clone, Copy, Debug, PartialEq, Eq)]
pub struct TransportDataHeader {
    pub receiver: Identity,
}

/// A datagram classified as one of the four WireGuard frame kinds. The
/// classifier copies only the identity and MAC fields it names; the
/// payload stays in the caller's buffer. `TransportData` carries the
/// payload length (frame size minus the 16-byte header).
#[derive(Clone, Copy, Debug, PartialEq, Eq)]
pub enum WireguardPacket {
    HandshakeInitiation(HandshakeInitiation),
    HandshakeResponse(HandshakeResponse),
    CookieReply(CookieReply),
    TransportData((TransportDataHeader, usize)),
}

/// The identity tag at byte offset `off`, as a session key.
pub open spec fn id_at(d: Seq<u8>, off: int) -> u32 {
    id_key(d.subrange(off, off + 4))
}

/// The opcode and size pairs the classifier accepts.
pub open spec fn valid_frame(d: Seq<u8>, size: int) -> bool {
    ||| d[0] == 1 && size == 148
    ||| d[0] == 2 && size == 92
    ||| d[0] == 3 && size == 64
    ||| d[0] == 4 && size >= 32
}

/// The four bytes of `data` at `off`.
fn read4(data: &[u8], off: usize) -> (r: [u8; 4])
    requires
        off + 4 <= data@.len(),
    ensures
        r@ == data@.subrange(off as int, off + 4),
{
    let mut a: [u8; 4] = [0u8; 4];
    a[0] = data[off];
    a[1] = data[off + 1];
    a[2] = data[off + 2];
    a[3] = data[off + 3];
    proof {
        assert(a@ =~= data@.subrange(off as int, off + 4));
    }
    a
}

/// The sixteen bytes of `data` at `off`.
fn read16(data: &[u8], off: usize) -> (r: [u8; 16])
    requires
        off + 16 <= data@.len(),
    ensures
        r@ == data@.subrange(off as int, off + 16),
{
    let n = data.len();
    let mut a: [u8; 16] = [0u8; 16];
    let mut i: usize = 0;
    while i < 16
        invariant
            i <= 16,
            n == data@.len(),
            off + 16 <= n,
            forall|j: int| 0 <= j < i ==> a@[j] == data@[off + j],
        decreases 16 - i,
    {
        a[i] = data[off + i];
        i = i + 1;
    }
    proof {
        assert(a@ =~= data@.subrange(off as int, off + 16));
    }
    a
}

impl WireguardPacket {
    /// Classify `size` bytes of `data` as a WireGuard frame by opcode and
    /// exact (or, for transport data, minimum) size. Rejects a datagram
    /// too short to carry an opcode before reading it.
    pub fn try_from(data: &[u8], size: usize) -> (r: Result<WireguardPacket, Error>)
        requires
            size <= data@.len(),
        ensures
            match r {
                Ok(p) => size >= 5 && (match p {
                    WireguardPacket::HandshakeInitiation(h) => data@[0] == 1 && size == 148
                        && h.sender@ == data@.subrange(4, 8) && h.mac1@ == data@.subrange(116, 132),
                    WireguardPacket::HandshakeResponse(h) => data@[0] == 2 && size == 92
                        && h.sender@ == data@.subrange(4, 8) && h.receiver@ == data@.subrange(
                        8,
                        12,
                    ),
                    WireguardPacket::CookieReply(c) => data@[0] == 3 && size == 64 && c.receiver@
                        == data@.subrange(4, 8),
                    WireguardPacket::TransportData(t) => data@[0] == 4 && size >= 32 && t.0.receiver@
                        == data@.subrange(4, 8) && t.1 == size - 16,
                }),
                Err(e) => (size < 5 && e == Error::PacketTooShort) || (size >= 5 && !valid_frame(
                    data@,
                    size as int,
                ) && e == Error::InvalidPacket),
            },
    {
        if size < 5 {
            return Err(Error::PacketTooShort);
        }
        let op = data[0];
        if op == 1 && size == 148 {
            Ok(
                WireguardPacket::HandshakeInitiation(
                    HandshakeInitiation {
                        sender: Identity(read4(data, 4)),
                        mac1: read16(data, 116),
                    },
                ),
            )
        } else if op == 2 && size == 92 {
            Ok(
                WireguardPacket::HandshakeResponse(
                    HandshakeResponse {
                        sender: Identity(read4(data, 4)),
                        receiver: Identity(read4(data, 8)),
                    },
                ),
            )
        } else if op == 3 && size == 64 {
            Ok(WireguardPacket::CookieReply(CookieReply { receiver: Identity(read4(data, 4)) }))
        } else if op == 4 && size >= 32 {
            Ok(
                WireguardPacket::TransportData(
                    (TransportDataHeader { receiver: Identity(read4(data, 4)) }, size - 16),
                ),
            )
        } else {
            Err(Error::InvalidPacket)
        }
    }
}

/// The first peer in order whose MAC1 over `msg` equals `mac1`.
pub open spec fn find_match(peers: Seq<Peer>, msg: Seq<u8>, mac1: Seq<u8>) -> Option<Peer>
    decreases peers.len(),
{
    if peers.len() == 0 {
        None
    } else if blake2s_mac16(peers[0].precomputed_hash_label_mac1@, msg) == mac1 {
        Some(peers[0])
    } else {
        find_match(peers.drop_first(), msg, mac1)
    }
}

/// What one datagram does to the session table, and where it is sent:
/// the routing step, as a function of the current sessions, the peer
/// snapshot, the datagram bytes with their size, and the source address.
/// `None` means the datagram is dropped.
pub open spec fn spec_route(
    sessions: Map<u32, (Endpoint, Endpoint)>,
    peers: Seq<Peer>,
    d: Seq<u8>,
    size: int,
    src: Endpoint,
) -> (Map<u32, (Endpoint, Endpoint)>, Option<Endpoint>) {
    if !spec_is_wg(size, d) {
        (sessions, None)
    } else if d[0] == 1 && size == 148 {
        let s = id_at(d, 4);
        if sessions.contains_key(s) {
            (sessions, Some(sessions[s].1))
        } else {
            match find_match(peers, d.subrange(0, 116), d.subrange(116, 132)) {
                Some(p) => (sessions.insert(s, (src, p.address)), Some(p.address)),
                None => (sessions, None),
            }
        }
    } else if d[0] == 2 && size == 92 {
        let s = id_at(d, 4);
        let rk = id_at(d, 8);
        if sessions.contains_key(rk) {
            let c0 = sessions[rk].0;
            (sessions.insert(s, (src, c0)), Some(c0))
        } else {
            (sessions, None)
        }
    } else if d[0] == 3 && size == 64 {
        let rk = id_at(d, 4);
        if sessions.contains_key(rk) {
            (sessions, Some(sessions[rk].0))
        } else {
            (sessions, None)
        }
    } else if d[0] == 4 && size >= 32 {
        let rk = id_at(d, 4);
        if sessions.contains_key(rk) {
            (sessions, Some(sessions[rk].1))
        } else {
            (sessions, None)
        }
    } else {
        (sessions, None)
    }
}

/// Whether two 16-byte MACs are equal.
fn eq16(a: &[u8; 16], b: &[u8; 16]) -> (r: bool)
    ensures
        r == (a@ == b@),
{
    let mut i: usize = 0;
    while i < 16
        invariant
            i <= 16,
            forall|j: int| 0 <= j < i ==> a@[j] == b@[j],
        decreases 16 - i,
    {
        if a[i] != b[i] {
            return false;
        }
        i = i + 1;
    }
    proof {
        assert(a@ =~= b@);
    }
    true
}

/// The first peer in `peers` whose MAC1 over `msg` equals `mac1`, as
/// `find_match` picks it.
fn find_backend(peers: &Vec<Peer>, msg: &[u8], mac1: &[u8; 16]) -> (r: Option<Peer>)
    ensures
        r == find_match(peers@, msg@, mac1@),
{
    let n = peers.len();
    let mut i: usize = 0;
    proof {
        assert(peers@.skip(0) =~= peers@);
    }
    while i < n
        invariant
            i <= n,
            n == peers@.len(),
            find_match(peers@, msg@, mac1@) == find_match(peers@.skip(i as int), msg@, mac1@),
        decreases n - i,
    {
        let peer_mac = crate::utils::mac(peers[i].precomputed_hash_label_mac1.as_slice(), msg);
        proof {
            assert(peers@.skip(i as int)[0] == peers@[i as int]);
            assert(peers@.skip(i as int).drop_first() =~= peers@.skip(i + 1));
        }
        if eq16(&peer_mac, mac1) {
            return Some(peers[i]);
        }
        i = i + 1;
    }
    proof {
        assert(peers@.skip(n as int) =~= Seq::<Peer>::empty());
    }
    None
}

proof fn lemma_find_match_props(peers: Seq<Peer>, msg: Seq<u8>, mac1: Seq<u8>)
    ensures
        match find_match(peers, msg, mac1) {
            Some(p) => peers.contains(p) && blake2s_mac16(p.precomputed_hash_label_mac1@, msg)
                == mac1,
            None => forall|p: Peer|
                #[trigger] peers.contains(p) ==> blake2s_mac16(
                    p.precomputed_hash_label_mac1@,
                    msg,
                ) != mac1,
        },
    decreases peers.len(),
{
    if peers.len() == 0 {
    } else if blake2s_mac16(peers[0].precomputed_hash_label_mac1@, msg) == mac1 {
        assert(peers.contains(peers[0]));
    } else {
        let rest = peers.drop_first();
        lemma_find_match_props(rest, msg, mac1);
        match find_match(rest, msg, mac1) {
            Some(p) => {
                let j = choose|j: int| 0 <= j < rest.len() && rest[j] == p;
                assert(peers[j + 1] == p);
            },
            None => {
                assert forall|p: Peer|
                    #[trigger] peers.contains(p) implies blake2s_mac16(
                    p.precomputed_hash_label_mac1@,
                    msg,
                ) != mac1 by {
                    let j = choose|j: int| 0 <= j < peers.len() && peers[j] == p;
                    if j > 0 {
                        assert(rest[j - 1] == p);
                        assert(rest.contains(p));
                    }
                }
            },
        }
    }
}

/// MAC1 identification is the sole selection oracle: a fresh initiation
/// whose MAC1 matches peer `a`'s precomputed key — and no peer at any
/// other address — is forwarded to `a`'s address and pinned there,
/// wherever `a` stands in the peer order.
pub proof fn lemma_mac1_selects_backend(
    sessions: Map<u32, (Endpoint, Endpoint)>,
    peers: Seq<Peer>,
    d: Seq<u8>,
    size: int,
    src: Endpoint,
    a: Peer,
)
    requires
        spec_is_wg(size, d),
        d[0] == 1,
        size == 148,
        !sessions.contains_key(id_at(d, 4)),
        peers.contains(a),
        blake2s_mac16(a.precomputed_hash_label_mac1@, d.subrange(0, 116)) == d.subrange(116, 132),
        forall|p: Peer|
            #[trigger] peers.contains(p) && blake2s_mac16(
                p.precomputed_hash_label_mac1@,
                d.subrange(0, 116),
            ) == d.subrange(116, 132) ==> p.address == a.address,
    ensures
        spec_route(sessions, peers, d, size, src) == (
            sessions.insert(id_at(d, 4), (src, a.address)),
            Some(a.address),
        ),
{
    lemma_find_match_props(peers, d.subrange(0, 116), d.subrange(116, 132));
}

/// Session pinning: once an entry `(c, b)` is recorded for an identity,
/// a datagram whose relevant identity field carries it routes by the
/// table alone — initiations and transport data to the backend `b`,
/// cookie replies to the client `c` — and the table is unchanged.
pub proof fn lemma_session_pinning(
    sessions: Map<u32, (Endpoint, Endpoint)>,
    peers: Seq<Peer>,
    d: Seq<u8>,
    size: int,
    src: Endpoint,
    c: Endpoint,
    b: Endpoint,
)
    requires
        spec_is_wg(size, d),
        sessions.contains_key(id_at(d, 4)),
        sessions[id_at(d, 4)] == (c, b),
    ensures
        d[0] == 1 && size == 148 ==> spec_route(sessions, peers, d, size, src) == (
            sessions,
            Some(b),
        ),
        d[0] == 4 && size >= 32 ==> spec_route(sessions, peers, d, size, src) == (
            sessions,
            Some(b),
        ),
        d[0] == 3 && size == 64 ==> spec_route(sessions, peers, d, size, src) == (
            sessions,
            Some(c),
        ),
{
}

/// No MAC1 re-verification for pinned traffic: the peer snapshot can
/// only matter to an initiation whose sender is not yet in the table.
/// Every other datagram routes the same under any two snapshots — which
/// is also why a reload never disturbs pinned sessions.
pub proof fn lemma_peers_only_select_fresh_initiations(
    sessions: Map<u32, (Endpoint, Endpoint)>,
    peers1: Seq<Peer>,
    peers2: Seq<Peer>,
    d: Seq<u8>,
    size: int,
    src: Endpoint,
)
    requires
        d[0] == 1 && size == 148 ==> sessions.contains_key(id_at(d, 4)),
    ensures
        spec_route(sessions, peers1, d, size, src) == spec_route(sessions, peers2, d, size, src),
{
}

/// Response installs the reverse route: after a handshake response whose
/// receiver id is pinned to client `c0`, transport data addressed to the
/// response's sender id reaches `c0`.
pub proof fn lemma_response_installs_reverse_route(
    sessions: Map<u32, (Endpoint, Endpoint)>,
    peers: Seq<Peer>,
    dr: Seq<u8>,
    dt: Seq<u8>,
    size_t: int,
    src_r: Endpoint,
    src_t: Endpoint,
)
    requires
        spec_is_wg(92, dr),
        dr[0] == 2,
        sessions.contains_key(id_at(dr, 8)),
        spec_is_wg(size_t, dt),
        dt[0] == 4,
        32 <= size_t,
        id_at(dt, 4) == id_at(dr, 4),
    ensures
        ({
            let c0 = sessions[id_at(dr, 8)].0;
            let step = spec_route(sessions, peers, dr, 92, src_r);
            &&& step.1 == Some(c0)
            &&& spec_route(step.0, peers, dt, size_t, src_t) == (step.0, Some(c0))
        }),
{
}

/// Pre-filter completeness: a datagram that is too short, carries an
/// opcode outside 1..=4, or has a nonzero reserved byte is dropped with
/// the session table untouched, before any classification.
pub proof fn lemma_prefilter_drops(
    sessions: Map<u32, (Endpoint, Endpoint)>,
    peers: Seq<Peer>,
    d: Seq<u8>,
    size: int,
    src: Endpoint,
)
    requires
        size <= 4 || !(1 <= d[0] <= 4) || d[1] != 0 || d[2] != 0 || d[3] != 0,
    ensures
        spec_route(sessions, peers, d, size, src) == (
            sessions,
            None::<Endpoint>,
        ),
{
}

/// What the router does with one datagram: forward `len` bytes of it,
/// unchanged, to `dest`, or drop it. The step never rewrites the payload,
/// so a forwarded datagram is byte-identical to the received one.
#[derive(Clone, Copy, Debug, PartialEq, Eq)]
pub enum Action {
    Forward { dest: Endpoint, len: usize },
    Discard,
}

/// The routing engine: the current peer snapshot and the session table.
/// The caller owns the socket; it feeds each received datagram through
/// `handle_packet` and performs the returned action.
pub struct Router {
    pub peers: Vec<Peer>,
    pub sessions: SessionTable,
}

impl Router {
    pub fn new(peers: Vec<Peer>) -> (r: Router)
        ensures
            r.peers == peers,
            r.sessions@ == Map::<u32, (Endpoint, Endpoint)>::empty(),
    {
        Router { peers, sessions: SessionTable::new() }
    }

    /// Replace the peer snapshot wholesale. Active sessions are left
    /// untouched, so a reload never disturbs pinned traffic.
    pub fn set_peers(&mut self, peers: Vec<Peer>)
        ensures
            final(self).peers == peers,
            final(self).sessions@ == old(self).sessions@,
    {
        self.peers = peers;
    }

    /// Route one datagram of `size` bytes received from `src`: drop
    /// anything the WireGuard heuristic or the classifier rejects, pin a
    /// fresh initiation to the backend its MAC1 identifies, serve pinned
    /// frames from the session table alone, and install the reverse route
    /// on a handshake response. The returned forward length always equals
    /// `size`: the payload is never rewritten.
    pub fn handle_packet(&mut self, size: usize, src: Endpoint, data: &[u8]) -> (r: Action)
        requires
            size <= data@.len(),
        ensures
            ({
                let step = spec_route(
                    old(self).sessions@,
                    old(self).peers@,
                    data@,
                    size as int,
                    src,
                );
                &&& final(self).sessions@ == step.0
                &&& final(self).peers == old(self).peers
                &&& r == (match step.1 {
                    Some(e) => Action::Forward { dest: e, len: size },
                    None => Action::Discard,
                })
            }),
    {
        if !crate::utils::is_wg_packet(size, data) {
            return Action::Discard;
        }
        match WireguardPacket::try_from(data, size) {
            Err(_) => Action::Discard,
            Ok(packet) => match packet {
                WireguardPacket::HandshakeInitiation(p) => {
                    match self.sessions.get(p.sender) {
                        Some(session) => Action::Forward { dest: session.1, len: size },
                        None => {
                            match find_backend(&self.peers, &data[0..116], &p.mac1) {
                                Some(backend) => {
                                    self.sessions.insert(p.sender, (src, backend.address));
                                    Action::Forward { dest: backend.address, len: size }
                                },
                                None => Action::Discard,
                            }
                        },
                    }
                },
                WireguardPacket::HandshakeResponse(p) => {
                    match self.sessions.get(p.receiver) {
                        Some(session) => {
                            self.sessions.insert(p.sender, (src, session.0));
                            Action::Forward { dest: session.0, len: size }
                        },
                        None => Action::Discard,
                    }
                },
                WireguardPacket::CookieReply(p) => {
                    match self.sessions.get(p.receiver) {
                        Some(session) => Action::Forward { dest: session.0, len: size },
                        None => Action::Discard,
                    }
                },
                WireguardPacket::TransportData(t) => {
                    match self.sessions.get(t.0.receiver) {
                        Some(session) => Action::Forward { dest: session.1, len: size },
                        None => Action::Discard,
                    }
                },
            },
        }
    }
}

} // verus!
