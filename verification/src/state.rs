use crate::addr::Endpoint;
use std::collections::HashMap;
use vstd::prelude::*;

verus! {

broadcast use vstd::std_specs::hash::group_hash_axioms;

/// The opaque 4-byte tag carried in every WireGuard frame: chosen by the
/// originator of a handshake initiation as its own sender id, and echoed
/// by the responder as the receiver id.
#[derive(Clone, Copy, Debug, PartialEq, Eq, Hash)]
pub struct Identity(pub [u8; 4]);

impl View for Identity {
    type V = Seq<u8>;

    open spec fn view(&self) -> Seq<u8> {
        self.0@
    }
}

/// Four tag bytes read as one 32-bit value (little-endian).
pub open spec fn id_key(b: Seq<u8>) -> u32 {
    (b[0] + b[1] * 0x100 + b[2] * 0x10000 + b[3] * 0x1000000) as u32
}

impl Identity {
    /// The tag bytes read as one 32-bit value; the session table is keyed
    /// by it.
    pub open spec fn spec_key(self) -> u32 {
        id_key(self@)
    }

    pub fn key(&self) -> (k: u32)
        ensures
            k == self.spec_key(),
    {
        (self.0[0] as u32) + (self.0[1] as u32) * 0x100 + (self.0[2] as u32) * 0x10000 + (
        self.0[3] as u32) * 0x1000000
    }
}

impl core::convert::From<[u8; 4]> for Identity {
    fn from(value: [u8; 4]) -> (r: Self) {
        Identity(value)
    }
}

impl vstd::std_specs::convert::FromSpecImpl<[u8; 4]> for Identity {
    open spec fn obeys_from_spec() -> bool {
        true
    }

    open spec fn from_spec(value: [u8; 4]) -> Self {
        Identity(value)
    }
}

/// Keying the table by the 32-bit value loses nothing: identities with
/// the same key have the same tag bytes.
pub proof fn lemma_id_key_injective(a: Identity, b: Identity)
    requires
        a.spec_key() == b.spec_key(),
    ensures
        a@ =~= b@,
{
    assert(a@[0] + a@[1] * 0x100 + a@[2] * 0x10000 + a@[3] * 0x1000000 == b@[0] + b@[1] * 0x100
        + b@[2] * 0x10000 + b@[3] * 0x1000000);
}

/// The session table: a mapping from the 32-bit value of an identity to
/// the pair (client endpoint, backend endpoint) recorded for it. The
/// first member is the party that initiated the recorded half-handshake,
/// the second the other party. Entries are never evicted; a sweep keyed
/// by last-seen time would hang off this type.
pub struct SessionTable {
    m: HashMap<u32, (Endpoint, Endpoint)>,
}

impl View for SessionTable {
    type V = Map<u32, (Endpoint, Endpoint)>;

    closed spec fn view(&self) -> Map<u32, (Endpoint, Endpoint)> {
        self.m@
    }
}

impl SessionTable {
    pub fn new() -> (r: Self)
        ensures
            r@ == Map::<u32, (Endpoint, Endpoint)>::empty(),
    {
        SessionTable { m: HashMap::new() }
    }

    /// The entry recorded for `id`, if any.
    pub fn get(&self, id: Identity) -> (r: Option<(Endpoint, Endpoint)>)
        ensures
            r == if self@.contains_key(id.spec_key()) {
                Some(self@[id.spec_key()])
            } else {
                None::<(Endpoint, Endpoint)>
            },
    {
        let k = id.key();
        match self.m.get(&k) {
            Some(v) => Some(*v),
            None => None,
        }
    }

    /// Record `entry` for `id`, overwriting any prior entry.
    pub fn insert(&mut self, id: Identity, entry: (Endpoint, Endpoint))
        ensures
            final(self)@ == old(self)@.insert(id.spec_key(), entry),
    {
        let k = id.key();
        self.m.insert(k, entry);
    }
}

} // verus!
