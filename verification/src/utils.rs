use vstd::prelude::*;

verus! {

/// The 32-byte output of unkeyed BLAKE2s on `input`; a function of the
/// input bytes alone.
pub uninterp spec fn blake2s_hash32(input: Seq<u8>) -> Seq<u8>;

/// The 16-byte output of keyed BLAKE2s (key `key`, 16-byte hash length) on
/// `input`; a function of the key and input bytes alone.
pub uninterp spec fn blake2s_mac16(key: Seq<u8>, input: Seq<u8>) -> Seq<u8>;

/// Blake2s(input, 32), returning 32 bytes of output.
///
/// Relies on `blake2s_simd::blake2s`: unkeyed BLAKE2s with the default
/// 32-byte output, a pure function of `input`; `as_array` returns its 32
/// bytes.
#[verifier::external_body]
pub fn hash(input: &[u8]) -> (r: [u8; 32])
    ensures
        r@ == blake2s_hash32(input@),
{
    *blake2s_simd::blake2s(input).as_array()
}

/// Keyed-Blake2s(key, input, 16), the keyed MAC variant of the BLAKE2s hash
/// function, returning 16 bytes of output.
///
/// Relies on `blake2s_simd::Params`: `hash_length(16)` sets a 16-byte
/// output, `key` installs a MAC key of at most 32 bytes (it panics on a
/// longer one, hence the precondition), and `hash` is then a pure function
/// of the key and the input.
#[verifier::external_body]
pub fn mac(key: &[u8], input: &[u8]) -> (r: [u8; 16])
    requires
        key@.len() <= 32,
    ensures
        r@ == blake2s_mac16(key@, input@),
{
    blake2s_simd::Params::new().hash_length(16).key(key).hash(input).as_bytes().try_into().unwrap()
}

/// A datagram of `size` bytes looks like a WireGuard frame: a plausible
/// opcode in its first byte and the three reserved bytes zero.
pub open spec fn spec_is_wg(size: int, packet: Seq<u8>) -> bool {
    &&& size > 4
    &&& 0x01 <= packet[0] <= 0x04
    &&& packet[1] == 0
    &&& packet[2] == 0
    &&& packet[3] == 0
}

/// Heuristic pre-filter: tests the first byte for a valid message type
/// (1, 2, 3, or 4) and checks that the next three reserved bytes are zero.
pub fn is_wg_packet(size: usize, packet: &[u8]) -> (r: bool)
    requires
        size > 4 ==> packet@.len() >= 4,
    ensures
        r == spec_is_wg(size as int, packet@),
{
    size > 4 && 0x01 <= packet[0] && packet[0] <= 0x04 && packet[1] == 0 && packet[2] == 0
        && packet[3] == 0
}

} // verus!
