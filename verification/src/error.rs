use vstd::prelude::*;

verus! {

/// Error kinds surfaced by the routing core.
///
/// Data-plane errors (`PacketTooShort`, `InvalidPacket`) drop the offending
/// datagram; `ConfigInvalid` rejects a malformed peer descriptor at load
/// time; `IoFatal` is reserved for the caller to report a fatal receive
/// error on the socket.
#[derive(Clone, Copy, Debug, PartialEq, Eq, Structural)]
pub enum Error {
    /// The datagram is shorter than the minimum needed to read its opcode.
    PacketTooShort,
    /// Unknown opcode, or an opcode/length mismatch.
    InvalidPacket,
    /// A peer descriptor could not be parsed into a peer.
    ConfigInvalid,
    /// A fatal socket error at receive time.
    IoFatal,
}

} // verus!
