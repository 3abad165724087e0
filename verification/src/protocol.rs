//! Checking that a client speaks the server's protocol.

use vstd::prelude::*;

verus! {

/// What the server does with the protocol hash a client sent.
#[derive(Clone, Copy, Debug, PartialEq, Eq, Structural)]
pub enum ProtocolCheck {
    /// The hashes match: the client is authorized.
    Authorized,
    /// The hashes differ: the client is told of the mismatch and disconnected.
    Mismatch,
}

/// Compares the protocol hash a client sent with the server's own.
pub fn check_protocol(client_hash: u64, server_hash: u64) -> (check: ProtocolCheck)
    ensures
        check == (if client_hash == server_hash {
            ProtocolCheck::Authorized
        } else {
            ProtocolCheck::Mismatch
        }),
{
    if client_hash == server_hash {
        ProtocolCheck::Authorized
    } else {
        ProtocolCheck::Mismatch
    }
}

} // verus!
