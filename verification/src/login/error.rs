//! Errors returned while rewriting or encoding login packets.

use crate::transport::error::ProtocolError;
use vstd::prelude::*;

verus! {

/// Errors returned while rewriting a login packet.
#[derive(Debug, Clone, Copy, PartialEq, Eq, Structural)]
pub enum LoginError {
    /// A rewritten credential block exceeds its one-byte length field.
    SubPacketLengthOverflow {
        /// Requested sub-packet length.
        len: usize,
    },
    /// A nested transport packet could not be encoded.
    Transport(ProtocolError),
}

impl From<ProtocolError> for LoginError {
    fn from(e: ProtocolError) -> (r: Self) {
        LoginError::Transport(e)
    }
}

impl vstd::std_specs::convert::FromSpecImpl<ProtocolError> for LoginError {
    open spec fn obeys_from_spec() -> bool {
        true
    }

    open spec fn from_spec(e: ProtocolError) -> Self {
        LoginError::Transport(e)
    }
}

} // verus!
