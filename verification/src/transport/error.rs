//! Errors reported by the transport codecs.

use vstd::prelude::*;

verus! {

/// Validation failures reported by pure transport codecs.
#[derive(Debug, Clone, Copy, PartialEq, Eq, Structural)]
pub enum ProtocolError {
    /// The selected input range cannot contain the required packet header.
    TooShort {
        /// Minimum required byte count.
        need: usize,
        /// Available byte count.
        got: usize,
    },
    /// A combined sub-packet exceeds its extended length field.
    CombinedSubPacketTooLong {
        /// Requested sub-packet length.
        len: usize,
    },
    /// An application payload exceeds the fragment length field.
    ApplicationTooLong {
        /// Requested application length.
        len: usize,
    },
    /// A negotiated packet size cannot hold a fragment header and payload byte.
    PacketSizeTooSmall {
        /// Negotiated maximum packet size.
        size: usize,
    },
}

} // verus!
