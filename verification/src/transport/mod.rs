//! SOE reliable-UDP framing shared by the login, world, and zone protocols.

pub mod error;
pub mod soe;
pub mod combined;

pub use combined::{build_combined, split_combined, CombinedPacket, SubPacket};
pub use soe::{
    build_ack, build_disconnect, build_keepalive, build_session_request, build_session_response,
    get_sequence, parse_session_response, set_sequence, transport_opcode, wrap_app_packet,
    SessionResponse, TransportOp,
};
