//! Typed client actions and their dialect-specific packet encoding.

use crate::game::chat::{encode_outbound_for, spec_encode_outbound, ChatError, OutboundChat};
use crate::game::GameDialect;
use vstd::prelude::*;

verus! {

/// An action requested by an application after zone admission.
///
/// Future movement, zoning, inventory, group, and character actions belong
/// here so application code never needs to carry raw opcodes or packet bytes.
#[derive(Clone, Debug, Eq, PartialEq)]
#[non_exhaustive]
pub enum GameCommand {
    /// Send one chat message.
    SendChat(OutboundChat),
}

/// A command encoded as one game application packet.
#[derive(Clone, Debug, Eq, PartialEq)]
#[non_exhaustive]
pub struct EncodedCommand {
    /// Little-endian application opcode understood by the selected dialect.
    pub opcode: u16,
    /// Application body without the opcode or reliable-UDP framing.
    pub body: Vec<u8>,
}

/// The channel-message opcode of a dialect.
pub open spec fn chat_opcode(dialect: GameDialect) -> u16 {
    match dialect {
        GameDialect::TitaniumP99 => 0x1004,
        GameDialect::EqMac => 0x0741,
    }
}

/// Encode a typed client action for one game dialect.
///
/// `character` supplies the active character name for packet layouts that
/// repeat the sender identity.
///
/// Returns an error when a command contains values that cannot be represented
/// by the selected dialect.
pub fn encode(dialect: GameDialect, command: &GameCommand, character: &str) -> (r: Result<
    EncodedCommand,
    ChatError,
>)
    ensures
        match *command {
            GameCommand::SendChat(message) => match spec_encode_outbound(
                dialect,
                message,
                character@,
            ) {
                Ok(body) => r matches Ok(ec) && ec.opcode == chat_opcode(dialect) && ec.body@
                    == body,
                Err(e) => r == Err::<EncodedCommand, ChatError>(e),
            },
        },
{
    match command {
        GameCommand::SendChat(message) => {
            let opcode: u16 = match dialect {
                GameDialect::TitaniumP99 => 0x1004,
                GameDialect::EqMac => 0x0741,
            };
            let body = encode_outbound_for(dialect, message, character)?;
            Ok(EncodedCommand { opcode, body })
        },
    }
}

} // verus!
