//! Outbound chat messages and their dialect-specific packet bodies.

use crate::game::GameDialect;
use crate::wire::{le16_bytes, le32_bytes, le_u16, le_u32, push_all, push_le16, push_le32};
use vstd::prelude::*;
use vstd::utf8::encode_utf8;

verus! {

/// Byte size of a fixed, NUL-padded name field.
pub const NAME_FIELD_SIZE: usize = 64;

/// Channel number of a guild message.
pub const CHANNEL_GUILD: u32 = 0;

/// Channel number of a group message.
pub const CHANNEL_GROUP: u32 = 2;

/// Channel number of a zone-wide shout.
pub const CHANNEL_SHOUT: u32 = 3;

/// Channel number of an auction message.
pub const CHANNEL_AUCTION: u32 = 4;

/// Channel number of an out-of-character message.
pub const CHANNEL_OOC: u32 = 5;

/// Channel number of a private tell.
pub const CHANNEL_TELL: u32 = 7;

/// Channel number of a local say.
pub const CHANNEL_SAY: u32 = 8;

/// Language skill sent with outbound messages (fully fluent).
pub const LANGUAGE_SKILL: u32 = 100;

/// One chat message that the active character sends.
#[derive(Clone, Debug, Eq, PartialEq)]
#[non_exhaustive]
pub enum OutboundChat {
    /// Speak to nearby characters.
    Say(String),
    /// Shout to the zone.
    Shout(String),
    /// Out-of-character zone message.
    Ooc(String),
    /// Auction to the zone.
    Auction(String),
    /// Message to the character's group.
    Group(String),
    /// Message to the character's guild.
    Guild(String),
    /// Private message to one named character.
    Tell {
        /// Recipient character name.
        to: String,
        /// Message text.
        message: String,
    },
}

/// Errors for chat values that a dialect's packet layout cannot represent.
#[derive(Clone, Copy, Debug, Eq, PartialEq, Structural)]
#[non_exhaustive]
pub enum ChatError {
    /// A character name does not fit its NUL-terminated 64-byte field.
    NameTooLong {
        /// Encoded name length in bytes.
        len: usize,
    },
    /// The message text contains a NUL byte, which would end it early.
    MessageContainsNul,
}

/// The channel number that carries a message.
pub open spec fn chat_channel(message: OutboundChat) -> u32 {
    match message {
        OutboundChat::Say(_) => CHANNEL_SAY,
        OutboundChat::Shout(_) => CHANNEL_SHOUT,
        OutboundChat::Ooc(_) => CHANNEL_OOC,
        OutboundChat::Auction(_) => CHANNEL_AUCTION,
        OutboundChat::Group(_) => CHANNEL_GROUP,
        OutboundChat::Guild(_) => CHANNEL_GUILD,
        OutboundChat::Tell { .. } => CHANNEL_TELL,
    }
}

/// The recipient of a message: the named character of a tell, nobody otherwise.
pub open spec fn chat_target(message: OutboundChat) -> Seq<char> {
    match message {
        OutboundChat::Tell { to, .. } => to@,
        _ => Seq::empty(),
    }
}

/// The text of a message.
pub open spec fn chat_text(message: OutboundChat) -> Seq<char> {
    match message {
        OutboundChat::Say(text) => text@,
        OutboundChat::Shout(text) => text@,
        OutboundChat::Ooc(text) => text@,
        OutboundChat::Auction(text) => text@,
        OutboundChat::Group(text) => text@,
        OutboundChat::Guild(text) => text@,
        OutboundChat::Tell { message, .. } => message@,
    }
}

/// A name in its fixed 64-byte field, padded with NUL bytes.
pub open spec fn name_field(name: Seq<u8>) -> Seq<u8> {
    name + Seq::new((NAME_FIELD_SIZE - name.len()) as nat, |i: int| 0u8)
}

/// The channel-message body of a dialect: target and sender name fields, the
/// language, channel, and skill fields in the dialect's widths, then the
/// NUL-terminated message.
pub open spec fn channel_message_body(
    dialect: GameDialect,
    target: Seq<u8>,
    sender: Seq<u8>,
    channel: u32,
    text: Seq<u8>,
) -> Seq<u8> {
    let names = name_field(target) + name_field(sender);
    match dialect {
        GameDialect::TitaniumP99 => names + le32_bytes(0) + le32_bytes(channel) + le32_bytes(0)
            + le32_bytes(0) + le32_bytes(LANGUAGE_SKILL) + text + seq![0u8],
        GameDialect::EqMac => names + le16_bytes(0) + le16_bytes(channel as u16) + le16_bytes(0)
            + le16_bytes(LANGUAGE_SKILL as u16) + text + seq![0u8],
    }
}

/// The body that encodes `message` from `character` for `dialect`, or the
/// first value that its layout cannot represent: the recipient name, then the
/// sender name, then the text.
pub open spec fn spec_encode_outbound(
    dialect: GameDialect,
    message: OutboundChat,
    character: Seq<char>,
) -> Result<Seq<u8>, ChatError> {
    let target = encode_utf8(chat_target(message));
    let sender = encode_utf8(character);
    let text = encode_utf8(chat_text(message));
    if target.len() >= NAME_FIELD_SIZE {
        Err(ChatError::NameTooLong { len: target.len() as usize })
    } else if sender.len() >= NAME_FIELD_SIZE {
        Err(ChatError::NameTooLong { len: sender.len() as usize })
    } else if text.contains(0u8) {
        Err(ChatError::MessageContainsNul)
    } else {
        Ok(channel_message_body(dialect, target, sender, chat_channel(message), text))
    }
}

/// Append a name in its fixed NUL-padded field.
fn push_name_field(out: &mut Vec<u8>, name: &[u8])
    requires
        name@.len() < NAME_FIELD_SIZE,
    ensures
        final(out)@ == old(out)@ + name_field(name@),
{
    let ghost start = old(out)@;
    push_all(out, name);
    let mut i: usize = name.len();
    while i < NAME_FIELD_SIZE
        invariant
            name@.len() <= i <= NAME_FIELD_SIZE,
            out@ == start + name@ + Seq::new((i - name@.len()) as nat, |j: int| 0u8),
        decreases NAME_FIELD_SIZE - i,
    {
        out.push(0);
        i += 1;
        assert(out@ =~= start + name@ + Seq::new((i - name@.len()) as nat, |j: int| 0u8));
    }
    assert(out@ =~= start + name_field(name@));
}

/// Whether `bytes` holds a zero byte.
fn has_nul(bytes: &[u8]) -> (r: bool)
    ensures
        r == bytes@.contains(0u8),
{
    let mut i: usize = 0;
    while i < bytes.len()
        invariant
            i <= bytes@.len(),
            forall|j: int| 0 <= j < i ==> bytes@[j] != 0,
        decreases bytes@.len() - i,
    {
        if bytes[i] == 0 {
            assert(bytes@[i as int] == 0u8);
            return true;
        }
        i += 1;
    }
    false
}

/// Encode an outbound chat message as a channel-message body for `dialect`,
/// with `character` as the sender.
///
/// Returns [`ChatError::NameTooLong`] when the recipient or sender name does
/// not fit its field, and [`ChatError::MessageContainsNul`] when the text
/// holds a NUL byte.
pub fn encode_outbound_for(dialect: GameDialect, message: &OutboundChat, character: &str) -> (r:
    Result<Vec<u8>, ChatError>)
    ensures
        match spec_encode_outbound(dialect, *message, character@) {
            Ok(body) => r matches Ok(v) && v@ == body,
            Err(e) => r == Err::<Vec<u8>, ChatError>(e),
        },
{
    let (target, channel, text): (&str, u32, &str) = match message {
        OutboundChat::Say(t) => ("", CHANNEL_SAY, t.as_str()),
        OutboundChat::Shout(t) => ("", CHANNEL_SHOUT, t.as_str()),
        OutboundChat::Ooc(t) => ("", CHANNEL_OOC, t.as_str()),
        OutboundChat::Auction(t) => ("", CHANNEL_AUCTION, t.as_str()),
        OutboundChat::Group(t) => ("", CHANNEL_GROUP, t.as_str()),
        OutboundChat::Guild(t) => ("", CHANNEL_GUILD, t.as_str()),
        OutboundChat::Tell { to, message } => (to.as_str(), CHANNEL_TELL, message.as_str()),
    };
    proof {
        reveal_strlit("");
    }
    assert(target@ == chat_target(*message));
    let target_bytes = target.as_bytes();
    let sender_bytes = character.as_bytes();
    let text_bytes = text.as_bytes();
    if target_bytes.len() >= NAME_FIELD_SIZE {
        return Err(ChatError::NameTooLong { len: target_bytes.len() });
    }
    if sender_bytes.len() >= NAME_FIELD_SIZE {
        return Err(ChatError::NameTooLong { len: sender_bytes.len() });
    }
    if has_nul(text_bytes) {
        return Err(ChatError::MessageContainsNul);
    }
    let mut out: Vec<u8> = Vec::new();
    push_name_field(&mut out, target_bytes);
    push_name_field(&mut out, sender_bytes);
    match dialect {
        GameDialect::TitaniumP99 => {
            push_le32(&mut out, 0);
            push_le32(&mut out, channel);
            push_le32(&mut out, 0);
            push_le32(&mut out, 0);
            push_le32(&mut out, LANGUAGE_SKILL);
        },
        GameDialect::EqMac => {
            push_le16(&mut out, 0);
            push_le16(&mut out, channel as u16);
            push_le16(&mut out, 0);
            push_le16(&mut out, LANGUAGE_SKILL as u16);
        },
    }
    push_all(&mut out, text_bytes);
    out.push(0);
    assert(out@ =~= channel_message_body(
        dialect,
        target_bytes@,
        sender_bytes@,
        channel,
        text_bytes@,
    ));
    Ok(out)
}

/// A chat message encodes exactly when both names fit their fields and the
/// text holds no NUL. Its body then holds the recipient of a tell (nobody for
/// other messages) NUL-padded in the first 64 bytes and the sender NUL-padded
/// in the next 64, the message's channel in the dialect's channel field, and
/// ends with the text and one NUL.
pub proof fn law_chat_body_fields(dialect: GameDialect, message: OutboundChat, character: Seq<char>)
    ensures
        ({
            let to = match message {
                OutboundChat::Tell { to, .. } => encode_utf8(to@),
                _ => Seq::<u8>::empty(),
            };
            let me = encode_utf8(character);
            let text = encode_utf8(chat_text(message));
            &&& spec_encode_outbound(dialect, message, character) is Ok <==> (to.len() < 64
                && me.len() < 64 && !text.contains(0u8))
            &&& spec_encode_outbound(dialect, message, character) matches Ok(body) ==> {
                &&& body.subrange(0, to.len() as int) == to
                &&& forall|i: int| to.len() <= i < 64 ==> body[i] == 0
                &&& body.subrange(64, 64 + me.len() as int) == me
                &&& forall|i: int| 64 + me.len() <= i < 128 ==> body[i] == 0
                &&& body.subrange(body.len() - 1 - text.len(), body.len() - 1) == text
                &&& body[body.len() - 1] == 0
                &&& match dialect {
                    GameDialect::TitaniumP99 => body.len() == 149 + text.len() && le_u32(
                        body[132],
                        body[133],
                        body[134],
                        body[135],
                    ) == chat_channel(message),
                    GameDialect::EqMac => body.len() == 137 + text.len() && le_u16(
                        body[130],
                        body[131],
                    ) == chat_channel(message),
                }
            }
        }),
{
    let to = encode_utf8(chat_target(message));
    let me = encode_utf8(character);
    let text = encode_utf8(chat_text(message));
    if let Ok(body) = spec_encode_outbound(dialect, message, character) {
        let names = name_field(to) + name_field(me);
        assert(names.len() == 128);
        assert forall|i: int| 0 <= i < 128 implies body[i] == names[i] by {
            match dialect {
                GameDialect::TitaniumP99 => {},
                GameDialect::EqMac => {},
            }
        }
        assert(body.subrange(0, to.len() as int) =~= to) by {
            assert forall|k: int| 0 <= k < to.len() implies body.subrange(0, to.len() as int)[k]
                == to[k] by {
                assert(names[k] == name_field(to)[k]);
            }
        }
        assert forall|i: int| to.len() <= i < 64 implies body[i] == 0 by {
            assert(names[i] == name_field(to)[i]);
        }
        assert(body.subrange(64, 64 + me.len() as int) =~= me) by {
            assert forall|k: int| 0 <= k < me.len() implies body.subrange(64, 64 + me.len() as int)[k]
                == me[k] by {
                assert(names[64 + k] == name_field(me)[k]);
            }
        }
        assert forall|i: int| 64 + me.len() <= i < 128 implies body[i] == 0 by {
            assert(names[i] == name_field(me)[i - 64]);
        }
        let c = chat_channel(message);
        crate::wire::lemma_32_roundtrip(c);
        crate::wire::lemma_be16_roundtrip(c as u16);
        match dialect {
            GameDialect::TitaniumP99 => {
                let fields = le32_bytes(0) + le32_bytes(c) + le32_bytes(0) + le32_bytes(0)
                    + le32_bytes(LANGUAGE_SKILL);
                assert(body =~= names + fields + text + seq![0u8]);
                assert(body[132] == le32_bytes(c)[0] && body[133] == le32_bytes(c)[1] && body[134]
                    == le32_bytes(c)[2] && body[135] == le32_bytes(c)[3]);
                assert(body.subrange(body.len() - 1 - text.len(), body.len() - 1) =~= text);
            },
            GameDialect::EqMac => {
                let fields = le16_bytes(0) + le16_bytes(c as u16) + le16_bytes(0) + le16_bytes(
                    LANGUAGE_SKILL as u16,
                );
                assert(body =~= names + fields + text + seq![0u8]);
                assert(body[130] == le16_bytes(c as u16)[0] && body[131] == le16_bytes(
                    c as u16,
                )[1]);
                assert(body.subrange(body.len() - 1 - text.len(), body.len() - 1) =~= text);
            },
        }
    }
}

} // verus!
