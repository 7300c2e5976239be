use eq_network::game::chat::{encode_outbound_for, ChatError, OutboundChat};
use eq_network::game::command::{encode, GameCommand};
use eq_network::game::GameDialect;

#[test]
fn chat_command_selects_each_dialects_opcode_and_layout() {
    let command = GameCommand::SendChat(OutboundChat::Say("ok".into()));
    let titanium = encode(GameDialect::TitaniumP99, &command, "Example").unwrap();
    let eqmac = encode(GameDialect::EqMac, &command, "Example").unwrap();

    assert_eq!(titanium.opcode, 0x1004);
    assert_eq!(eqmac.opcode, 0x0741);
    assert_ne!(titanium.body, eqmac.body);
}

#[test]
fn default_dialect_is_titanium() {
    assert_eq!(GameDialect::default(), GameDialect::TitaniumP99);
}

#[test]
fn titanium_say_layout() {
    let body = encode_outbound_for(GameDialect::TitaniumP99, &OutboundChat::Say("hi".into()), "Me").unwrap();
    assert_eq!(body.len(), 64 + 64 + 20 + 3);
    assert!(body[0..64].iter().all(|&b| b == 0));
    assert_eq!(&body[64..66], b"Me");
    assert!(body[66..128].iter().all(|&b| b == 0));
    assert_eq!(&body[128..148], &[0, 0, 0, 0, 8, 0, 0, 0, 0, 0, 0, 0, 0, 0, 0, 0, 100, 0, 0, 0]);
    assert_eq!(&body[148..], b"hi\0");
}

#[test]
fn eqmac_tell_layout() {
    let message = OutboundChat::Tell { to: "Friend".into(), message: "yo".into() };
    let body = encode_outbound_for(GameDialect::EqMac, &message, "Me").unwrap();
    assert_eq!(body.len(), 64 + 64 + 8 + 3);
    assert_eq!(&body[0..6], b"Friend");
    assert_eq!(&body[64..66], b"Me");
    assert_eq!(&body[128..136], &[0, 0, 7, 0, 0, 0, 100, 0]);
    assert_eq!(&body[136..], b"yo\0");
}

#[test]
fn chat_channels() {
    let chan = |m: OutboundChat| encode_outbound_for(GameDialect::EqMac, &m, "Me").unwrap()[130];
    assert_eq!(chan(OutboundChat::Shout("x".into())), 3);
    assert_eq!(chan(OutboundChat::Ooc("x".into())), 5);
    assert_eq!(chan(OutboundChat::Auction("x".into())), 4);
    assert_eq!(chan(OutboundChat::Group("x".into())), 2);
    assert_eq!(chan(OutboundChat::Guild("x".into())), 0);
}

#[test]
fn chat_rejects_unrepresentable_values() {
    let long = "x".repeat(64);
    let command = GameCommand::SendChat(OutboundChat::Say("hi".into()));
    assert_eq!(encode(GameDialect::EqMac, &command, &long), Err(ChatError::NameTooLong { len: 64 }));
    let tell = OutboundChat::Tell { to: long.clone(), message: "hi".into() };
    assert_eq!(
        encode_outbound_for(GameDialect::TitaniumP99, &tell, "Me"),
        Err(ChatError::NameTooLong { len: 64 })
    );
    assert_eq!(
        encode_outbound_for(GameDialect::TitaniumP99, &OutboundChat::Say("a\0b".into()), "Me"),
        Err(ChatError::MessageContainsNul)
    );
    assert!(encode_outbound_for(GameDialect::TitaniumP99, &OutboundChat::Say("a".into()), &"y".repeat(63)).is_ok());
}
