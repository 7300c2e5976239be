use eq_network::login::crypto::{des_decrypt, des_encrypt, CryptoError, DesKeyIv, DEFAULT_DES_IV, DEFAULT_DES_KEY};
use eq_network::login::error::LoginError;
use eq_network::login::login::{
    app_opcode, build_combined_ack_then_packet, build_login_accepted_combined,
    build_login_combined, decrypt_credentials, encrypt_login_credentials,
    is_bad_password_login_result, login_result_is_failure, parse_login_base,
    split_credential_fields, AppOp, LoginBase, LoginPacket, LOGIN_RESULT_FAILURE_STATUS,
};
use eq_network::transport::combined::split_combined;
use eq_network::transport::error::ProtocolError;

#[test]
fn decrypt_round_trips_username_and_password() {
    let key_iv = DesKeyIv::default();
    let encrypted = encrypt_login_credentials("example-user", "example-password", key_iv);
    let (username, password) = decrypt_credentials(&encrypted, key_iv).unwrap();
    assert_eq!(username, "example-user");
    assert_eq!(password, "example-password");
}

#[test]
fn decrypt_preserves_empty_username() {
    let key_iv = DesKeyIv::default();
    let encrypted = encrypt_login_credentials("", "example-password", key_iv);
    let (username, password) = decrypt_credentials(&encrypted, key_iv).unwrap();
    assert_eq!(username, "");
    assert_eq!(password, "example-password");
}

#[test]
fn decrypt_handles_missing_password_terminator() {
    let key_iv = DesKeyIv::default();
    // `username\0password` with no trailing NUL still yields both fields.
    let encrypted = des_encrypt(b"example-user\0example-password", key_iv);
    let (username, password) = decrypt_credentials(&encrypted, key_iv).unwrap();
    assert_eq!(username, "example-user");
    assert_eq!(password, "example-password");
}

#[test]
fn des_known_answer_for_zero_key_and_block() {
    let key_iv = DesKeyIv::default();
    assert_eq!(key_iv.key, DEFAULT_DES_KEY);
    assert_eq!(key_iv.iv, DEFAULT_DES_IV);
    let ct = des_encrypt(&[0u8; 8], key_iv);
    assert_eq!(ct, vec![0x8C, 0xA6, 0x4D, 0xE9, 0xC1, 0xB1, 0x23, 0xA7]);
    assert_eq!(des_decrypt(&ct, key_iv).unwrap(), vec![0u8; 8]);
}

#[test]
fn des_encrypt_pads_with_zeros() {
    let key_iv = DesKeyIv { key: [1, 2, 3, 4, 5, 6, 7, 8], iv: [8, 7, 6, 5, 4, 3, 2, 1] };
    let ct = des_encrypt(b"abc", key_iv);
    assert_eq!(ct.len(), 8);
    assert_ne!(&ct[..3], b"abc");
    assert_eq!(des_decrypt(&ct, key_iv).unwrap(), b"abc\0\0\0\0\0".to_vec());
    assert_eq!(des_encrypt(&[], key_iv), Vec::<u8>::new());
    assert_eq!(des_encrypt(&[7u8; 16], key_iv).len(), 16);
}

#[test]
fn des_decrypt_rejects_bad_lengths() {
    let key_iv = DesKeyIv::default();
    assert!(matches!(des_decrypt(&[], key_iv), Err(CryptoError::InvalidLength(0))));
    assert!(matches!(des_decrypt(&[1u8; 9], key_iv), Err(CryptoError::InvalidLength(9))));
    assert!(decrypt_credentials(&[1u8; 7], key_iv).is_none());
}

#[test]
fn credential_fields_split_on_nuls() {
    assert_eq!(split_credential_fields(b"ab\0cd\0ef"), (b"ab".to_vec(), b"cd".to_vec()));
    assert_eq!(split_credential_fields(b"abc"), (b"abc".to_vec(), Vec::new()));
    assert_eq!(split_credential_fields(b"\0\0"), (Vec::new(), Vec::new()));
    assert_eq!(split_credential_fields(b"a\0bc"), (b"a".to_vec(), b"bc".to_vec()));
}

#[test]
fn invalid_utf8_credentials_are_replaced() {
    let key_iv = DesKeyIv::default();
    let encrypted = des_encrypt(b"us\xFFer\0pw\0", key_iv);
    let (username, password) = decrypt_credentials(&encrypted, key_iv).unwrap();
    assert_eq!(username, "us\u{FFFD}er");
    assert_eq!(password, "pw");
}

#[test]
fn app_opcode_and_login_base() {
    assert_eq!(app_opcode(&[0x17, 0x00, 0x99]), AppOp::LoginAccepted.code());
    assert_eq!(app_opcode(&[0x17]), 0);
    assert_eq!(AppOp::Poll.code(), 0x0029);
    assert_eq!(parse_login_base(&[0; 9]), None);
    assert_eq!(
        parse_login_base(&[0xFF, 0xFF, 0xFF, 0xFF, 1, 0xFE, 0x78, 0x56, 0x34, 0x12]),
        Some(LoginBase { sequence: -1, compressed: 1, encrypt_type: -2, unk3: 0x1234_5678 })
    );
}

#[test]
fn login_request_parses_back_to_its_credentials() {
    let key_iv = DesKeyIv::default();
    let request = build_login_combined("example-user", "example-password", key_iv).unwrap();
    let packet = LoginPacket::parse(&request, key_iv).unwrap();
    assert_eq!(packet.username(), "example-user");
    assert_eq!(packet.password(), "example-password");
}

#[test]
fn login_request_layout() {
    let key_iv = DesKeyIv::default();
    let request = build_login_combined("u", "p", key_iv).unwrap();
    let encrypted = encrypt_login_credentials("u", "p", key_iv);
    let mut expected = vec![0x00, 0x03, 0x04, 0x00, 0x15, 0x00, 0x00];
    expected.push((16 + encrypted.len()) as u8);
    expected.extend_from_slice(&[0x00, 0x09, 0x00, 0x01, 0x02, 0x00]);
    expected.extend_from_slice(&[3, 0, 0, 0, 0, 2, 0, 0, 0, 0]);
    expected.extend_from_slice(&encrypted);
    assert_eq!(request, expected);
}

#[test]
fn rewritten_login_request_parses_to_new_credentials() {
    let key_iv = DesKeyIv::default();
    let request = build_login_combined("example-user", "example-password", key_iv).unwrap();
    let packet = LoginPacket::parse(&request, key_iv).unwrap();
    let rewritten = packet.rewrite_credentials("other", "secret-longer-password", key_iv).unwrap();
    let again = LoginPacket::parse(&rewritten, key_iv).unwrap();
    assert_eq!(again.username(), "other");
    assert_eq!(again.password(), "secret-longer-password");
    assert_eq!(&rewritten[..7], &request[..7]);
}

#[test]
fn splice_rejects_oversized_block() {
    let key_iv = DesKeyIv::default();
    let request = build_login_combined("a", "b", key_iv).unwrap();
    let packet = LoginPacket::parse(&request, key_iv).unwrap();
    assert_eq!(
        packet.splice_encrypted_credentials(&[0u8; 240]),
        Err(LoginError::SubPacketLengthOverflow { len: 256 })
    );
    let spliced = packet.splice_encrypted_credentials(&[0u8; 8]).unwrap();
    assert_eq!(spliced[7], 24);
    assert_eq!(spliced.len(), 32);
}

#[test]
fn login_parse_rejects_malformed_requests() {
    let key_iv = DesKeyIv::default();
    let request = build_login_combined("example-user", "example-password", key_iv).unwrap();
    assert!(LoginPacket::parse(&request[..29], key_iv).is_none());
    let mut wrong_header = request.clone();
    wrong_header[2] = 0x05;
    assert!(LoginPacket::parse(&wrong_header, key_iv).is_none());
    let mut wrong_app = request.clone();
    wrong_app[12] = 0x03;
    assert!(LoginPacket::parse(&wrong_app, key_iv).is_none());
    let mut misaligned = request.clone();
    misaligned[7] -= 1;
    assert!(LoginPacket::parse(&misaligned, key_iv).is_none());
}

#[test]
fn login_accepted_failure_status_is_bad_password() {
    let key_iv = DesKeyIv::default();
    let packet = build_login_accepted_combined(42, LOGIN_RESULT_FAILURE_STATUS, 5, key_iv).unwrap();
    let subs = split_combined(&packet);
    assert_eq!(subs.len(), 2);
    let app_payload = &subs[1][4..];
    assert!(is_bad_password_login_result(app_payload, key_iv));
    let mut with_trailer = app_payload.to_vec();
    with_trailer.push(0);
    assert!(is_bad_password_login_result(&with_trailer, key_iv));
}

#[test]
fn login_accepted_success_status_is_not_bad_password() {
    let key_iv = DesKeyIv::default();
    let packet = build_login_accepted_combined(42, 1, 5, key_iv).unwrap();
    let subs = split_combined(&packet);
    assert!(!is_bad_password_login_result(&subs[1][4..], key_iv));
    assert!(!is_bad_password_login_result(&[0x17, 0x00], key_iv));
    assert!(!is_bad_password_login_result(&subs[1][4..16], key_iv));
}

#[test]
fn login_result_failure_check() {
    let mut plain = vec![0u8; 12];
    plain[8..12].copy_from_slice(&[0xFF; 4]);
    assert!(login_result_is_failure(&plain));
    plain.push(0);
    assert!(login_result_is_failure(&plain));
    plain.push(1);
    assert!(!login_result_is_failure(&plain));
    assert!(!login_result_is_failure(&[0xFF; 11]));
}

#[test]
fn ack_then_packet_layout_and_overflow() {
    let combined = build_combined_ack_then_packet(2, 3, &[0xAA]).unwrap();
    assert_eq!(combined, vec![0x00, 0x03, 0x04, 0x00, 0x15, 0x00, 0x02, 0x05, 0x00, 0x09, 0x00, 0x03, 0xAA]);
    let huge = vec![0u8; 0xFFFC];
    assert_eq!(
        build_combined_ack_then_packet(2, 3, &huge),
        Err(LoginError::Transport(ProtocolError::CombinedSubPacketTooLong { len: 0x1_0000 }))
    );
    assert!(build_combined_ack_then_packet(2, 3, &vec![0u8; 0xFFFB]).is_ok());
}

#[test]
fn encrypting_a_decryption_gives_back_the_ciphertext() {
    let key_iv = DesKeyIv { key: [9, 8, 7, 6, 5, 4, 3, 2], iv: [1, 1, 2, 3, 5, 8, 13, 21] };
    let ciphertext: Vec<u8> = (0..24u8).map(|i| i.wrapping_mul(37)).collect();
    let plain = des_decrypt(&ciphertext, key_iv).unwrap();
    assert_eq!(plain.len(), ciphertext.len());
    assert_eq!(des_encrypt(&plain, key_iv), ciphertext);
}

#[test]
fn login_error_from_transport_error() {
    let e = ProtocolError::TooShort { need: 2, got: 0 };
    assert_eq!(LoginError::from(e), LoginError::Transport(e));
}

#[test]
fn login_packet_clone_keeps_credentials() {
    let key_iv = DesKeyIv::default();
    let request = build_login_combined("example-user", "example-password", key_iv).unwrap();
    let packet = LoginPacket::parse(&request, key_iv).unwrap();
    let copy = packet.clone();
    drop(packet);
    assert_eq!(copy.username(), "example-user");
    assert_eq!(copy.password(), "example-password");
    assert_eq!(copy.splice_encrypted_credentials(&request[24..]).unwrap(), request);
}
