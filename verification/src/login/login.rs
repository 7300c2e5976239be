//! Login request, result, and application-opcode codecs.

use crate::login::crypto::{
    des_cbc_decrypt, des_cbc_encrypt, des_decrypt, des_encrypt, wipe, zero_pad, zero_pad_len,
    DesKeyIv,
};
use crate::login::error::LoginError;
use crate::login::secret::{
    secret_bytes, secret_bytes_clone, secret_bytes_new, secret_bytes_slice, secret_text,
    secret_text_clone, secret_text_new, secret_text_str, SecretBytes, SecretText,
};
use crate::text::{decoded_text, string_from_utf8_lossy};
use crate::transport::combined::{build_combined, byte_slices, combined_body};
use crate::transport::error::ProtocolError;
use crate::transport::soe::{spec_ack, spec_wrap_app_packet, TransportOp};
use crate::wire::{
    lemma_nul_index, nul_index, nul_position,
    be16_bytes, be_u16, le16_bytes, le32_bytes, le_u16, le_u32, push_all, push_be16, push_le16,
    push_le32, read_be_u16, read_be_u32,
};
use vstd::prelude::*;
use vstd::utf8::{decode_utf8, encode_utf8, valid_utf8};

verus! {

/// Fixed byte length of a login application header.
pub const LOGIN_BASE_SIZE: usize = 10;

/// Offset at which an encrypted login result begins.
pub const LOGIN_RESULT_HEADER_SIZE: usize = 12;

/// Decrypted status value identifying a rejected login.
pub const LOGIN_RESULT_FAILURE_STATUS: u32 = 0xFFFF_FFFF;

const ACK_END: usize = 7;

const LOGIN_SUB_HEADER: usize = 6;

const ENC_OFFSET: usize = LOGIN_SUB_HEADER + LOGIN_BASE_SIZE;

/// Known little-endian login-server application opcodes.
#[derive(Debug, Clone, Copy, PartialEq, Eq, Structural)]
pub enum AppOp {
    /// Server invitation to start authentication.
    SessionReady,
    /// Client credential request.
    Login,
    /// Client acknowledgement that login has completed.
    LoginComplete,
    /// Client request for available world servers.
    ServerListRequest,
    /// Client request to enter a selected world server.
    PlayEverquestRequest,
    /// Client request to enter login-server chat.
    EnterChat,
    /// Login-server chat message.
    ChatMessage,
    /// Server authentication result.
    LoginAccepted,
    /// Server response containing available worlds.
    ServerListResponse,
    /// Server response to world selection.
    PlayEverquestResponse,
    /// Response to a login-server poll.
    PollResponse,
    /// Login-server poll request.
    Poll,
}

impl AppOp {
    /// The opcode's value on the wire.
    pub open spec fn spec_code(self) -> u16 {
        match self {
            AppOp::SessionReady => 0x0001,
            AppOp::Login => 0x0002,
            AppOp::LoginComplete => 0x0003,
            AppOp::ServerListRequest => 0x0004,
            AppOp::PlayEverquestRequest => 0x000D,
            AppOp::EnterChat => 0x000F,
            AppOp::ChatMessage => 0x0016,
            AppOp::LoginAccepted => 0x0017,
            AppOp::ServerListResponse => 0x0018,
            AppOp::PlayEverquestResponse => 0x0021,
            AppOp::PollResponse => 0x0011,
            AppOp::Poll => 0x0029,
        }
    }

    /// Return the opcode's value on the wire.
    #[verifier::when_used_as_spec(spec_code)]
    pub fn code(self) -> (c: u16)
        ensures
            c == self.spec_code(),
    {
        match self {
            AppOp::SessionReady => 0x0001,
            AppOp::Login => 0x0002,
            AppOp::LoginComplete => 0x0003,
            AppOp::ServerListRequest => 0x0004,
            AppOp::PlayEverquestRequest => 0x000D,
            AppOp::EnterChat => 0x000F,
            AppOp::ChatMessage => 0x0016,
            AppOp::LoginAccepted => 0x0017,
            AppOp::ServerListResponse => 0x0018,
            AppOp::PlayEverquestResponse => 0x0021,
            AppOp::PollResponse => 0x0011,
            AppOp::Poll => 0x0029,
        }
    }
}

/// The little-endian application opcode at the start of a payload, or zero when truncated.
pub open spec fn spec_app_opcode(app_payload: Seq<u8>) -> u16 {
    if app_payload.len() < 2 {
        0
    } else {
        le_u16(app_payload[0], app_payload[1])
    }
}

/// Read the little-endian application opcode, returning zero when truncated.
pub fn app_opcode(app_payload: &[u8]) -> (op: u16)
    ensures
        op == spec_app_opcode(app_payload@),
{
    if app_payload.len() < 2 {
        return 0;
    }
    read_be_u16(app_payload[1], app_payload[0])
}

/// Common header shared by `EQEmu` login application packets.
#[derive(Debug, Clone, Copy, PartialEq, Eq, Structural)]
pub struct LoginBase {
    /// Login protocol sequence marker.
    pub sequence: i32,
    /// Whether the application body is compressed.
    pub compressed: u8,
    /// Credential encryption selector.
    pub encrypt_type: i8,
    /// Unknown field retained from the wire format.
    pub unk3: u32,
}

/// The login header held in the first ten bytes of `data`.
pub open spec fn spec_login_base(data: Seq<u8>) -> LoginBase {
    LoginBase {
        sequence: le_u32(data[0], data[1], data[2], data[3]) as i32,
        compressed: data[4],
        encrypt_type: data[5] as i8,
        unk3: le_u32(data[6], data[7], data[8], data[9]),
    }
}

/// Parse a common login application header.
pub fn parse_login_base(data: &[u8]) -> (r: Option<LoginBase>)
    ensures
        data@.len() < LOGIN_BASE_SIZE ==> r is None,
        data@.len() >= LOGIN_BASE_SIZE ==> r == Some(spec_login_base(data@)),
{
    if data.len() < LOGIN_BASE_SIZE {
        return None;
    }
    Some(
        LoginBase {
            sequence: read_be_u32(data[3], data[2], data[1], data[0]) as i32,
            compressed: data[4],
            encrypt_type: data[5] as i8,
            unk3: read_be_u32(data[9], data[8], data[7], data[6]),
        },
    )
}

/// The credential block before encryption: `username\0password\0` in UTF-8.
pub open spec fn credential_plaintext(username: Seq<char>, password: Seq<char>) -> Seq<u8> {
    encode_utf8(username) + seq![0u8] + encode_utf8(password) + seq![0u8]
}

/// The encrypted credential block for `username` and `password`.
pub open spec fn credential_block(
    username: Seq<char>,
    password: Seq<char>,
    key: Seq<u8>,
    iv: Seq<u8>,
) -> Seq<u8> {
    des_cbc_encrypt(key, iv, zero_pad(credential_plaintext(username, password)))
}

/// Encode a NUL-delimited account name and password using legacy DES-CBC.
pub fn encrypt_login_credentials(username: &str, password: &str, key_iv: DesKeyIv) -> (ct: Vec<
    u8,
>)
    ensures
        ct@ == credential_block(username@, password@, key_iv.key@, key_iv.iv@),
        ct@.len() == zero_pad(credential_plaintext(username@, password@)).len(),
{
    let mut plaintext: Vec<u8> = Vec::new();
    push_all(&mut plaintext, username.as_bytes());
    plaintext.push(0);
    push_all(&mut plaintext, password.as_bytes());
    plaintext.push(0);
    assert(plaintext@ =~= credential_plaintext(username@, password@));
    let ct = des_encrypt(plaintext.as_slice(), key_iv);
    wipe(&mut plaintext);
    ct
}

/// The bytes of `s` before its first NUL.
pub open spec fn before_nul(s: Seq<u8>) -> Seq<u8> {
    s.take(nul_index(s))
}

/// The bytes of `s` after its first NUL, or nothing when it holds none.
pub open spec fn after_nul(s: Seq<u8>) -> Seq<u8> {
    if nul_index(s) < s.len() {
        s.skip(nul_index(s) + 1)
    } else {
        Seq::empty()
    }
}

/// The account-name and password fields of a decrypted credential block: the
/// bytes before the first NUL, then the bytes between it and the next NUL.
pub open spec fn credential_fields(decrypted: Seq<u8>) -> (Seq<u8>, Seq<u8>) {
    (before_nul(decrypted), before_nul(after_nul(decrypted)))
}

/// Split a decrypted credential block into its account-name and password bytes.
///
/// The name runs to the first NUL; the password runs from there to the next
/// NUL or to the end. A block without NUL is all name, with an empty password.
pub fn split_credential_fields(decrypted: &[u8]) -> (r: (Vec<u8>, Vec<u8>))
    ensures
        (r.0@, r.1@) == credential_fields(decrypted@),
{
    let idx = nul_position(decrypted);
    let mut username: Vec<u8> = Vec::new();
    push_all(&mut username, &decrypted[0..idx]);
    let rest: &[u8] = if idx < decrypted.len() {
        &decrypted[idx + 1..decrypted.len()]
    } else {
        &decrypted[decrypted.len()..decrypted.len()]
    };
    assert(rest@ =~= after_nul(decrypted@));
    let end = nul_position(rest);
    let mut password: Vec<u8> = Vec::new();
    push_all(&mut password, &rest[0..end]);
    (username, password)
}

/// Decrypt a credential block into its account name and password.
///
/// Returns `None` when the block is empty or not aligned to the DES block
/// size. Each field is decoded as UTF-8 with invalid sequences replaced. A
/// block that encrypts `username\0password\0` for NUL-free text gives that text
/// back.
pub fn decrypt_credentials(encrypted: &[u8], key_iv: DesKeyIv) -> (r: Option<(String, String)>)
    ensures
        (encrypted@.len() == 0 || encrypted@.len() % 8 != 0) ==> r is None,
        (encrypted@.len() != 0 && encrypted@.len() % 8 == 0) ==> (r matches Some((u, p)) && ({
            let fields = credential_fields(
                des_cbc_decrypt(key_iv.key@, key_iv.iv@, encrypted@),
            );
            u@ == decoded_text(fields.0) && p@ == decoded_text(fields.1)
        })),
        r matches Some((u, p)) ==> forall|username: Seq<char>, password: Seq<char>|
            no_nul_chars(username) && no_nul_chars(password) && encrypted@
                == #[trigger] credential_block(username, password, key_iv.key@, key_iv.iv@)
                ==> u@ == username && p@ == password,
{
    let mut decrypted = match des_decrypt(encrypted, key_iv) {
        Ok(d) => d,
        Err(_) => return None,
    };
    let (mut username_bytes, mut password_bytes) = split_credential_fields(decrypted.as_slice());
    let username = string_from_utf8_lossy(username_bytes.as_slice());
    let password = string_from_utf8_lossy(password_bytes.as_slice());
    proof {
        assert forall|un: Seq<char>, pw: Seq<char>|
            no_nul_chars(un) && no_nul_chars(pw) && encrypted@
                == #[trigger] credential_block(un, pw, key_iv.key@, key_iv.iv@) implies username@
            == un && password@ == pw by {
            let z = zero_pad(credential_plaintext(un, pw));
            assert(z.len() % 8 == 0);
            assert(decrypted@ == z);
            law_credentials_round_trip(un, pw);
        }
    }
    wipe(&mut decrypted);
    wipe(&mut username_bytes);
    wipe(&mut password_bytes);
    Some((username, password))
}

/// Whether a text holds no NUL character.
pub open spec fn no_nul_chars(text: Seq<char>) -> bool {
    forall|i: int| 0 <= i < text.len() ==> (text[i] as u32) != 0
}

/// The UTF-8 encoding of one scalar other than NUL holds no zero byte.
proof fn lemma_scalar_has_no_zero_byte(c: u32)
    requires
        c != 0,
        vstd::utf8::is_scalar(c),
    ensures
        forall|j: int|
            0 <= j < vstd::utf8::encode_scalar(c).len() ==> vstd::utf8::encode_scalar(c)[j] != 0,
{
    assert(0 < c <= 0x7F ==> (c & 0x7F) as u8 != 0) by (bit_vector);
    assert((0xC0u8 | ((c >> 6) & 0x1F) as u8) != 0) by (bit_vector);
    assert((0xE0u8 | ((c >> 12) & 0x0F) as u8) != 0) by (bit_vector);
    assert((0xF0u8 | ((c >> 18) & 0x7) as u8) != 0) by (bit_vector);
    assert((0x80u8 | (c & 0x3F) as u8) != 0) by (bit_vector);
    assert((0x80u8 | ((c >> 6) & 0x3F) as u8) != 0) by (bit_vector);
    assert((0x80u8 | ((c >> 12) & 0x3F) as u8) != 0) by (bit_vector);
}

/// The UTF-8 encoding of a text without NUL holds no zero byte.
pub proof fn lemma_encoding_has_no_zero_byte(text: Seq<char>)
    requires
        no_nul_chars(text),
    ensures
        forall|j: int| 0 <= j < encode_utf8(text).len() ==> encode_utf8(text)[j] != 0,
    decreases text.len(),
{
    if text.len() > 0 {
        let c = text[0];
        vstd::utf8::char_is_scalar(c);
        assert((c as u32) != 0);
        lemma_scalar_has_no_zero_byte(c as u32);
        assert(no_nul_chars(text.drop_first())) by {
            assert forall|i: int| 0 <= i < text.drop_first().len() implies (text.drop_first()[i]
                as u32) != 0 by {
                assert(text.drop_first()[i] == text[i + 1]);
            }
        }
        lemma_encoding_has_no_zero_byte(text.drop_first());
        let head = vstd::utf8::encode_scalar(c as u32);
        let tail = encode_utf8(text.drop_first());
        assert(encode_utf8(text) == head + tail);
        assert forall|j: int| 0 <= j < encode_utf8(text).len() implies encode_utf8(text)[j]
            != 0 by {
            if j >= head.len() {
                assert(encode_utf8(text)[j] == tail[j - head.len()]);
            }
        }
    }
}

/// The fields of a text followed by a NUL and anything else are that text and the rest.
proof fn lemma_fields_of_terminated(field: Seq<u8>, rest: Seq<u8>)
    requires
        forall|j: int| 0 <= j < field.len() ==> field[j] != 0,
    ensures
        before_nul(field + seq![0u8] + rest) == field,
        after_nul(field + seq![0u8] + rest) == rest,
{
    let s = field + seq![0u8] + rest;
    lemma_nul_index(s, field.len() as int);
    assert(s.take(field.len() as int) =~= field);
    assert(s.skip(field.len() as int + 1) =~= rest);
}

/// Splitting the padded credential block of NUL-free texts gives back their
/// UTF-8 encodings, which decode to the texts.
pub proof fn law_credentials_round_trip(username: Seq<char>, password: Seq<char>)
    requires
        no_nul_chars(username),
        no_nul_chars(password),
    ensures
        credential_fields(zero_pad(credential_plaintext(username, password))) == (
            encode_utf8(username),
            encode_utf8(password),
        ),
        valid_utf8(encode_utf8(username)) && decode_utf8(encode_utf8(username)) == username,
        valid_utf8(encode_utf8(password)) && decode_utf8(encode_utf8(password)) == password,
{
    let u = encode_utf8(username);
    let p = encode_utf8(password);
    let pad = Seq::new(
        zero_pad_len(credential_plaintext(username, password).len()),
        |i: int| 0u8,
    );
    lemma_encoding_has_no_zero_byte(username);
    lemma_encoding_has_no_zero_byte(password);
    let z = zero_pad(credential_plaintext(username, password));
    let after = p + seq![0u8] + pad;
    assert(z =~= u + seq![0u8] + after);
    lemma_fields_of_terminated(u, after);
    lemma_fields_of_terminated(p, pad);
    vstd::utf8::encode_utf8_valid_utf8(username);
    vstd::utf8::encode_utf8_valid_utf8(password);
    vstd::utf8::encode_utf8_decode_utf8(username);
    vstd::utf8::encode_utf8_decode_utf8(password);
}

/// Whether `b` is a combined login request that `LoginPacket::parse` accepts:
/// the combined header with an acknowledgement, then a length-prefixed packet
/// sub-packet carrying the login opcode and a non-empty, block-aligned
/// encrypted credential block after its sixteen header bytes.
pub open spec fn is_login_request(b: Seq<u8>) -> bool {
    &&& b.len() >= 30
    &&& b[0] == 0x00 && b[1] == 0x03 && b[2] == 0x04 && b[3] == 0x00 && b[4] == 0x15
    &&& 8 + b[7] <= b.len()
    &&& b[7] > 16
    &&& be_u16(b[8], b[9]) == TransportOp::Packet.spec_code()
    &&& le_u16(b[12], b[13]) == AppOp::Login.spec_code()
    &&& (b[7] - 16) % 8 == 0
}

/// The encrypted credential block of a login request.
pub open spec fn login_encrypted_block(b: Seq<u8>) -> Seq<u8> {
    b.subrange(24, 8 + b[7])
}

/// A login request with its encrypted credential block replaced by `encrypted`
/// and its sub-packet length byte updated.
pub open spec fn spliced_login_request(b: Seq<u8>, encrypted: Seq<u8>) -> Seq<u8> {
    (b.take(24) + encrypted + b.skip(8 + b[7])).update(7, (16 + encrypted.len()) as u8)
}

/// Decoded proxy login request retaining enough structure for safe rewriting.
///
/// The request bytes and decoded credentials are held in `zeroize::Zeroizing`
/// storage, which wipes them when the packet is dropped. The type has no
/// `Debug`, so the decoded credentials are never formatted.
pub struct LoginPacket {
    buf: SecretBytes,
    username: SecretText,
    password: SecretText,
    sub2_offset: usize,
    sub2_len: usize,
    enc_offset: usize,
}

impl LoginPacket {
    #[verifier::type_invariant]
    spec fn well_formed(self) -> bool {
        &&& is_login_request(secret_bytes(self.buf))
        &&& self.sub2_offset == ACK_END + 1
        &&& self.sub2_len == secret_bytes(self.buf)[ACK_END as int]
        &&& self.enc_offset == ENC_OFFSET
    }

    /// The complete request bytes.
    pub closed spec fn bytes(&self) -> Seq<u8> {
        secret_bytes(self.buf)
    }

    /// The decoded account name.
    pub closed spec fn spec_username(&self) -> Seq<char> {
        secret_text(self.username)
    }

    /// The decoded password.
    pub closed spec fn spec_password(&self) -> Seq<char> {
        secret_text(self.password)
    }

    /// Decode a combined login request and its credential block.
    ///
    /// A request whose block encrypts NUL-free credentials gives them back.
    pub fn parse(buf: &[u8], key_iv: DesKeyIv) -> (r: Option<Self>)
        ensures
            r is Some <==> is_login_request(buf@),
            r matches Some(pkt) ==> {
                let fields = credential_fields(
                    des_cbc_decrypt(key_iv.key@, key_iv.iv@, login_encrypted_block(buf@)),
                );
                &&& pkt.bytes() == buf@
                &&& pkt.spec_username() == decoded_text(fields.0)
                &&& pkt.spec_password() == decoded_text(fields.1)
            },
            r matches Some(pkt) ==> forall|username: Seq<char>, password: Seq<char>|
                no_nul_chars(username) && no_nul_chars(password) && login_encrypted_block(buf@)
                    == #[trigger] credential_block(username, password, key_iv.key@, key_iv.iv@)
                    ==> pkt.spec_username() == username && pkt.spec_password() == password,
    {
        if buf.len() < 30 || !(buf[0] == 0x00 && buf[1] == 0x03 && buf[2] == 0x04 && buf[3]
            == 0x00 && buf[4] == 0x15) {
            return None;
        }
        if buf.len() <= ACK_END {
            return None;
        }
        let sub2_len = buf[ACK_END] as usize;
        let sub2_start = ACK_END + 1;
        if sub2_start + sub2_len > buf.len() || sub2_len < LOGIN_SUB_HEADER {
            return None;
        }
        let sub2 = &buf[sub2_start..sub2_start + sub2_len];
        let transport_op = read_be_u16(sub2[0], sub2[1]);
        if transport_op != TransportOp::Packet.code() {
            return None;
        }
        if app_opcode(&sub2[4..sub2.len()]) != AppOp::Login.code() {
            return None;
        }
        if sub2.len() <= ENC_OFFSET {
            return None;
        }
        let encrypted = &sub2[ENC_OFFSET..sub2.len()];
        assert(encrypted@ =~= login_encrypted_block(buf@));
        let (username, password) = match decrypt_credentials(encrypted, key_iv) {
            Some(c) => c,
            None => return None,
        };
        let mut copy: Vec<u8> = Vec::new();
        push_all(&mut copy, buf);
        Some(
            LoginPacket {
                buf: secret_bytes_new(copy),
                username: secret_text_new(username),
                password: secret_text_new(password),
                sub2_offset: sub2_start,
                sub2_len,
                enc_offset: ENC_OFFSET,
            },
        )
    }

    /// Return the decoded account name.
    pub fn username(&self) -> (s: &str)
        ensures
            s@ == self.spec_username(),
    {
        secret_text_str(&self.username)
    }

    /// Return the decoded password for an immediate routing or rewrite decision.
    ///
    /// Callers should avoid copying, retaining, or logging this value.
    pub fn password(&self) -> (s: &str)
        ensures
            s@ == self.spec_password(),
    {
        secret_text_str(&self.password)
    }

    /// Replace the decoded credentials and return a newly encoded packet.
    ///
    /// Returns an error when the rewritten packet exceeds its wire length field.
    pub fn rewrite_credentials(&self, new_user: &str, new_pass: &str, key_iv: DesKeyIv) -> (r:
        Result<Vec<u8>, LoginError>)
        requires
            credential_plaintext(new_user@, new_pass@).len() + 23 <= usize::MAX,
        ensures
            ({
                let encrypted = credential_block(new_user@, new_pass@, key_iv.key@, key_iv.iv@);
                let len = zero_pad(credential_plaintext(new_user@, new_pass@)).len() + 16;
                &&& len > 255 ==> r == Err::<Vec<u8>, LoginError>(
                    LoginError::SubPacketLengthOverflow { len: len as usize },
                )
                &&& len <= 255 ==> (r matches Ok(out) && out@ == spliced_login_request(
                    self.bytes(),
                    encrypted,
                ))
            }),
    {
        let new_enc = encrypt_login_credentials(new_user, new_pass, key_iv);
        self.splice_encrypted_credentials(new_enc.as_slice())
    }

    /// Replace the encrypted credential block without decrypting it.
    ///
    /// Returns an error when the rewritten packet exceeds its wire length field.
    pub fn splice_encrypted_credentials(&self, encrypted: &[u8]) -> (r: Result<
        Vec<u8>,
        LoginError,
    >)
        requires
            encrypted@.len() + 16 <= usize::MAX,
        ensures
            encrypted@.len() + 16 > 255 ==> r == Err::<Vec<u8>, LoginError>(
                LoginError::SubPacketLengthOverflow { len: (encrypted@.len() + 16) as usize },
            ),
            encrypted@.len() + 16 <= 255 ==> (r matches Ok(out) && out@ == spliced_login_request(
                self.bytes(),
                encrypted@,
            )),
    {
        proof {
            use_type_invariant(self);
        }
        let new_sub_len = self.enc_offset + encrypted.len();
        if new_sub_len > 255 {
            return Err(LoginError::SubPacketLengthOverflow { len: new_sub_len });
        }
        let length = new_sub_len as u8;
        let abs_start = self.sub2_offset + self.enc_offset;
        let abs_end = self.sub2_offset + self.sub2_len;
        let bytes = secret_bytes_slice(&self.buf);
        let mut out: Vec<u8> = Vec::new();
        push_all(&mut out, &bytes[0..abs_start]);
        push_all(&mut out, encrypted);
        push_all(&mut out, &bytes[abs_end..bytes.len()]);
        out.set(self.sub2_offset - 1, length);
        assert(out@ =~= spliced_login_request(self.bytes(), encrypted@));
        Ok(out)
    }
}

impl Clone for LoginPacket {
    fn clone(&self) -> (r: Self)
        ensures
            r.bytes() == self.bytes(),
            r.spec_username() == self.spec_username(),
            r.spec_password() == self.spec_password(),
    {
        proof {
            use_type_invariant(self);
        }
        LoginPacket {
            buf: secret_bytes_clone(&self.buf),
            username: secret_text_clone(&self.username),
            password: secret_text_clone(&self.password),
            sub2_offset: self.sub2_offset,
            sub2_len: self.sub2_len,
            enc_offset: self.enc_offset,
        }
    }
}

/// Splicing a non-empty, block-aligned credential block that fits the length
/// byte into a login request gives a login request holding exactly that block.
pub proof fn law_splice_keeps_login_request(b: Seq<u8>, encrypted: Seq<u8>)
    requires
        is_login_request(b),
        encrypted.len() > 0,
        encrypted.len() % 8 == 0,
        encrypted.len() + 16 <= 255,
    ensures
        is_login_request(spliced_login_request(b, encrypted)),
        login_encrypted_block(spliced_login_request(b, encrypted)) == encrypted,
{
    let out = spliced_login_request(b, encrypted);
    let pre = b.take(24) + encrypted + b.skip(8 + b[7]);
    assert(out.len() == pre.len());
    assert(out[7] == 16 + encrypted.len());
    assert forall|i: int| 0 <= i < 24 && i != 7 implies out[i] == b[i] by {
        assert(pre[i] == b.take(24)[i]);
    }
    assert(login_encrypted_block(out) =~= encrypted) by {
        assert forall|k: int| 0 <= k < encrypted.len() implies login_encrypted_block(out)[k]
            == encrypted[k] by {
            assert(out[24 + k] == pre[24 + k]);
        }
    }
}

/// The encrypted block of a login result: the bytes after its twelve-byte
/// header, less one trailing byte when their count is one past a block boundary.
pub open spec fn login_result_block(app_payload: Seq<u8>) -> Seq<u8> {
    let e = app_payload.skip(LOGIN_RESULT_HEADER_SIZE as int);
    if e.len() > 0 && e.len() % 8 == 1 {
        e.drop_last()
    } else {
        e
    }
}

/// Whether a decrypted login result carries the failure status followed only by zeros.
pub open spec fn is_failure_result(decrypted: Seq<u8>) -> bool {
    &&& decrypted.len() >= 12
    &&& le_u32(decrypted[8], decrypted[9], decrypted[10], decrypted[11])
        == LOGIN_RESULT_FAILURE_STATUS
    &&& forall|i: int| 12 <= i < decrypted.len() ==> decrypted[i] == 0
}

/// Whether a login-accepted payload encodes the standard bad-password result
/// under `key` and `iv`.
pub open spec fn spec_is_bad_password(app_payload: Seq<u8>, key: Seq<u8>, iv: Seq<u8>) -> bool {
    &&& app_payload.len() >= LOGIN_RESULT_HEADER_SIZE
    &&& spec_app_opcode(app_payload) == AppOp::LoginAccepted.spec_code()
    &&& spec_login_base(app_payload.skip(2)).sequence == 3
    &&& spec_login_base(app_payload.skip(2)).encrypt_type == 2
    &&& login_result_block(app_payload).len() > 0
    &&& login_result_block(app_payload).len() % 8 == 0
    &&& is_failure_result(des_cbc_decrypt(key, iv, login_result_block(app_payload)))
}

/// Return whether a decrypted login result carries the failure status with
/// nothing but zero bytes after it.
pub fn login_result_is_failure(decrypted: &[u8]) -> (r: bool)
    ensures
        r == is_failure_result(decrypted@),
{
    if decrypted.len() < 12 {
        return false;
    }
    let status = read_be_u32(decrypted[11], decrypted[10], decrypted[9], decrypted[8]);
    if status != LOGIN_RESULT_FAILURE_STATUS {
        return false;
    }
    let mut i: usize = 12;
    while i < decrypted.len()
        invariant
            12 <= i <= decrypted@.len(),
            forall|j: int| 12 <= j < i ==> decrypted@[j] == 0,
        decreases decrypted@.len() - i,
    {
        if decrypted[i] != 0 {
            return false;
        }
        i += 1;
    }
    true
}

/// Return whether a login-accepted packet encodes the standard bad-password result.
pub fn is_bad_password_login_result(app_payload: &[u8], key_iv: DesKeyIv) -> (r: bool)
    ensures
        r == spec_is_bad_password(app_payload@, key_iv.key@, key_iv.iv@),
{
    if app_payload.len() < LOGIN_RESULT_HEADER_SIZE {
        return false;
    }
    if app_opcode(app_payload) != AppOp::LoginAccepted.code() {
        return false;
    }
    let header = &app_payload[2..app_payload.len()];
    assert(header@ =~= app_payload@.skip(2));
    let base = match parse_login_base(header) {
        Some(b) => b,
        None => return false,
    };
    if base.sequence != 3 || base.encrypt_type != 2 {
        return false;
    }
    let mut encrypted = &app_payload[LOGIN_RESULT_HEADER_SIZE..app_payload.len()];
    if encrypted.len() != 0 && encrypted.len() % 8 == 1 {
        encrypted = &encrypted[0..encrypted.len() - 1];
    }
    assert(encrypted@ =~= login_result_block(app_payload@));
    if encrypted.len() == 0 || encrypted.len() % 8 != 0 {
        return false;
    }
    let decrypted = match des_decrypt(encrypted, key_iv) {
        Ok(d) => d,
        Err(_) => return false,
    };
    login_result_is_failure(decrypted.as_slice())
}

/// The header shared by the encoded login request and login result: sequence
/// 3, no compression, encryption type 2, and a zero trailing field.
pub open spec fn login_base_bytes() -> Seq<u8> {
    le32_bytes(3) + seq![0u8, 2u8] + le32_bytes(0)
}

/// Append the login header that `login_base_bytes` describes.
fn push_login_base(out: &mut Vec<u8>)
    ensures
        final(out)@ == old(out)@ + login_base_bytes(),
{
    let ghost start = out@;
    push_le32(out, 3);
    out.push(0);
    out.push(2);
    push_le32(out, 0);
    assert(out@ =~= start + login_base_bytes());
}

/// The application payload of a login request carrying `encrypted` credentials.
pub open spec fn login_request_payload(encrypted: Seq<u8>) -> Seq<u8> {
    le16_bytes(AppOp::Login.spec_code()) + login_base_bytes() + encrypted
}

/// The plaintext of a synthetic login result: account id, a zero field, the
/// status, and twenty zero bytes.
pub open spec fn login_result_plaintext(account_id: u32, status: u32) -> Seq<u8> {
    le32_bytes(account_id) + le32_bytes(0) + le32_bytes(status) + Seq::new(20, |i: int| 0u8)
}

/// The application payload of a login result carrying `encrypted`.
pub open spec fn login_accepted_payload(encrypted: Seq<u8>) -> Seq<u8> {
    le16_bytes(AppOp::LoginAccepted.spec_code()) + login_base_bytes() + encrypted
}

/// A combined packet holding an acknowledgement of `ack_seq`, then the
/// application payload sequenced as `packet_seq`.
pub open spec fn ack_then_packet(ack_seq: u16, packet_seq: u16, app_payload: Seq<u8>) -> Seq<u8> {
    be16_bytes(TransportOp::Combined.spec_code()) + combined_body(
        seq![spec_ack(ack_seq), spec_wrap_app_packet(packet_seq, app_payload)],
    )
}

/// Build an Ack transport sub-packet (`opcode || seq`).
fn ack_sub(seq: u16) -> (sub: Vec<u8>)
    ensures
        sub@ == spec_ack(seq),
{
    let mut sub: Vec<u8> = Vec::new();
    push_be16(&mut sub, TransportOp::Ack.code());
    push_be16(&mut sub, seq);
    sub
}

/// Build a Packet transport sub-packet (`opcode || seq || payload`).
fn packet_sub(seq: u16, payload: &[u8]) -> (sub: Vec<u8>)
    ensures
        sub@ == spec_wrap_app_packet(seq, payload@),
{
    let mut sub: Vec<u8> = Vec::new();
    push_be16(&mut sub, TransportOp::Packet.code());
    push_be16(&mut sub, seq);
    push_all(&mut sub, payload);
    sub
}

/// Combine an acknowledgement and application packet.
///
/// Returns an error when the application packet exceeds a transport length field.
pub fn build_combined_ack_then_packet(ack_seq: u16, packet_seq: u16, app_payload: &[u8]) -> (r:
    Result<Vec<u8>, LoginError>)
    ensures
        app_payload@.len() + 4 > 0xFFFF ==> r == Err::<Vec<u8>, LoginError>(
            LoginError::Transport(
                ProtocolError::CombinedSubPacketTooLong { len: (app_payload@.len() + 4) as usize },
            ),
        ),
        app_payload@.len() + 4 <= 0xFFFF ==> (r matches Ok(out) && out@ == ack_then_packet(
            ack_seq,
            packet_seq,
            app_payload@,
        )),
{
    let ack = ack_sub(ack_seq);
    let packet = packet_sub(packet_seq, app_payload);
    let parts: [&[u8]; 2] = [ack.as_slice(), packet.as_slice()];
    let parts_slice = parts.as_slice();
    assert(byte_slices(parts_slice@) =~= seq![ack@, packet@]);
    match build_combined(parts_slice) {
        Ok(out) => Ok(out),
        Err(e) => {
            assert(byte_slices(parts_slice@)[0].len() == 4);
            Err(LoginError::from(e))
        },
    }
}

/// Encode the standard combined ACK and login request packet.
///
/// Returns an error when the encoded credentials exceed a transport length field.
pub fn build_login_combined(username: &str, password: &str, key_iv: DesKeyIv) -> (r: Result<
    Vec<u8>,
    LoginError,
>)
    ensures
        ({
            let payload = login_request_payload(
                credential_block(username@, password@, key_iv.key@, key_iv.iv@),
            );
            &&& payload.len() == 12 + zero_pad(credential_plaintext(username@, password@)).len()
            &&& payload.len() + 4 > 0xFFFF ==> r == Err::<Vec<u8>, LoginError>(
                LoginError::Transport(
                    ProtocolError::CombinedSubPacketTooLong { len: (payload.len() + 4) as usize },
                ),
            )
            &&& payload.len() + 4 <= 0xFFFF ==> (r matches Ok(out) && out@ == ack_then_packet(
                0,
                1,
                payload,
            ))
        }),
{
    let encrypted = encrypt_login_credentials(username, password, key_iv);
    let mut app_payload: Vec<u8> = Vec::new();
    push_le16(&mut app_payload, AppOp::Login.code());
    push_login_base(&mut app_payload);
    push_all(&mut app_payload, encrypted.as_slice());
    assert(app_payload@ =~= login_request_payload(encrypted@));
    build_combined_ack_then_packet(0, 1, app_payload.as_slice())
}

/// Encode a synthetic login-accepted response, primarily for proxy testing.
///
/// The application packet always fits its length fields, so the result is `Ok`.
pub fn build_login_accepted_combined(
    account_id: u32,
    status: u32,
    server_seq: u16,
    key_iv: DesKeyIv,
) -> (r: Result<Vec<u8>, LoginError>)
    ensures
        r matches Ok(out) && out@ == ack_then_packet(
            1,
            server_seq,
            login_accepted_payload(
                des_cbc_encrypt(
                    key_iv.key@,
                    key_iv.iv@,
                    login_result_plaintext(account_id, status),
                ),
            ),
        ),
        des_cbc_encrypt(key_iv.key@, key_iv.iv@, login_result_plaintext(account_id, status)).len()
            == 32,
{
    let mut plaintext: Vec<u8> = Vec::new();
    push_le32(&mut plaintext, account_id);
    push_le32(&mut plaintext, 0);
    push_le32(&mut plaintext, status);
    let mut i: usize = 0;
    while i < 20
        invariant
            i <= 20,
            plaintext@ == le32_bytes(account_id) + le32_bytes(0) + le32_bytes(status) + Seq::new(
                i as nat,
                |j: int| 0u8,
            ),
        decreases 20 - i,
    {
        plaintext.push(0);
        i += 1;
        assert(plaintext@ =~= le32_bytes(account_id) + le32_bytes(0) + le32_bytes(status)
            + Seq::new(i as nat, |j: int| 0u8));
    }
    assert(plaintext@ =~= login_result_plaintext(account_id, status));
    assert(zero_pad(plaintext@) =~= plaintext@);
    let encrypted = des_encrypt(plaintext.as_slice(), key_iv);
    let mut app_payload: Vec<u8> = Vec::new();
    push_le16(&mut app_payload, AppOp::LoginAccepted.code());
    push_login_base(&mut app_payload);
    push_all(&mut app_payload, encrypted.as_slice());
    assert(app_payload@ =~= login_accepted_payload(encrypted@));
    build_combined_ack_then_packet(1, server_seq, app_payload.as_slice())
}

/// A login result whose encrypted block decrypts to a synthetic result
/// plaintext is a bad-password result exactly when it carries the failure status.
pub proof fn law_login_result_classification(
    key: Seq<u8>,
    iv: Seq<u8>,
    account_id: u32,
    status: u32,
    encrypted: Seq<u8>,
)
    requires
        encrypted.len() == 32,
        des_cbc_decrypt(key, iv, encrypted) == login_result_plaintext(account_id, status),
    ensures
        spec_is_bad_password(login_accepted_payload(encrypted), key, iv) <==> status
            == LOGIN_RESULT_FAILURE_STATUS,
{
    let p = login_accepted_payload(encrypted);
    crate::wire::lemma_be16_roundtrip(AppOp::LoginAccepted.spec_code());
    crate::wire::lemma_32_roundtrip(3);
    crate::wire::lemma_32_roundtrip(status);
    assert(p.skip(LOGIN_RESULT_HEADER_SIZE as int) =~= encrypted);
    assert(login_result_block(p) == encrypted);
    let base = spec_login_base(p.skip(2));
    assert(p.skip(2)[0] == le32_bytes(3)[0] && p.skip(2)[1] == le32_bytes(3)[1]
        && p.skip(2)[2] == le32_bytes(3)[2] && p.skip(2)[3] == le32_bytes(3)[3]);
    assert(base.sequence == 3);
    assert(base.encrypt_type == 2);
    let d = login_result_plaintext(account_id, status);
    assert(d[8] == le32_bytes(status)[0] && d[9] == le32_bytes(status)[1] && d[10]
        == le32_bytes(status)[2] && d[11] == le32_bytes(status)[3]);
}

/// A login request built around a non-empty, block-aligned credential block
/// short enough for a one-byte length prefix is a login request holding exactly that block.
pub proof fn law_built_login_request_is_parsable(encrypted: Seq<u8>)
    requires
        encrypted.len() > 0,
        encrypted.len() % 8 == 0,
        encrypted.len() + 16 < 0xFF,
    ensures
        is_login_request(ack_then_packet(0, 1, login_request_payload(encrypted))),
        login_encrypted_block(ack_then_packet(0, 1, login_request_payload(encrypted)))
            == encrypted,
{
    reveal_with_fuel(combined_body, 3);
    let ack = spec_ack(0);
    let packet = spec_wrap_app_packet(1, login_request_payload(encrypted));
    let subs = seq![ack, packet];
    assert(subs.drop_first() =~= seq![packet]);
    assert(subs.drop_first().drop_first() =~= Seq::<Seq<u8>>::empty());
    let b = ack_then_packet(0, 1, login_request_payload(encrypted));
    assert(b =~= seq![0x00u8, 0x03u8] + seq![4u8] + ack + seq![packet.len() as u8] + packet);
    assert(b[7] == 16 + encrypted.len());
    crate::wire::lemma_be16_roundtrip(TransportOp::Packet.spec_code());
    crate::wire::lemma_be16_roundtrip(AppOp::Login.spec_code());
    assert(login_encrypted_block(b) =~= encrypted);
}

/// The plaintext of every credential block is laid out as the UTF-8 account
/// name, a NUL, the UTF-8 password, and a NUL right after the password, then
/// zero padding shorter than one block up to a block boundary.
pub proof fn law_credential_plaintext_layout(username: Seq<char>, password: Seq<char>)
    ensures
        ({
            let name = encode_utf8(username);
            let word = encode_utf8(password);
            let z = zero_pad(credential_plaintext(username, password));
            let end = name.len() + 1 + word.len();
            &&& z.len() % 8 == 0
            &&& end < z.len() <= end + 8
            &&& z.subrange(0, name.len() as int) == name
            &&& z[name.len() as int] == 0
            &&& z.subrange(name.len() as int + 1, end as int) == word
            &&& z[end as int] == 0
            &&& forall|i: int| end <= i < z.len() ==> z[i] == 0
        }),
{
    let name = encode_utf8(username);
    let word = encode_utf8(password);
    let z = zero_pad(credential_plaintext(username, password));
    let end = name.len() + 1 + word.len();
    assert(z.subrange(0, name.len() as int) =~= name);
    assert(z.subrange(name.len() as int + 1, end as int) =~= word);
}

/// Rewriting a login request keeps everything around the credential block:
/// the first 24 bytes (with the sub-packet length byte set to the new
/// length), then the new block, then every byte that followed the login
/// sub-packet, so the result is as long as the request with the old block
/// replaced by the new one.
pub proof fn law_spliced_request_layout(b: Seq<u8>, encrypted: Seq<u8>)
    requires
        is_login_request(b),
        encrypted.len() + 16 <= 255,
    ensures
        ({
            let out = spliced_login_request(b, encrypted);
            let tail_start = 8 + b[7];
            let new_end = 24 + encrypted.len();
            &&& out.len() == b.len() - b[7] + 16 + encrypted.len()
            &&& out[7] == 16 + encrypted.len()
            &&& forall|i: int| 0 <= i < 24 && i != 7 ==> out[i] == b[i]
            &&& out.subrange(24, new_end as int) == encrypted
            &&& out.subrange(new_end as int, out.len() as int) == b.subrange(
                tail_start as int,
                b.len() as int,
            )
        }),
{
    let out = spliced_login_request(b, encrypted);
    let tail_start = 8 + b[7];
    let new_end = 24 + encrypted.len();
    let joined = b.take(24) + encrypted + b.skip(tail_start as int);
    assert(out.len() == joined.len());
    assert forall|i: int| 0 <= i < 24 && i != 7 implies out[i] == b[i] by {
        assert(joined[i] == b.take(24)[i]);
    }
    assert(out.subrange(24, new_end as int) =~= encrypted) by {
        assert forall|k: int| 0 <= k < encrypted.len() implies out.subrange(24, new_end as int)[k]
            == encrypted[k] by {
            assert(out[24 + k] == joined[24 + k]);
        }
    }
    assert(out.subrange(new_end as int, out.len() as int) =~= b.subrange(
        tail_start as int,
        b.len() as int,
    )) by {
        assert forall|k: int| 0 <= k < b.len() - tail_start implies out.subrange(
            new_end as int,
            out.len() as int,
        )[k] == b.subrange(tail_start as int, b.len() as int)[k] by {
            assert(out[new_end + k] == joined[new_end + k]);
        }
    }
}

/// The plaintext of a synthetic login result is 32 bytes whose first four
/// bytes, read little-endian, are the account id, whose next four are zero,
/// whose next four, read little-endian, are the status, and whose last twenty
/// are zero.
pub proof fn law_login_result_plaintext_fields(account_id: u32, status: u32)
    ensures
        ({
            let d = login_result_plaintext(account_id, status);
            &&& d.len() == 32
            &&& le_u32(d[0], d[1], d[2], d[3]) == account_id
            &&& d[4] == 0 && d[5] == 0 && d[6] == 0 && d[7] == 0
            &&& le_u32(d[8], d[9], d[10], d[11]) == status
            &&& forall|i: int| 12 <= i < 32 ==> d[i] == 0
        }),
{
    crate::wire::lemma_32_roundtrip(account_id);
    crate::wire::lemma_32_roundtrip(status);
    let d = login_result_plaintext(account_id, status);
    assert(d[0] == le32_bytes(account_id)[0] && d[1] == le32_bytes(account_id)[1] && d[2]
        == le32_bytes(account_id)[2] && d[3] == le32_bytes(account_id)[3]);
    assert(d[8] == le32_bytes(status)[0] && d[9] == le32_bytes(status)[1] && d[10]
        == le32_bytes(status)[2] && d[11] == le32_bytes(status)[3]);
}

} // verus!
