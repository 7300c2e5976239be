//! Legacy DES-CBC helpers required by login-server wire formats.

use cbc::cipher::block_padding::NoPadding;
use cbc::cipher::{BlockDecryptMut, BlockEncryptMut, KeyIvInit};
use vstd::prelude::*;

verus! {

/// Default all-zero `DES` key used by the `EQEmu` login protocol.
pub const DEFAULT_DES_KEY: [u8; 8] = [0u8, 0u8, 0u8, 0u8, 0u8, 0u8, 0u8, 0u8];

/// Default all-zero `DES` initialization vector used by the `EQEmu` login protocol.
pub const DEFAULT_DES_IV: [u8; 8] = [0u8, 0u8, 0u8, 0u8, 0u8, 0u8, 0u8, 0u8];

/// DES-CBC key and initialization vector selected by a login protocol.
#[derive(Debug, Clone, Copy, PartialEq, Eq)]
pub struct DesKeyIv {
    /// Eight-byte DES key.
    pub key: [u8; 8],
    /// Eight-byte CBC initialization vector.
    pub iv: [u8; 8],
}

impl Default for DesKeyIv {
    fn default() -> (r: Self)
        ensures
            r.key@ == Seq::new(8, |i: int| 0u8),
            r.iv@ == Seq::new(8, |i: int| 0u8),
    {
        let r = DesKeyIv { key: DEFAULT_DES_KEY, iv: DEFAULT_DES_IV };
        assert(r.key@ =~= Seq::new(8, |i: int| 0u8));
        assert(r.iv@ =~= Seq::new(8, |i: int| 0u8));
        r
    }
}

/// Errors returned by legacy credential decryption.
#[derive(Debug, Clone, Copy, PartialEq, Eq, Structural)]
pub enum CryptoError {
    /// Ciphertext was empty or not aligned to a DES block.
    InvalidLength(usize),
}

/// The DES-CBC ciphertext that `cbc::Encryptor<des::Des>` computes, without
/// padding, for a block-aligned plaintext under `key` and `iv`.
pub uninterp spec fn des_cbc_encrypt(key: Seq<u8>, iv: Seq<u8>, plaintext: Seq<u8>) -> Seq<u8>;

/// The plaintext that `cbc::Decryptor<des::Des>` computes, without removing any
/// padding, from a block-aligned ciphertext under `key` and `iv`.
pub uninterp spec fn des_cbc_decrypt(key: Seq<u8>, iv: Seq<u8>, ciphertext: Seq<u8>) -> Seq<u8>;

/// Encrypt a block-aligned buffer in place with DES-CBC, calling
/// `encrypt_padded_mut::<NoPadding>` on a `cbc::Encryptor<des::Des>`.
///
/// Trusted: the buffer becomes [`des_cbc_encrypt`] of its old contents and keeps
/// its length. The call cannot fail on an aligned buffer: `NoPadding` leaves a
/// whole number of blocks as it is.
#[verifier::external_body]
fn des_cbc_encrypt_in_place(key: &[u8; 8], iv: &[u8; 8], buf: &mut Vec<u8>)
    requires
        old(buf)@.len() % 8 == 0,
    ensures
        final(buf)@ == des_cbc_encrypt(key@, iv@, old(buf)@),
        final(buf)@.len() == old(buf)@.len(),
{
    let len = buf.len();
    let cipher = cbc::Encryptor::<des::Des>::new(&(*key).into(), &(*iv).into());
    cipher.encrypt_padded_mut::<NoPadding>(buf.as_mut_slice(), len).expect("padded to block size");
}

/// Decrypt a block-aligned buffer in place with DES-CBC, calling
/// `decrypt_padded_mut::<NoPadding>` on a `cbc::Decryptor<des::Des>`.
///
/// Trusted: the buffer becomes [`des_cbc_decrypt`] of its old contents and keeps
/// its length; decryption gives back any aligned plaintext whose encryption
/// under the same key and IV the buffer held (the round trip that the `cbc`
/// documentation demonstrates), and encrypting the result under the same key
/// and IV gives back the buffer's old contents (CBC over DES is a permutation
/// of aligned buffers). The call cannot fail on an aligned buffer.
#[verifier::external_body]
fn des_cbc_decrypt_in_place(key: &[u8; 8], iv: &[u8; 8], buf: &mut Vec<u8>)
    requires
        old(buf)@.len() % 8 == 0,
    ensures
        final(buf)@ == des_cbc_decrypt(key@, iv@, old(buf)@),
        final(buf)@.len() == old(buf)@.len(),
        forall|p: Seq<u8>|
            p.len() % 8 == 0 && #[trigger] des_cbc_encrypt(key@, iv@, p) == old(buf)@
                ==> final(buf)@ == p,
        des_cbc_encrypt(key@, iv@, final(buf)@) == old(buf)@,
{
    let cipher = cbc::Decryptor::<des::Des>::new(&(*key).into(), &(*iv).into());
    cipher.decrypt_padded_mut::<NoPadding>(buf.as_mut_slice()).expect("aligned to block size");
}

/// Clear a buffer that held credential material, calling `zeroize::Zeroize::zeroize`.
///
/// Trusted: the vector is left empty (the crate overwrites the old contents
/// with zeros and then clears it; the overwriting is not stated).
#[verifier::external_body]
pub(crate) fn wipe(buf: &mut Vec<u8>)
    ensures
        final(buf)@.len() == 0,
{
    zeroize::Zeroize::zeroize(buf);
}

/// Number of zero bytes that extend a message of `len` bytes to a block boundary.
pub open spec fn zero_pad_len(len: nat) -> nat {
    ((8 - len % 8) % 8) as nat
}

/// `plaintext` followed by zero bytes up to the next eight-byte boundary.
pub open spec fn zero_pad(plaintext: Seq<u8>) -> Seq<u8> {
    plaintext + Seq::new(zero_pad_len(plaintext.len()), |i: int| 0u8)
}

/// DES-CBC encrypt with zero/null padding to an 8-byte boundary.
pub fn des_encrypt(plaintext: &[u8], key_iv: DesKeyIv) -> (ct: Vec<u8>)
    ensures
        ct@ == des_cbc_encrypt(key_iv.key@, key_iv.iv@, zero_pad(plaintext@)),
        ct@.len() == zero_pad(plaintext@).len(),
{
    let pad = (8 - plaintext.len() % 8) % 8;
    let mut buf: Vec<u8> = Vec::new();
    crate::wire::push_all(&mut buf, plaintext);
    let mut i: usize = 0;
    while i < pad
        invariant
            i <= pad,
            pad == zero_pad_len(plaintext@.len()),
            buf@ == plaintext@ + Seq::new(i as nat, |j: int| 0u8),
        decreases pad - i,
    {
        buf.push(0);
        i += 1;
        assert(buf@ =~= plaintext@ + Seq::new(i as nat, |j: int| 0u8));
    }
    assert(buf@.len() % 8 == 0);
    des_cbc_encrypt_in_place(&key_iv.key, &key_iv.iv, &mut buf);
    buf
}

/// Decrypt a complete DES-CBC credential block without removing zero padding.
///
/// Returns [`CryptoError::InvalidLength`] when the ciphertext is empty or not
/// aligned to the eight-byte DES block size. A ciphertext that encrypts an
/// aligned plaintext under the same key and IV decrypts back to that plaintext,
/// and `des_encrypt` of the decryption gives back the ciphertext.
pub fn des_decrypt(ciphertext: &[u8], key_iv: DesKeyIv) -> (r: Result<Vec<u8>, CryptoError>)
    ensures
        (ciphertext@.len() == 0 || ciphertext@.len() % 8 != 0) ==> r == Err::<
            Vec<u8>,
            CryptoError,
        >(CryptoError::InvalidLength(ciphertext@.len() as usize)),
        (ciphertext@.len() != 0 && ciphertext@.len() % 8 == 0) ==> (r matches Ok(pt) && pt@
            == des_cbc_decrypt(key_iv.key@, key_iv.iv@, ciphertext@)),
        r matches Ok(pt) ==> forall|p: Seq<u8>|
            p.len() % 8 == 0 && #[trigger] des_cbc_encrypt(key_iv.key@, key_iv.iv@, p)
                == ciphertext@ ==> pt@ == p,
        r matches Ok(pt) ==> pt@.len() == ciphertext@.len(),
        r matches Ok(pt) ==> des_cbc_encrypt(key_iv.key@, key_iv.iv@, zero_pad(pt@))
            == ciphertext@,
{
    if ciphertext.len() == 0 || ciphertext.len() % 8 != 0 {
        return Err(CryptoError::InvalidLength(ciphertext.len()));
    }
    let mut buf: Vec<u8> = Vec::new();
    crate::wire::push_all(&mut buf, ciphertext);
    des_cbc_decrypt_in_place(&key_iv.key, &key_iv.iv, &mut buf);
    assert(zero_pad(buf@) =~= buf@);
    Ok(buf)
}

} // verus!
