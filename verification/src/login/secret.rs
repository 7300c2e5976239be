//! Credential storage that is wiped when it is dropped.

use vstd::prelude::*;
use zeroize::Zeroizing;

verus! {

/// Bytes kept in a `zeroize::Zeroizing` vector, which overwrites them with
/// zeros when it is dropped.
///
/// Verus cannot declare `Zeroizing` itself (its parameter is bound by the
/// outside `Zeroize` trait), so the wrapper is held in an opaque field and its
/// contents are named by [`secret_bytes`].
#[verifier::external_body]
pub struct SecretBytes {
    inner: Zeroizing<Vec<u8>>,
}

/// Text kept in a `zeroize::Zeroizing` string, which overwrites it with zeros
/// when it is dropped; its contents are named by [`secret_text`].
#[verifier::external_body]
pub struct SecretText {
    inner: Zeroizing<String>,
}

/// The bytes held by a zeroizing byte vector.
pub uninterp spec fn secret_bytes(z: SecretBytes) -> Seq<u8>;

/// The text held by a zeroizing string.
pub uninterp spec fn secret_text(z: SecretText) -> Seq<char>;

/// Take ownership of bytes in a `Zeroizing` wrapper (`Zeroizing::new`).
///
/// Trusted: the wrapper holds exactly the given bytes.
#[verifier::external_body]
pub(crate) fn secret_bytes_new(v: Vec<u8>) -> (z: SecretBytes)
    ensures
        secret_bytes(z) == v@,
{
    SecretBytes { inner: Zeroizing::new(v) }
}

/// Borrow the bytes of a `Zeroizing` vector through its `Deref`.
///
/// Trusted: the slice holds the wrapped bytes.
#[verifier::external_body]
pub(crate) fn secret_bytes_slice(z: &SecretBytes) -> (s: &[u8])
    ensures
        s@ == secret_bytes(*z),
{
    z.inner.as_slice()
}

/// Clone a `Zeroizing` byte vector (`Zeroizing::clone`, which clones the inner vector).
///
/// Trusted: the clone holds the same bytes.
#[verifier::external_body]
pub(crate) fn secret_bytes_clone(z: &SecretBytes) -> (c: SecretBytes)
    ensures
        secret_bytes(c) == secret_bytes(*z),
{
    SecretBytes { inner: z.inner.clone() }
}

/// Take ownership of a string in a `Zeroizing` wrapper (`Zeroizing::new`).
///
/// Trusted: the wrapper holds exactly the given text.
#[verifier::external_body]
pub(crate) fn secret_text_new(s: String) -> (z: SecretText)
    ensures
        secret_text(z) == s@,
{
    SecretText { inner: Zeroizing::new(s) }
}

/// Borrow the text of a `Zeroizing` string through its `Deref`.
///
/// Trusted: the string slice holds the wrapped text.
#[verifier::external_body]
pub(crate) fn secret_text_str(z: &SecretText) -> (s: &str)
    ensures
        s@ == secret_text(*z),
{
    z.inner.as_str()
}

/// Clone a `Zeroizing` string (`Zeroizing::clone`, which clones the inner string).
///
/// Trusted: the clone holds the same text.
#[verifier::external_body]
pub(crate) fn secret_text_clone(z: &SecretText) -> (c: SecretText)
    ensures
        secret_text(c) == secret_text(*z),
{
    SecretText { inner: z.inner.clone() }
}

} // verus!
