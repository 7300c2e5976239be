//! Byte-order primitives used by every packet layout of the protocol.

use vstd::prelude::*;

verus! {

/// Value of two bytes read in big-endian order.
pub open spec fn be_u16(hi: u8, lo: u8) -> u16 {
    (hi as int * 256 + lo as int) as u16
}

/// Value of two bytes read in little-endian order.
pub open spec fn le_u16(lo: u8, hi: u8) -> u16 {
    be_u16(hi, lo)
}

/// Value of four bytes read in big-endian order.
pub open spec fn be_u32(b0: u8, b1: u8, b2: u8, b3: u8) -> u32 {
    (b0 as int * 0x100_0000 + b1 as int * 0x1_0000 + b2 as int * 0x100 + b3 as int) as u32
}

/// Value of four bytes read in little-endian order.
pub open spec fn le_u32(b0: u8, b1: u8, b2: u8, b3: u8) -> u32 {
    be_u32(b3, b2, b1, b0)
}

/// Big-endian encoding of a 16-bit value.
pub open spec fn be16_bytes(v: u16) -> Seq<u8> {
    seq![(v / 256) as u8, (v % 256) as u8]
}

/// Little-endian encoding of a 16-bit value.
pub open spec fn le16_bytes(v: u16) -> Seq<u8> {
    seq![(v % 256) as u8, (v / 256) as u8]
}

/// Big-endian encoding of a 32-bit value.
pub open spec fn be32_bytes(v: u32) -> Seq<u8> {
    seq![
        (v / 0x100_0000) as u8,
        ((v / 0x1_0000) % 256) as u8,
        ((v / 0x100) % 256) as u8,
        (v % 256) as u8,
    ]
}

/// Little-endian encoding of a 32-bit value.
pub open spec fn le32_bytes(v: u32) -> Seq<u8> {
    seq![
        (v % 256) as u8,
        ((v / 0x100) % 256) as u8,
        ((v / 0x1_0000) % 256) as u8,
        (v / 0x100_0000) as u8,
    ]
}

/// Reading back a big-endian 16-bit encoding gives the encoded value.
pub proof fn lemma_be16_roundtrip(v: u16)
    ensures
        be_u16(be16_bytes(v)[0], be16_bytes(v)[1]) == v,
        le_u16(le16_bytes(v)[0], le16_bytes(v)[1]) == v,
{
}

/// Reading back a 32-bit encoding gives the encoded value.
pub proof fn lemma_32_roundtrip(v: u32)
    ensures
        be_u32(be32_bytes(v)[0], be32_bytes(v)[1], be32_bytes(v)[2], be32_bytes(v)[3]) == v,
        le_u32(le32_bytes(v)[0], le32_bytes(v)[1], le32_bytes(v)[2], le32_bytes(v)[3]) == v,
{
}

/// Encoding the value of four big-endian bytes gives the same four bytes back.
pub proof fn lemma_be32_of_bytes(b0: u8, b1: u8, b2: u8, b3: u8)
    ensures
        be32_bytes(be_u32(b0, b1, b2, b3)) == seq![b0, b1, b2, b3],
        le32_bytes(le_u32(b0, b1, b2, b3)) == seq![b0, b1, b2, b3],
{
    lemma_be32_digits(b0, b1, b2, b3);
    lemma_be32_digits(b3, b2, b1, b0);
}

/// The four base-256 digits of a big-endian value are its bytes.
proof fn lemma_be32_digits(b0: u8, b1: u8, b2: u8, b3: u8)
    ensures
        be32_bytes(be_u32(b0, b1, b2, b3)) == seq![b0, b1, b2, b3],
{
    let x: int = b0 as int * 0x100_0000 + b1 as int * 0x1_0000 + b2 as int * 0x100 + b3 as int;
    let v = be_u32(b0, b1, b2, b3);
    assert(v as int == x);
    vstd::arithmetic::div_mod::lemma_fundamental_div_mod_converse(
        x,
        0x100_0000,
        b0 as int,
        b1 as int * 0x1_0000 + b2 as int * 0x100 + b3 as int,
    );
    let hi16: int = b0 as int * 0x100 + b1 as int;
    vstd::arithmetic::div_mod::lemma_fundamental_div_mod_converse(
        x,
        0x1_0000,
        hi16,
        b2 as int * 0x100 + b3 as int,
    );
    vstd::arithmetic::div_mod::lemma_fundamental_div_mod_converse(hi16, 0x100, b0 as int, b1 as int);
    let hi24: int = b0 as int * 0x1_0000 + b1 as int * 0x100 + b2 as int;
    vstd::arithmetic::div_mod::lemma_fundamental_div_mod_converse(x, 0x100, hi24, b3 as int);
    vstd::arithmetic::div_mod::lemma_fundamental_div_mod_converse(
        hi24,
        0x100,
        b0 as int * 0x100 + b1 as int,
        b2 as int,
    );
    assert(be32_bytes(v) =~= seq![b0, b1, b2, b3]);
}

/// Read two bytes in big-endian order.
pub fn read_be_u16(hi: u8, lo: u8) -> (v: u16)
    ensures
        v == be_u16(hi, lo),
{
    (hi as u16) * 256 + (lo as u16)
}

/// Read four bytes in big-endian order.
pub fn read_be_u32(b0: u8, b1: u8, b2: u8, b3: u8) -> (v: u32)
    ensures
        v == be_u32(b0, b1, b2, b3),
{
    (b0 as u32) * 0x100_0000 + (b1 as u32) * 0x1_0000 + (b2 as u32) * 0x100 + (b3 as u32)
}

/// Append the big-endian encoding of `v`.
pub fn push_be16(out: &mut Vec<u8>, v: u16)
    ensures
        final(out)@ == old(out)@ + be16_bytes(v),
{
    out.push((v / 256) as u8);
    out.push((v % 256) as u8);
}

/// Append the little-endian encoding of `v`.
pub fn push_le16(out: &mut Vec<u8>, v: u16)
    ensures
        final(out)@ == old(out)@ + le16_bytes(v),
{
    out.push((v % 256) as u8);
    out.push((v / 256) as u8);
}

/// Append the little-endian encoding of `v`.
pub fn push_le32(out: &mut Vec<u8>, v: u32)
    ensures
        final(out)@ == old(out)@ + le32_bytes(v),
{
    out.push((v % 256) as u8);
    out.push(((v / 0x100) % 256) as u8);
    out.push(((v / 0x1_0000) % 256) as u8);
    out.push((v / 0x100_0000) as u8);
}

/// Append every byte of `bytes`.
pub fn push_all(out: &mut Vec<u8>, bytes: &[u8])
    ensures
        final(out)@ == old(out)@ + bytes@,
{
    let ghost start = out@;
    let mut i: usize = 0;
    while i < bytes.len()
        invariant
            i <= bytes@.len(),
            out@ == start + bytes@.subrange(0, i as int),
        decreases bytes@.len() - i,
    {
        out.push(bytes[i]);
        i += 1;
        assert(out@ =~= start + bytes@.subrange(0, i as int));
    }
    assert(bytes@.subrange(0, i as int) =~= bytes@);
}

/// Index of the first NUL byte of `s`, or its length when it holds none.
pub open spec fn nul_index(s: Seq<u8>) -> int
    decreases s.len(),
{
    if s.len() == 0 {
        0
    } else if s[0] == 0 {
        0
    } else {
        1 + nul_index(s.drop_first())
    }
}

/// `nul_index` is the position of the first NUL byte, or the length.
pub proof fn lemma_nul_index(s: Seq<u8>, i: int)
    requires
        0 <= i <= s.len(),
        forall|j: int| 0 <= j < i ==> s[j] != 0,
        i < s.len() ==> s[i] == 0,
    ensures
        nul_index(s) == i,
    decreases s.len(),
{
    if s.len() == 0 {
    } else if s[0] == 0 {
    } else {
        assert forall|j: int| 0 <= j < i - 1 implies s.drop_first()[j] != 0 by {
            assert(s.drop_first()[j] == s[j + 1]);
        }
        lemma_nul_index(s.drop_first(), i - 1);
    }
}

/// Position of the first NUL byte of `s`, or its length when it holds none.
pub fn nul_position(s: &[u8]) -> (i: usize)
    ensures
        i == nul_index(s@),
        i <= s@.len(),
{
    let mut i: usize = 0;
    while i < s.len() && s[i] != 0
        invariant
            i <= s@.len(),
            forall|j: int| 0 <= j < i ==> s@[j] != 0,
        decreases s@.len() - i,
    {
        i += 1;
    }
    proof {
        lemma_nul_index(s@, i as int);
    }
    i
}

} // verus!
