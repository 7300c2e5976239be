//! Encoding and decoding of SOE combined transport packets.

use crate::transport::error::ProtocolError;
use crate::transport::soe::TransportOp;
use crate::wire::{be16_bytes, be_u16, lemma_be16_roundtrip, push_all, push_be16, read_be_u16};
use vstd::prelude::*;

verus! {

/// Location and transport opcode of one packet inside a combined datagram.
#[derive(Debug, Clone, PartialEq, Eq, Structural)]
pub struct SubPacket {
    /// Byte offset of the sub-packet's transport opcode.
    pub offset: usize,
    /// Complete sub-packet length in bytes.
    pub length: usize,
    /// Raw big-endian transport opcode.
    pub transport_op: u16,
}

/// Parsed sub-packet boundaries from a combined transport datagram.
#[derive(Debug, Clone, PartialEq, Eq)]
pub struct CombinedPacket {
    /// Sub-packets in their original wire order.
    pub subs: Vec<SubPacket>,
}

/// End of the byte range selected by `start` and an optional `length`; without a
/// length the range runs to the end of the buffer (and is empty past it).
pub open spec fn combined_end(buf_len: int, start: int, length: Option<usize>) -> int {
    match length {
        Some(l) => start + l,
        None => if buf_len >= start {
            buf_len
        } else {
            start
        },
    }
}

/// The sub-packets found by reading length prefixes from `pos` up to `end`.
///
/// A prefix byte of `0xFF` announces a two-byte big-endian length. The walk
/// stops at the end of the range or of the buffer, at a zero length, and at a
/// sub-packet that would cross `end`. It is `None` exactly where an extended
/// length would have to be read past the end of the buffer.
pub open spec fn combined_walk(buf: Seq<u8>, pos: int, end: int) -> Option<Seq<SubPacket>>
    decreases end - pos,
{
    if pos < 0 || pos >= end || pos >= buf.len() {
        Some(Seq::empty())
    } else if buf[pos] == 0xFF && pos + 3 > end {
        Some(Seq::empty())
    } else if buf[pos] == 0xFF && pos + 3 > buf.len() {
        None
    } else {
        let start = if buf[pos] == 0xFF {
            pos + 3
        } else {
            pos + 1
        };
        let sublen: int = if buf[pos] == 0xFF {
            be_u16(buf[pos + 1], buf[pos + 2]) as int
        } else {
            buf[pos] as int
        };
        if sublen == 0 || start + sublen > end {
            Some(Seq::empty())
        } else {
            let op = if start + 2 <= buf.len() {
                be_u16(buf[start], buf[start + 1])
            } else {
                0
            };
            match combined_walk(buf, start + sublen, end) {
                Some(rest) => Some(
                    seq![SubPacket { offset: start as usize, length: sublen as usize, transport_op: op }]
                        + rest,
                ),
                None => None,
            }
        }
    }
}

/// Walking to the end of the buffer never needs a byte past it.
pub proof fn lemma_walk_to_buffer_end(buf: Seq<u8>, pos: int)
    ensures
        combined_walk(buf, pos, buf.len() as int) is Some,
    decreases buf.len() - pos,
{
    let end = buf.len() as int;
    if pos < 0 || pos >= end || pos >= buf.len() {
    } else if buf[pos] == 0xFF && pos + 3 > end {
    } else {
        let start = if buf[pos] == 0xFF {
            pos + 3
        } else {
            pos + 1
        };
        let sublen: int = if buf[pos] == 0xFF {
            be_u16(buf[pos + 1], buf[pos + 2]) as int
        } else {
            buf[pos] as int
        };
        if sublen == 0 || start + sublen > end {
        } else {
            lemma_walk_to_buffer_end(buf, start + sublen);
        }
    }
}

impl CombinedPacket {
    /// Parse sub-packet boundaries from a combined transport packet.
    ///
    /// Returns [`ProtocolError::TooShort`] when the selected packet range does
    /// not contain a transport opcode.
    pub fn parse(buf: &[u8], start_index: usize, length: Option<usize>) -> (r: Result<
        Self,
        ProtocolError,
    >)
        requires
            start_index + 2 <= usize::MAX,
            combined_end(buf@.len() as int, start_index as int, length) <= usize::MAX,
            combined_end(buf@.len() as int, start_index as int, length) >= start_index + 2
                ==> combined_walk(
                buf@,
                start_index + 2,
                combined_end(buf@.len() as int, start_index as int, length),
            ) is Some,
        ensures
            ({
                let end = combined_end(buf@.len() as int, start_index as int, length);
                &&& end < start_index + 2 ==> r == Err::<CombinedPacket, ProtocolError>(
                    ProtocolError::TooShort { need: 2, got: (end - start_index) as usize },
                )
                &&& end >= start_index + 2 ==> (r matches Ok(cp) && cp.subs@ == combined_walk(
                    buf@,
                    start_index + 2,
                    end,
                )->0)
            }),
    {
        let ghost total_end = combined_end(buf@.len() as int, start_index as int, length);
        let end: usize = match length {
            Some(l) => start_index + l,
            None => if buf.len() >= start_index {
                buf.len()
            } else {
                start_index
            },
        };
        if end < start_index + 2 {
            return Err(ProtocolError::TooShort { need: 2, got: end - start_index });
        }
        let ghost total = combined_walk(buf@, start_index + 2, end as int)->0;
        let mut pos: usize = start_index + 2;
        let mut subs: Vec<SubPacket> = Vec::new();
        loop
            invariant_except_break
                pos <= end,
                combined_walk(buf@, pos as int, end as int) is Some,
                total == subs@ + combined_walk(buf@, pos as int, end as int)->0,
            ensures
                total == subs@,
            decreases end - pos,
        {
            if pos >= end || pos >= buf.len() {
                assert(subs@ + Seq::<SubPacket>::empty() =~= subs@);
                break;
            }
            let prefix = buf[pos];
            let mut start: usize = pos + 1;
            let mut sublen: usize = prefix as usize;
            if prefix == 0xFF {
                if end - start < 2 {
                    assert(subs@ + Seq::<SubPacket>::empty() =~= subs@);
                    break;
                }
                sublen = read_be_u16(buf[start], buf[start + 1]) as usize;
                start = start + 2;
            }
            if sublen == 0 || end - start < sublen {
                assert(subs@ + Seq::<SubPacket>::empty() =~= subs@);
                break;
            }
            let op: u16 = if buf.len() - start >= 2 {
                read_be_u16(buf[start], buf[start + 1])
            } else {
                0
            };
            let ghost before = subs@;
            subs.push(SubPacket { offset: start, length: sublen, transport_op: op });
            assert(before + combined_walk(buf@, pos as int, end as int)->0 =~= subs@
                + combined_walk(buf@, start + sublen, end as int)->0);
            pos = start + sublen;
        }
        Ok(CombinedPacket { subs })
    }

    /// Borrow the complete bytes for a parsed sub-packet.
    pub fn sub_bytes<'a>(&self, buf: &'a [u8], sub: &SubPacket) -> (r: &'a [u8])
        requires
            sub.offset + sub.length <= buf@.len(),
        ensures
            r@ == buf@.subrange(sub.offset as int, sub.offset + sub.length),
    {
        let n = buf.len();
        assert(n == buf@.len());
        &buf[sub.offset..sub.offset + sub.length]
    }
}

/// Length prefix and bytes of one sub-packet inside a combined packet.
pub open spec fn combined_frame(sub: Seq<u8>) -> Seq<u8> {
    if sub.len() >= 0xFF {
        seq![0xFFu8] + be16_bytes(sub.len() as u16) + sub
    } else {
        seq![sub.len() as u8] + sub
    }
}

/// The framed sub-packets, in order, that follow a combined packet's opcode.
pub open spec fn combined_body(subs: Seq<Seq<u8>>) -> Seq<u8>
    decreases subs.len(),
{
    if subs.len() == 0 {
        Seq::empty()
    } else {
        combined_frame(subs[0]) + combined_body(subs.drop_first())
    }
}

/// The byte contents of a list of borrowed sub-packets.
pub open spec fn byte_slices(subs: Seq<&[u8]>) -> Seq<Seq<u8>> {
    subs.map_values(|s: &[u8]| s@)
}

/// Whether some sub-packet is too long for the two-byte extended length field.
pub open spec fn has_oversized_sub(subs: Seq<Seq<u8>>) -> bool {
    exists|i: int| 0 <= i < subs.len() && subs[i].len() > 0xFFFF
}

/// Appending one sub-packet appends its frame to the body.
pub proof fn lemma_body_push(subs: Seq<Seq<u8>>, sub: Seq<u8>)
    ensures
        combined_body(subs.push(sub)) == combined_body(subs) + combined_frame(sub),
    decreases subs.len(),
{
    if subs.len() == 0 {
        reveal_with_fuel(combined_body, 2);
        assert(subs.push(sub).drop_first() =~= Seq::<Seq<u8>>::empty());
        assert(combined_body(subs.push(sub)) =~= combined_frame(sub));
    } else {
        lemma_body_push(subs.drop_first(), sub);
        assert(subs.push(sub).drop_first() =~= subs.drop_first().push(sub));
        assert(combined_body(subs.push(sub)) =~= combined_body(subs) + combined_frame(sub));
    }
}

/// Encode transport packets into one combined packet.
///
/// Returns [`ProtocolError::CombinedSubPacketTooLong`] when a sub-packet cannot
/// be represented by the two-byte extended length field.
pub fn build_combined(sub_packets: &[&[u8]]) -> (r: Result<Vec<u8>, ProtocolError>)
    ensures
        ({
            let subs = byte_slices(sub_packets@);
            &&& r is Err <==> has_oversized_sub(subs)
            &&& r matches Err(e) ==> exists|i: int|
                0 <= i < subs.len() && subs[i].len() > 0xFFFF && e
                    == ProtocolError::CombinedSubPacketTooLong { len: subs[i].len() as usize } && (
                forall|j: int| 0 <= j < i ==> subs[j].len() <= 0xFFFF)
            &&& r matches Ok(out) ==> out@ == be16_bytes(TransportOp::Combined.spec_code())
                + combined_body(subs)
        }),
{
    let ghost subs = byte_slices(sub_packets@);
    let mut body: Vec<u8> = Vec::new();
    let mut i: usize = 0;
    while i < sub_packets.len()
        invariant
            i <= sub_packets@.len(),
            subs == byte_slices(sub_packets@),
            body@ == combined_body(subs.take(i as int)),
            forall|j: int| 0 <= j < i ==> subs[j].len() <= 0xFFFF,
        decreases sub_packets@.len() - i,
    {
        let sub: &[u8] = sub_packets[i];
        let slen = sub.len();
        assert(subs[i as int] == sub@);
        let ghost before = body@;
        if slen >= 0xFF {
            if slen > 0xFFFF {
                assert(subs[i as int] == sub_packets@[i as int]@);
                assert(subs[i as int].len() > 0xFFFF);
                assert(has_oversized_sub(subs));
                return Err(ProtocolError::CombinedSubPacketTooLong { len: slen });
            }
            body.push(0xFF);
            push_be16(&mut body, slen as u16);
        } else {
            body.push(slen as u8);
        }
        push_all(&mut body, sub);
        proof {
            lemma_body_push(subs.take(i as int), subs[i as int]);
            assert(subs.take(i as int).push(subs[i as int]) =~= subs.take(i + 1));
            assert(body@ =~= before + combined_frame(subs[i as int]));
        }
        i += 1;
    }
    assert(subs.take(i as int) =~= subs);
    assert(!has_oversized_sub(subs));
    let mut out: Vec<u8> = Vec::new();
    push_be16(&mut out, TransportOp::Combined.code());
    push_all(&mut out, body.as_slice());
    Ok(out)
}

/// The bytes of each sub-packet found in a combined packet, in wire order.
pub open spec fn spec_split_combined(data: Seq<u8>) -> Seq<Seq<u8>> {
    if data.len() < 2 {
        Seq::empty()
    } else {
        combined_walk(data, 2, data.len() as int)->0.map_values(
            |s: SubPacket| data.subrange(s.offset as int, s.offset + s.length),
        )
    }
}

/// Split a combined packet into owned sub-packets, or return an empty vector
/// when its outer header is truncated.
pub fn split_combined(data: &[u8]) -> (r: Vec<Vec<u8>>)
    ensures
        r@.map_values(|v: Vec<u8>| v@) == spec_split_combined(data@),
{
    let n = data.len();
    assert(n == data@.len());
    proof {
        lemma_walk_to_buffer_end(data@, 2);
    }
    let mut out: Vec<Vec<u8>> = Vec::new();
    match CombinedPacket::parse(data, 0, None) {
        Err(_) => {
            assert(out@.map_values(|v: Vec<u8>| v@) =~= spec_split_combined(data@));
            out
        },
        Ok(cp) => {
            let ghost walk = cp.subs@;
            proof {
                lemma_walk_bounds(data@, 2, data@.len() as int);
            }
            let mut i: usize = 0;
            while i < cp.subs.len()
                invariant
                    i <= walk.len(),
                    walk == cp.subs@,
                    data@.len() >= 2,
                    data@.len() <= usize::MAX,
                    walk == combined_walk(data@, 2, data@.len() as int)->0,
                    forall|k: int|
                        0 <= k < walk.len() ==> walk[k].offset + walk[k].length <= data@.len(),
                    out@.map_values(|v: Vec<u8>| v@) =~= spec_split_combined(data@).take(
                        i as int,
                    ),
                decreases walk.len() - i,
            {
                let sub = &cp.subs[i];
                assert(walk[i as int] == *sub);
                let bytes = &data[sub.offset..sub.offset + sub.length];
                let mut piece: Vec<u8> = Vec::new();
                push_all(&mut piece, bytes);
                assert(spec_split_combined(data@) == walk.map_values(
                    |s: SubPacket| data@.subrange(s.offset as int, s.offset + s.length),
                ));
                assert(piece@ == spec_split_combined(data@)[i as int]);
                let ghost prev = out@;
                out.push(piece);
                assert(out@.map_values(|v: Vec<u8>| v@) =~= prev.map_values(|v: Vec<u8>| v@).push(piece@));
                i += 1;
                assert(out@.map_values(|v: Vec<u8>| v@) =~= spec_split_combined(data@).take(
                    i as int,
                ));
            }
            assert(spec_split_combined(data@).take(i as int) =~= spec_split_combined(data@));
            out
        },
    }
}

/// Every sub-packet found by a walk lies inside the walked range.
pub proof fn lemma_walk_bounds(buf: Seq<u8>, pos: int, end: int)
    requires
        combined_walk(buf, pos, end) is Some,
        end <= usize::MAX,
    ensures
        forall|k: int|
            0 <= k < combined_walk(buf, pos, end)->0.len() ==> pos <= combined_walk(
                buf,
                pos,
                end,
            )->0[k].offset && combined_walk(buf, pos, end)->0[k].offset + combined_walk(
                buf,
                pos,
                end,
            )->0[k].length <= end,
    decreases end - pos,
{
    if pos < 0 || pos >= end || pos >= buf.len() {
    } else if buf[pos] == 0xFF && pos + 3 > end {
    } else {
        let start = if buf[pos] == 0xFF {
            pos + 3
        } else {
            pos + 1
        };
        let sublen: int = if buf[pos] == 0xFF {
            be_u16(buf[pos + 1], buf[pos + 2]) as int
        } else {
            buf[pos] as int
        };
        if sublen == 0 || start + sublen > end {
        } else {
            lemma_walk_bounds(buf, start + sublen, end);
            let whole = combined_walk(buf, pos, end)->0;
            let rest = combined_walk(buf, start + sublen, end)->0;
            assert forall|k: int| 0 <= k < whole.len() implies pos <= whole[k].offset
                && whole[k].offset + whole[k].length <= end by {
                if k > 0 {
                    assert(whole[k] == rest[k - 1]);
                }
            }
        }
    }
}

/// Whether every sub-packet can be framed and found again: none is empty and
/// each fits the two-byte extended length field.
pub open spec fn framable_subs(subs: Seq<Seq<u8>>) -> bool {
    forall|i: int| 0 <= i < subs.len() ==> 0 < #[trigger] subs[i].len() <= 0xFFFF
}

/// Walking a buffer whose tail is the body of `subs` finds exactly `subs`.
proof fn lemma_walk_body(buf: Seq<u8>, pos: int, subs: Seq<Seq<u8>>)
    requires
        0 <= pos <= buf.len(),
        buf.len() <= usize::MAX,
        framable_subs(subs),
        buf.subrange(pos, buf.len() as int) == combined_body(subs),
    ensures
        combined_walk(buf, pos, buf.len() as int) is Some,
        combined_walk(buf, pos, buf.len() as int)->0.map_values(
            |s: SubPacket| buf.subrange(s.offset as int, s.offset + s.length),
        ) == subs,
    decreases subs.len(),
{
    let end = buf.len() as int;
    let walk = combined_walk(buf, pos, end);
    if subs.len() == 0 {
        assert(buf.subrange(pos, end).len() == 0);
        assert(walk->0.map_values(|s: SubPacket| buf.subrange(s.offset as int, s.offset + s.length))
            =~= subs);
    } else {
        let first = subs[0];
        let rest = subs.drop_first();
        let len = first.len() as int;
        assert(0 < len <= 0xFFFF);
        let frame = combined_frame(first);
        assert(buf.subrange(pos, end) == frame + combined_body(rest));
        let start = if len >= 0xFF {
            pos + 3
        } else {
            pos + 1
        };
        assert(frame.len() == start - pos + len);
        assert(buf[pos] == buf.subrange(pos, end)[0]);
        if len >= 0xFF {
            lemma_be16_roundtrip(len as u16);
            assert(buf[pos + 1] == buf.subrange(pos, end)[1]);
            assert(buf[pos + 2] == buf.subrange(pos, end)[2]);
            assert(be_u16(buf[pos + 1], buf[pos + 2]) == len);
        }
        let next = start + len;
        assert(buf.subrange(start, next) =~= first) by {
            assert forall|k: int| 0 <= k < len implies buf.subrange(start, next)[k] == first[k] by {
                assert(buf.subrange(start, next)[k] == buf.subrange(pos, end)[start - pos + k]);
            }
        }
        assert(buf.subrange(next, end) =~= combined_body(rest)) by {
            assert forall|k: int| 0 <= k < end - next implies buf.subrange(next, end)[k]
                == combined_body(rest)[k] by {
                assert(buf.subrange(next, end)[k] == buf.subrange(pos, end)[frame.len() + k]);
            }
        }
        assert(framable_subs(rest)) by {
            assert forall|i: int| 0 <= i < rest.len() implies 0 < #[trigger] rest[i].len() <= 0xFFFF by {
                assert(rest[i] == subs[i + 1]);
            }
        }
        lemma_walk_body(buf, next, rest);
        let tail = combined_walk(buf, next, end)->0;
        let whole = walk->0;
        assert(whole == seq![whole[0]] + tail);
        assert(whole[0].offset == start && whole[0].length == len);
        let f = |s: SubPacket| buf.subrange(s.offset as int, s.offset + s.length);
        assert(whole.map_values(f) =~= subs) by {
            assert forall|k: int| 0 <= k < subs.len() implies whole.map_values(f)[k] == subs[k] by {
                if k > 0 {
                    assert(whole[k] == tail[k - 1]);
                    assert(tail.map_values(f)[k - 1] == rest[k - 1]);
                }
            }
        }
    }
}

/// Splitting a combined packet gives back the sub-packets it was built from,
/// provided none is empty and each fits the extended length field.
pub proof fn law_split_inverts_build(subs: Seq<Seq<u8>>)
    requires
        framable_subs(subs),
        2 + combined_body(subs).len() <= usize::MAX,
    ensures
        spec_split_combined(be16_bytes(TransportOp::Combined.spec_code()) + combined_body(subs))
            == subs,
{
    let buf = be16_bytes(TransportOp::Combined.spec_code()) + combined_body(subs);
    assert(buf.subrange(2, buf.len() as int) =~= combined_body(subs));
    lemma_walk_body(buf, 2, subs);
}

} // verus!
