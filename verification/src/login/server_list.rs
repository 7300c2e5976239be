//! Login server-list parsing and encoding.

use crate::login::login::{lemma_encoding_has_no_zero_byte, no_nul_chars, AppOp};
use crate::text::{decoded_text, string_from_utf8_lossy};
use crate::wire::{
    le16_bytes, le32_bytes, le_u32, lemma_nul_index, nul_index, nul_position, push_all, push_le16,
    push_le32, read_be_u32,
};
use vstd::prelude::*;
use vstd::utf8::encode_utf8;

verus! {

/// One world advertised by an EQEmu-compatible login server.
#[derive(Debug, Clone, PartialEq, Eq)]
pub struct ServerEntry {
    /// World server address as advertised by the login server.
    pub ip: String,
    /// Stable list identifier used by selection requests.
    pub list_id: u32,
    /// Runtime world identifier.
    pub runtime_id: u32,
    /// Display name shown to clients.
    pub name: String,
    /// Advertised language label.
    pub language: String,
    /// Advertised region label.
    pub region: String,
    /// Raw availability status.
    pub status: u32,
    /// Advertised online player count.
    pub player_count: u32,
    /// Encoded entry as received, used for lossless filtering and rebuilding.
    pub raw: Vec<u8>,
}

/// The contents of a server entry as text, numbers, and bytes.
pub struct ServerEntryView {
    /// World server address.
    pub ip: Seq<char>,
    /// Stable list identifier.
    pub list_id: u32,
    /// Runtime world identifier.
    pub runtime_id: u32,
    /// Display name.
    pub name: Seq<char>,
    /// Language label.
    pub language: Seq<char>,
    /// Region label.
    pub region: Seq<char>,
    /// Availability status.
    pub status: u32,
    /// Online player count.
    pub player_count: u32,
    /// Encoded entry bytes.
    pub raw: Seq<u8>,
}

impl View for ServerEntry {
    type V = ServerEntryView;

    open spec fn view(&self) -> ServerEntryView {
        ServerEntryView {
            ip: self.ip@,
            list_id: self.list_id,
            runtime_id: self.runtime_id,
            name: self.name@,
            language: self.language@,
            region: self.region@,
            status: self.status,
            player_count: self.player_count,
            raw: self.raw@,
        }
    }
}

/// A little-endian `u32` at `pos` and the position after it.
pub open spec fn spec_read_u32(data: Seq<u8>, pos: int) -> Option<(u32, int)> {
    if 0 <= pos && pos + 4 <= data.len() {
        Some((le_u32(data[pos], data[pos + 1], data[pos + 2], data[pos + 3]), pos + 4))
    } else {
        None
    }
}

/// The NUL-terminated bytes at `pos` and the position after the NUL.
pub open spec fn spec_read_cstr(data: Seq<u8>, pos: int) -> Option<(Seq<u8>, int)> {
    let rest = data.skip(pos);
    if 0 <= pos <= data.len() && nul_index(rest) < rest.len() {
        Some((rest.take(nul_index(rest)), pos + nul_index(rest) + 1))
    } else {
        None
    }
}

/// The server entry encoded at `pos` and the position after it: address,
/// list id, runtime id, name, language, region, status, and player count.
pub open spec fn spec_parse_entry(data: Seq<u8>, pos: int) -> Option<(ServerEntryView, int)> {
    match spec_read_cstr(data, pos) {
        None => None,
        Some((ip, p1)) => match spec_read_u32(data, p1) {
            None => None,
            Some((list_id, p2)) => match spec_read_u32(data, p2) {
                None => None,
                Some((runtime_id, p3)) => match spec_read_cstr(data, p3) {
                    None => None,
                    Some((name, p4)) => match spec_read_cstr(data, p4) {
                        None => None,
                        Some((language, p5)) => match spec_read_cstr(data, p5) {
                            None => None,
                            Some((region, p6)) => match spec_read_u32(data, p6) {
                                None => None,
                                Some((status, p7)) => match spec_read_u32(data, p7) {
                                    None => None,
                                    Some((player_count, p8)) => Some(
                                        (
                                            ServerEntryView {
                                                ip: decoded_text(ip),
                                                list_id,
                                                runtime_id,
                                                name: decoded_text(name),
                                                language: decoded_text(language),
                                                region: decoded_text(region),
                                                status,
                                                player_count,
                                                raw: data.subrange(pos, p8),
                                            },
                                            p8,
                                        ),
                                    ),
                                },
                            },
                        },
                    },
                },
            },
        },
    }
}

/// Up to `remaining` entries decoded from `pos` on, stopping at the end of the
/// data or at the first entry that is cut short.
pub open spec fn spec_parse_entries(data: Seq<u8>, pos: int, remaining: nat) -> Seq<
    ServerEntryView,
>
    decreases remaining,
{
    if remaining == 0 || pos >= data.len() {
        Seq::empty()
    } else {
        match spec_parse_entry(data, pos) {
            None => Seq::empty(),
            Some((e, next)) => seq![e] + spec_parse_entries(data, next, (remaining - 1) as nat),
        }
    }
}

/// The entries and 16-byte header of a server-list payload, or `None` when it
/// is shorter than twenty bytes.
pub open spec fn spec_parse_server_list(app_payload: Seq<u8>) -> Option<
    (Seq<ServerEntryView>, Seq<u8>),
> {
    if app_payload.len() < 20 {
        None
    } else {
        let data = app_payload.skip(2);
        let count = le_u32(data[16], data[17], data[18], data[19]);
        Some((spec_parse_entries(data, 20, count as nat), data.take(16)))
    }
}

/// Read a little-endian `u32` at `*pos` and advance past it.
fn read_u32_le(data: &[u8], pos: &mut usize) -> (r: Option<u32>)
    requires
        *old(pos) <= data@.len(),
    ensures
        match spec_read_u32(data@, *old(pos) as int) {
            Some((v, next)) => r == Some(v) && *final(pos) == next,
            None => r is None && *final(pos) == *old(pos),
        },
        *old(pos) <= *final(pos) <= data@.len(),
{
    if data.len() - *pos < 4 {
        return None;
    }
    let p = *pos;
    let v = read_be_u32(data[p + 3], data[p + 2], data[p + 1], data[p]);
    *pos = p + 4;
    Some(v)
}

/// Read NUL-terminated text at `*pos` and advance past its NUL.
fn read_cstr(data: &[u8], pos: &mut usize) -> (r: Option<String>)
    requires
        *old(pos) <= data@.len(),
    ensures
        match spec_read_cstr(data@, *old(pos) as int) {
            Some((bytes, next)) => r matches Some(s) && s@ == decoded_text(bytes) && *final(pos)
                == next,
            None => r is None && *final(pos) == *old(pos),
        },
        *old(pos) <= *final(pos) <= data@.len(),
{
    let start = *pos;
    let rest = &data[start..data.len()];
    assert(rest@ =~= data@.skip(start as int));
    let len = nul_position(rest);
    if len == rest.len() {
        return None;
    }
    let s = string_from_utf8_lossy(&rest[0..len]);
    *pos = start + len + 1;
    Some(s)
}

/// Parse a server-list response and retain its opaque 16-byte header.
pub fn parse_server_list(app_payload: &[u8]) -> (r: Option<(Vec<ServerEntry>, [u8; 16])>)
    requires
        !(20 <= app_payload@.len() < 22),
    ensures
        match spec_parse_server_list(app_payload@) {
            None => r is None,
            Some((entries, header)) => r matches Some((servers, h)) && servers@.map_values(
                |e: ServerEntry| e@,
            ) == entries && h@ == header,
        },
{
    if app_payload.len() < 20 {
        return None;
    }
    let data = &app_payload[2..app_payload.len()];
    assert(data@ =~= app_payload@.skip(2));
    let header: [u8; 16] = [
        data[0],
        data[1],
        data[2],
        data[3],
        data[4],
        data[5],
        data[6],
        data[7],
        data[8],
        data[9],
        data[10],
        data[11],
        data[12],
        data[13],
        data[14],
        data[15],
    ];
    assert(header@ =~= data@.take(16));
    let count = read_be_u32(data[19], data[18], data[17], data[16]) as usize;
    let ghost total = spec_parse_entries(data@, 20, count as nat);
    let mut pos: usize = 20;
    let mut servers: Vec<ServerEntry> = Vec::new();
    loop
        invariant_except_break
            pos <= data@.len(),
            servers@.len() <= count,
            total == servers@.map_values(|e: ServerEntry| e@) + spec_parse_entries(
                data@,
                pos as int,
                (count - servers@.len()) as nat,
            ),
        ensures
            total == servers@.map_values(|e: ServerEntry| e@),
        decreases count - servers@.len(),
    {
        let ghost done = servers@.map_values(|e: ServerEntry| e@);
        if !(pos < data.len() && servers.len() < count) {
            assert(done + Seq::<ServerEntryView>::empty() =~= done);
            break;
        }
        let start = pos;
        let mut p = pos;
        let ip = match read_cstr(data, &mut p) {
            Some(s) => s,
            None => {
                assert(done + Seq::<ServerEntryView>::empty() =~= done);
                break;
            },
        };
        let list_id = match read_u32_le(data, &mut p) {
            Some(v) => v,
            None => {
                assert(done + Seq::<ServerEntryView>::empty() =~= done);
                break;
            },
        };
        let runtime_id = match read_u32_le(data, &mut p) {
            Some(v) => v,
            None => {
                assert(done + Seq::<ServerEntryView>::empty() =~= done);
                break;
            },
        };
        let name = match read_cstr(data, &mut p) {
            Some(s) => s,
            None => {
                assert(done + Seq::<ServerEntryView>::empty() =~= done);
                break;
            },
        };
        let language = match read_cstr(data, &mut p) {
            Some(s) => s,
            None => {
                assert(done + Seq::<ServerEntryView>::empty() =~= done);
                break;
            },
        };
        let region = match read_cstr(data, &mut p) {
            Some(s) => s,
            None => {
                assert(done + Seq::<ServerEntryView>::empty() =~= done);
                break;
            },
        };
        let status = match read_u32_le(data, &mut p) {
            Some(v) => v,
            None => {
                assert(done + Seq::<ServerEntryView>::empty() =~= done);
                break;
            },
        };
        let player_count = match read_u32_le(data, &mut p) {
            Some(v) => v,
            None => {
                assert(done + Seq::<ServerEntryView>::empty() =~= done);
                break;
            },
        };
        let mut raw: Vec<u8> = Vec::new();
        push_all(&mut raw, &data[start..p]);
        let entry = ServerEntry {
            ip,
            list_id,
            runtime_id,
            name,
            language,
            region,
            status,
            player_count,
            raw,
        };
        assert(spec_parse_entry(data@, start as int) == Some((entry@, p as int)));
        servers.push(entry);
        assert(servers@.map_values(|e: ServerEntry| e@) =~= done.push(entry@));
        assert(done + spec_parse_entries(data@, start as int, (count - done.len()) as nat)
            =~= servers@.map_values(|e: ServerEntry| e@) + spec_parse_entries(
            data@,
            p as int,
            (count - servers@.len()) as nat,
        ));
        pos = p;
    }
    Some((servers, header))
}

/// The concatenated raw encodings of `entries`, in order.
pub open spec fn concat_raw(entries: Seq<ServerEntryView>) -> Seq<u8>
    decreases entries.len(),
{
    if entries.len() == 0 {
        Seq::empty()
    } else {
        entries[0].raw + concat_raw(entries.drop_first())
    }
}

/// The entry count written on the wire, saturated to the `u32` range.
pub open spec fn wire_count(n: nat) -> u32 {
    if n > u32::MAX {
        u32::MAX
    } else {
        n as u32
    }
}

/// A server-list response for `entries` after the 16-byte `header`.
pub open spec fn spec_server_list_response(entries: Seq<ServerEntryView>, header: Seq<u8>) -> Seq<
    u8,
> {
    le16_bytes(AppOp::ServerListResponse.spec_code()) + header + le32_bytes(
        wire_count(entries.len()),
    ) + concat_raw(entries)
}

/// Appending an entry appends its raw encoding.
proof fn lemma_concat_raw_push(entries: Seq<ServerEntryView>, e: ServerEntryView)
    ensures
        concat_raw(entries.push(e)) == concat_raw(entries) + e.raw,
    decreases entries.len(),
{
    if entries.len() == 0 {
        reveal_with_fuel(concat_raw, 2);
        assert(entries.push(e).drop_first() =~= Seq::<ServerEntryView>::empty());
        assert(concat_raw(entries.push(e)) =~= e.raw);
    } else {
        lemma_concat_raw_push(entries.drop_first(), e);
        assert(entries.push(e).drop_first() =~= entries.drop_first().push(e));
        assert(concat_raw(entries.push(e)) =~= concat_raw(entries) + e.raw);
    }
}

/// Encode a login-server list from entries retaining their received wire fields.
///
/// The count saturates only when the input contains more entries than the wire's
/// `u32` count can represent, a collection too large for practical packet use.
pub fn build_server_list_response(servers: &[ServerEntry], header_bytes: &[u8; 16]) -> (out: Vec<
    u8,
>)
    ensures
        out@ == spec_server_list_response(
            servers@.map_values(|e: ServerEntry| e@),
            header_bytes@,
        ),
{
    let ghost entries = servers@.map_values(|e: ServerEntry| e@);
    let mut out: Vec<u8> = Vec::new();
    push_le16(&mut out, AppOp::ServerListResponse.code());
    push_all(&mut out, header_bytes.as_slice());
    let count: u32 = if servers.len() > 0xFFFF_FFFF {
        0xFFFF_FFFF
    } else {
        servers.len() as u32
    };
    push_le32(&mut out, count);
    let ghost prefix = out@;
    let mut i: usize = 0;
    while i < servers.len()
        invariant
            i <= servers@.len(),
            entries == servers@.map_values(|e: ServerEntry| e@),
            out@ == prefix + concat_raw(entries.take(i as int)),
        decreases servers@.len() - i,
    {
        push_all(&mut out, servers[i].raw.as_slice());
        proof {
            lemma_concat_raw_push(entries.take(i as int), entries[i as int]);
            assert(entries.take(i as int).push(entries[i as int]) =~= entries.take(i + 1));
        }
        i += 1;
        assert(out@ =~= prefix + concat_raw(entries.take(i as int)));
    }
    assert(entries.take(i as int) =~= entries);
    assert(prefix =~= le16_bytes(AppOp::ServerListResponse.spec_code()) + header_bytes@
        + le32_bytes(wire_count(entries.len())));
    out
}

/// The canonical encoding of an entry's fields: NUL-terminated texts and
/// little-endian numbers in wire order.
pub open spec fn encode_entry_fields(e: ServerEntryView) -> Seq<u8> {
    encode_utf8(e.ip) + seq![0u8] + le32_bytes(e.list_id) + le32_bytes(e.runtime_id)
        + encode_utf8(e.name) + seq![0u8] + encode_utf8(e.language) + seq![0u8]
        + encode_utf8(e.region) + seq![0u8] + le32_bytes(e.status) + le32_bytes(e.player_count)
}

/// Whether an entry's raw bytes are the canonical encoding of its NUL-free fields.
pub open spec fn is_canonical_entry(e: ServerEntryView) -> bool {
    &&& no_nul_chars(e.ip)
    &&& no_nul_chars(e.name)
    &&& no_nul_chars(e.language)
    &&& no_nul_chars(e.region)
    &&& e.raw == encode_entry_fields(e)
}

/// Reading NUL-terminated text that was written as UTF-8 gives it back.
proof fn lemma_read_written_text(data: Seq<u8>, pos: int, text: Seq<char>)
    requires
        no_nul_chars(text),
        0 <= pos,
        pos + encode_utf8(text).len() < data.len(),
        data.subrange(pos, pos + encode_utf8(text).len()) == encode_utf8(text),
        data[pos + encode_utf8(text).len()] == 0,
    ensures
        spec_read_cstr(data, pos) matches Some((bytes, next)) && decoded_text(bytes) == text
            && next == pos + encode_utf8(text).len() + 1,
{
    let enc = encode_utf8(text);
    let rest = data.skip(pos);
    lemma_encoding_has_no_zero_byte(text);
    assert forall|j: int| 0 <= j < enc.len() implies rest[j] != 0 by {
        assert(rest[j] == data.subrange(pos, pos + enc.len())[j]);
    }
    lemma_nul_index(rest, enc.len() as int);
    assert(rest.take(enc.len() as int) =~= enc) by {
        assert forall|j: int| 0 <= j < enc.len() implies rest.take(enc.len() as int)[j]
            == enc[j] by {
            assert(rest[j] == data.subrange(pos, pos + enc.len())[j]);
        }
    }
    vstd::utf8::encode_utf8_valid_utf8(text);
    vstd::utf8::encode_utf8_decode_utf8(text);
}

/// Reading a little-endian `u32` that was written gives it back.
proof fn lemma_read_written_u32(data: Seq<u8>, pos: int, v: u32)
    requires
        0 <= pos,
        pos + 4 <= data.len(),
        data.subrange(pos, pos + 4) == le32_bytes(v),
    ensures
        spec_read_u32(data, pos) == Some((v, pos + 4)),
{
    crate::wire::lemma_32_roundtrip(v);
    assert(data[pos] == data.subrange(pos, pos + 4)[0]);
    assert(data[pos + 1] == data.subrange(pos, pos + 4)[1]);
    assert(data[pos + 2] == data.subrange(pos, pos + 4)[2]);
    assert(data[pos + 3] == data.subrange(pos, pos + 4)[3]);
}

/// A canonical entry written at `pos` is read back whole.
proof fn lemma_parse_written_entry(data: Seq<u8>, pos: int, e: ServerEntryView)
    requires
        is_canonical_entry(e),
        0 <= pos,
        pos + e.raw.len() <= data.len(),
        data.subrange(pos, pos + e.raw.len()) == e.raw,
    ensures
        spec_parse_entry(data, pos) == Some((e, pos + e.raw.len())),
{
    let a = encode_utf8(e.ip);
    let n = encode_utf8(e.name);
    let l = encode_utf8(e.language);
    let r = encode_utf8(e.region);
    let p1 = pos + a.len() + 1;
    let p2 = p1 + 4;
    let p3 = p2 + 4;
    let p4 = p3 + n.len() + 1;
    let p5 = p4 + l.len() + 1;
    let p6 = p5 + r.len() + 1;
    let p7 = p6 + 4;
    let p8 = p7 + 4;
    let raw = e.raw;
    assert(raw.len() == p8 - pos);
    assert forall|i: int| pos <= i < p8 implies data[i] == raw[i - pos] by {
        assert(data[i] == data.subrange(pos, pos + raw.len())[i - pos]);
    }
    assert(data.subrange(pos, pos + a.len()) =~= a) by {
        assert forall|j: int| 0 <= j < a.len() implies data.subrange(pos, pos + a.len())[j]
            == a[j] by {
            assert(raw[j] == a[j]);
        }
    }
    assert(data[pos + a.len()] == raw[a.len() as int]);
    lemma_read_written_text(data, pos, e.ip);
    assert(data.subrange(p1, p2) =~= le32_bytes(e.list_id)) by {
        assert forall|j: int| 0 <= j < 4 implies data.subrange(p1, p2)[j] == le32_bytes(
            e.list_id,
        )[j] by {
            assert(data[p1 + j] == raw[p1 + j - pos]);
        }
    }
    lemma_read_written_u32(data, p1, e.list_id);
    assert(data.subrange(p2, p3) =~= le32_bytes(e.runtime_id)) by {
        assert forall|j: int| 0 <= j < 4 implies data.subrange(p2, p3)[j] == le32_bytes(
            e.runtime_id,
        )[j] by {
            assert(data[p2 + j] == raw[p2 + j - pos]);
        }
    }
    lemma_read_written_u32(data, p2, e.runtime_id);
    assert(data.subrange(p3, p3 + n.len()) =~= n) by {
        assert forall|j: int| 0 <= j < n.len() implies data.subrange(p3, p3 + n.len())[j]
            == n[j] by {
            assert(data[p3 + j] == raw[p3 + j - pos]);
        }
    }
    assert(data[p3 + n.len()] == raw[p3 + n.len() - pos]);
    lemma_read_written_text(data, p3, e.name);
    assert(data.subrange(p4, p4 + l.len()) =~= l) by {
        assert forall|j: int| 0 <= j < l.len() implies data.subrange(p4, p4 + l.len())[j]
            == l[j] by {
            assert(data[p4 + j] == raw[p4 + j - pos]);
        }
    }
    assert(data[p4 + l.len()] == raw[p4 + l.len() - pos]);
    lemma_read_written_text(data, p4, e.language);
    assert(data.subrange(p5, p5 + r.len()) =~= r) by {
        assert forall|j: int| 0 <= j < r.len() implies data.subrange(p5, p5 + r.len())[j]
            == r[j] by {
            assert(data[p5 + j] == raw[p5 + j - pos]);
        }
    }
    assert(data[p5 + r.len()] == raw[p5 + r.len() - pos]);
    lemma_read_written_text(data, p5, e.region);
    assert(data.subrange(p6, p7) =~= le32_bytes(e.status)) by {
        assert forall|j: int| 0 <= j < 4 implies data.subrange(p6, p7)[j] == le32_bytes(
            e.status,
        )[j] by {
            assert(data[p6 + j] == raw[p6 + j - pos]);
        }
    }
    lemma_read_written_u32(data, p6, e.status);
    assert(data.subrange(p7, p8) =~= le32_bytes(e.player_count)) by {
        assert forall|j: int| 0 <= j < 4 implies data.subrange(p7, p8)[j] == le32_bytes(
            e.player_count,
        )[j] by {
            assert(data[p7 + j] == raw[p7 + j - pos]);
        }
    }
    lemma_read_written_u32(data, p7, e.player_count);
}

/// Canonical entries written back to back from `pos` to the end are read back in order.
proof fn lemma_parse_written_entries(data: Seq<u8>, pos: int, entries: Seq<ServerEntryView>)
    requires
        0 <= pos <= data.len(),
        forall|i: int| 0 <= i < entries.len() ==> is_canonical_entry(#[trigger] entries[i]),
        data.skip(pos) == concat_raw(entries),
    ensures
        spec_parse_entries(data, pos, entries.len()) == entries,
    decreases entries.len(),
{
    if entries.len() == 0 {
    } else {
        let e = entries[0];
        let rest = entries.drop_first();
        assert(is_canonical_entry(e));
        let next = pos + e.raw.len();
        assert(data.skip(pos) == e.raw + concat_raw(rest));
        assert(e.raw.len() >= 4);
        assert(data.subrange(pos, next) =~= e.raw) by {
            assert forall|j: int| 0 <= j < e.raw.len() implies data.subrange(pos, next)[j]
                == e.raw[j] by {
                assert(data[pos + j] == data.skip(pos)[j]);
            }
        }
        lemma_parse_written_entry(data, pos, e);
        assert(data.skip(next) =~= concat_raw(rest)) by {
            assert forall|j: int| 0 <= j < data.skip(next).len() implies data.skip(next)[j]
                == concat_raw(rest)[j] by {
                assert(data[next + j] == data.skip(pos)[e.raw.len() + j]);
            }
        }
        assert forall|i: int| 0 <= i < rest.len() implies is_canonical_entry(
            #[trigger] rest[i],
        ) by {
            assert(rest[i] == entries[i + 1]);
        }
        lemma_parse_written_entries(data, next, rest);
        assert(entries =~= seq![e] + rest);
    }
}

/// Parsing a server list built from canonical entries gives back the entries
/// and the header.
pub proof fn law_server_list_round_trip(entries: Seq<ServerEntryView>, header: Seq<u8>)
    requires
        header.len() == 16,
        entries.len() <= u32::MAX,
        forall|i: int| 0 <= i < entries.len() ==> is_canonical_entry(#[trigger] entries[i]),
    ensures
        spec_parse_server_list(spec_server_list_response(entries, header)) == Some(
            (entries, header),
        ),
{
    let payload = spec_server_list_response(entries, header);
    let data = payload.skip(2);
    let n = entries.len() as u32;
    assert(data =~= header + le32_bytes(n) + concat_raw(entries));
    crate::wire::lemma_32_roundtrip(n);
    assert(le_u32(data[16], data[17], data[18], data[19]) == n);
    assert(data.skip(20) =~= concat_raw(entries));
    lemma_parse_written_entries(data, 20, entries);
    assert(data.take(16) =~= header);
}

} // verus!
