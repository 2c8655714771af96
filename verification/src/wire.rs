//! The protobuf wire format: base-128 varints, field keys, length-delimited
//! payloads and the skipping of fields a message does not know.
use vstd::prelude::*;

verus! {

/// Wire type of varint-encoded scalars.
pub const WIRE_VARINT: u8 = 0;
/// Wire type of 8-byte scalars.
pub const WIRE_FIXED64: u8 = 1;
/// Wire type of length-delimited payloads (strings, bytes, messages).
pub const WIRE_LEN: u8 = 2;
/// Wire type that opens a group.
pub const WIRE_START_GROUP: u8 = 3;
/// Wire type that closes a group.
pub const WIRE_END_GROUP: u8 = 4;
/// Wire type of 4-byte scalars.
pub const WIRE_FIXED32: u8 = 5;

/// How many levels of nested messages and groups a decoder enters.
pub const RECURSION_LIMIT: u32 = 100;

/// The base-128 varint encoding of `v`: seven bits per byte, least
/// significant first, the high bit set on every byte but the last.
pub open spec fn varint_bytes(v: nat) -> Seq<u8>
    decreases v,
{
    if v < 128 {
        seq![v as u8]
    } else {
        seq![(v % 128 + 128) as u8] + varint_bytes(v / 128)
    }
}

/// The varint at the start of `s`, read over at most `max` bytes: its value
/// and the number of bytes it takes. Non-minimal encodings are accepted.
pub open spec fn varint_prefix(s: Seq<u8>, max: nat) -> Option<(nat, nat)>
    decreases max,
{
    if max == 0 || s.len() == 0 {
        None
    } else if s[0] < 128 {
        Some((s[0] as nat, 1))
    } else {
        match varint_prefix(s.drop_first(), (max - 1) as nat) {
            Some((v, n)) => Some((((s[0] - 128) + 128 * v) as nat, n + 1)),
            None => None,
        }
    }
}

/// The 64-bit varint at the start of `s`: at most ten bytes, and a value that
/// fits in 64 bits.
pub open spec fn decode_varint_spec(s: Seq<u8>) -> Option<(u64, nat)> {
    varint_u64_prefix(s, 10)
}

/// The key that opens a field: the field number and the wire type.
pub open spec fn key_bytes(tag: nat, wire_type: nat) -> Seq<u8> {
    varint_bytes(tag * 8 + wire_type)
}

/// The field key at the start of `s`: field number, wire type, bytes taken.
/// Keys beyond 32 bits, unknown wire types and field number 0 are refused.
pub open spec fn decode_key_spec(s: Seq<u8>) -> Option<(u32, u8, nat)> {
    match decode_varint_spec(s) {
        Some((k, n)) => if k > u32::MAX || k % 8 > 5 || k / 8 < 1 {
            None
        } else {
            Some(((k / 8) as u32, (k % 8) as u8, n))
        },
        None => None,
    }
}

/// A length-delimited payload at the start of `s`: the payload and the bytes
/// taken with its length prefix.
pub open spec fn delimited_spec(s: Seq<u8>) -> Option<(Seq<u8>, nat)> {
    match decode_varint_spec(s) {
        Some((len, n)) => if len <= s.len() - n {
            Some((s.subrange(n as int, n + len), (n + len) as nat))
        } else {
            None
        },
        None => None,
    }
}

/// A field as it is written: key, length, payload.
pub open spec fn delimited_field(tag: nat, payload: Seq<u8>) -> Seq<u8> {
    key_bytes(tag, 2) + varint_bytes(payload.len()) + payload
}

/// How many bytes the payload of an unknown field takes at the start of `s`,
/// given its wire type and field number, with `depth` levels of nesting left.
pub open spec fn skip_field_spec(wire_type: u8, tag: u32, s: Seq<u8>, depth: nat) -> Option<nat>
    decreases depth, s.len(), 1nat,
{
    if depth == 0 {
        None
    } else if wire_type == WIRE_VARINT {
        match decode_varint_spec(s) {
            Some((_, n)) => Some(n),
            None => None,
        }
    } else if wire_type == WIRE_FIXED64 {
        if 8 <= s.len() {
            Some(8)
        } else {
            None
        }
    } else if wire_type == WIRE_FIXED32 {
        if 4 <= s.len() {
            Some(4)
        } else {
            None
        }
    } else if wire_type == WIRE_LEN {
        match delimited_spec(s) {
            Some((_, n)) => Some(n),
            None => None,
        }
    } else if wire_type == WIRE_START_GROUP {
        skip_group_spec(tag, s, depth)
    } else {
        None
    }
}

/// How many bytes the rest of a group opened with field number `tag` takes
/// at the start of `s`, its closing key included.
pub open spec fn skip_group_spec(tag: u32, s: Seq<u8>, depth: nat) -> Option<nat>
    recommends
        depth > 0,
    decreases depth, s.len(), 0nat,
{
    if depth == 0 {
        None
    } else {
        match decode_key_spec(s) {
            Some((inner_tag, inner_wt, n)) => if inner_wt == WIRE_END_GROUP {
                if inner_tag == tag {
                    Some(n)
                } else {
                    None
                }
            } else {
                match skip_field_spec(inner_wt, inner_tag, s.skip(n as int), (depth - 1) as nat) {
                    Some(m) => if 0 < n && n + m <= s.len() {
                        match skip_group_spec(tag, s.skip((n + m) as int), depth) {
                            Some(r) => Some(n + m + r),
                            None => None,
                        }
                    } else {
                        None
                    },
                    None => None,
                }
            },
            None => None,
        }
    }
}

// ---------------------------------------------------------------------------
// Facts about the specifications.

/// `128^k`.
pub open spec fn pow128(k: nat) -> nat
    decreases k,
{
    if k == 0 {
        1
    } else {
        128 * pow128((k - 1) as nat)
    }
}

proof fn lemma_varint_len(v: nat, k: nat)
    requires
        v < pow128(k),
        k >= 1,
    ensures
        varint_bytes(v).len() <= k,
    decreases k,
{
    if v >= 128 {
        assert(v / 128 < pow128((k - 1) as nat)) by {
            assert(k >= 2) by {
                if k == 1 {
                    reveal_with_fuel(pow128, 2);
                }
            }
        }
        lemma_varint_len(v / 128, (k - 1) as nat);
    }
}

/// A 64-bit value takes between one and ten bytes.
pub proof fn lemma_varint_len_u64(v: nat)
    requires
        v <= u64::MAX,
    ensures
        1 <= varint_bytes(v).len() <= 10,
{
    reveal_with_fuel(pow128, 11);
    assert(pow128(10) == 1180591620717411303424nat);
    lemma_varint_len(v, 10);
}

/// Reading a varint back gives the value it encodes and the length it takes.
pub proof fn lemma_varint_prefix_roundtrip(v: nat, rest: Seq<u8>, max: nat)
    requires
        varint_bytes(v).len() <= max,
    ensures
        varint_prefix(varint_bytes(v) + rest, max) == Some((v, varint_bytes(v).len())),
    decreases v,
{
    let s = varint_bytes(v) + rest;
    if v < 128 {
        assert(s[0] == v as u8);
    } else {
        let b = (v % 128 + 128) as u8;
        assert(s[0] == b);
        assert(s.drop_first() =~= varint_bytes(v / 128) + rest);
        lemma_varint_prefix_roundtrip(v / 128, rest, (max - 1) as nat);
    }
}

/// A 64-bit value written as a varint is read back whole.
pub proof fn lemma_varint_roundtrip(v: u64, rest: Seq<u8>)
    ensures
        decode_varint_spec(varint_bytes(v as nat) + rest) == Some((v, varint_bytes(v as nat).len())),
{
    lemma_varint_len_u64(v as nat);
    lemma_varint_prefix_roundtrip(v as nat, rest, 10);
}

/// A field key written for a valid field number and wire type is read back.
pub proof fn lemma_key_roundtrip(tag: u32, wire_type: u8, rest: Seq<u8>)
    requires
        1 <= tag <= 0x1fff_ffff,
        wire_type <= 5,
    ensures
        decode_key_spec(key_bytes(tag as nat, wire_type as nat) + rest) == Some(
            (tag, wire_type, key_bytes(tag as nat, wire_type as nat).len()),
        ),
{
    let k = tag * 8 + wire_type;
    assert(k <= u32::MAX);
    lemma_varint_roundtrip(k as u64, rest);
    assert(k % 8 == wire_type as int);
    assert(k / 8 == tag as int);
}

/// A length-delimited field is read back as its payload.
pub proof fn lemma_delimited_roundtrip(payload: Seq<u8>, rest: Seq<u8>)
    requires
        payload.len() <= u64::MAX,
    ensures
        delimited_spec(varint_bytes(payload.len()) + payload + rest) == Some(
            (payload, varint_bytes(payload.len()).len() + payload.len()),
        ),
{
    let s = varint_bytes(payload.len()) + payload + rest;
    assert(s =~= varint_bytes(payload.len() as u64 as nat) + (payload + rest));
    lemma_varint_roundtrip(payload.len() as u64, payload + rest);
    let n = varint_bytes(payload.len()).len();
    assert(s.subrange(n as int, (n + payload.len()) as int) =~= payload);
}

// ---------------------------------------------------------------------------
// Executable encoding and decoding.

/// Appends the varint encoding of `v` to `out`.
pub fn encode_varint(v: u64, out: &mut Vec<u8>)
    ensures
        final(out)@ == old(out)@ + varint_bytes(v as nat),
    decreases v,
{
    if v < 128 {
        out.push(v as u8);
        assert(final(out)@ =~= old(out)@ + varint_bytes(v as nat));
    } else {
        out.push((v % 128 + 128) as u8);
        let ghost mid = out@;
        encode_varint(v / 128, out);
        assert(final(out)@ =~= old(out)@ + varint_bytes(v as nat));
    }
}

/// Appends the key of field `tag` with wire type `wire_type` to `out`.
pub fn encode_key(tag: u32, wire_type: u8, out: &mut Vec<u8>)
    requires
        1 <= tag <= 0x1fff_ffff,
        wire_type <= 5,
    ensures
        final(out)@ == old(out)@ + key_bytes(tag as nat, wire_type as nat),
{
    encode_varint((tag as u64) * 8 + (wire_type as u64), out);
}

/// Appends `bytes` to `out`.
pub fn push_all(bytes: &[u8], out: &mut Vec<u8>)
    ensures
        final(out)@ == old(out)@ + bytes@,
{
    let mut i: usize = 0;
    while i < bytes.len()
        invariant
            i <= bytes@.len(),
            out@ == old(out)@ + bytes@.subrange(0, i as int),
        decreases bytes@.len() - i,
    {
        out.push(bytes[i]);
        assert(bytes@.subrange(0, i + 1) =~= bytes@.subrange(0, i as int).push(bytes@[i as int]));
        i = i + 1;
    }
    assert(bytes@.subrange(0, i as int) =~= bytes@);
}

/// Appends a length-delimited field with the given payload to `out`.
pub fn encode_delimited(tag: u32, payload: &[u8], out: &mut Vec<u8>)
    requires
        1 <= tag <= 0x1fff_ffff,
    ensures
        final(out)@ == old(out)@ + delimited_field(tag as nat, payload@),
{
    encode_key(tag, WIRE_LEN, out);
    encode_varint(payload.len() as u64, out);
    push_all(payload, out);
    assert(final(out)@ =~= old(out)@ + delimited_field(tag as nat, payload@));
}

/// The varint at the start of `s`, read over at most `max` bytes, when its
/// value fits in 64 bits.
pub open spec fn varint_u64_prefix(s: Seq<u8>, max: nat) -> Option<(u64, nat)> {
    match varint_prefix(s, max) {
        Some((v, n)) => if v <= u64::MAX {
            Some((v as u64, n))
        } else {
            None
        },
        None => None,
    }
}

/// Reads the varint at `buf[pos..end]`, over at most `max` bytes.
fn varint_at(buf: &[u8], pos: usize, end: usize, max: u8) -> (res: Option<(u64, usize)>)
    requires
        pos <= end <= buf@.len(),
        max <= 10,
    ensures
        res is Some <==> varint_u64_prefix(buf@.subrange(pos as int, end as int), max as nat) is Some,
        res matches Some((v, n)) ==> varint_u64_prefix(buf@.subrange(pos as int, end as int), max as nat)
            == Some((v, n as nat)) && 1 <= n <= end - pos,
    decreases max,
{
    let ghost s = buf@.subrange(pos as int, end as int);
    if max == 0 || pos >= end {
        return None;
    }
    let b = buf[pos];
    if b < 128 {
        return Some((b as u64, 1));
    }
    assert(s.drop_first() =~= buf@.subrange(pos + 1, end as int));
    match varint_at(buf, pos + 1, end, max - 1) {
        None => None,
        Some((v, n)) => {
            let low = (b - 128) as u64;
            if v > (u64::MAX - low) / 128 {
                None
            } else {
                Some((low + 128 * v, n + 1))
            }
        },
    }
}

/// Reads the 64-bit varint at `buf[pos..end]`.
pub fn decode_varint(buf: &[u8], pos: usize, end: usize) -> (res: Option<(u64, usize)>)
    requires
        pos <= end <= buf@.len(),
    ensures
        res is Some <==> decode_varint_spec(buf@.subrange(pos as int, end as int)) is Some,
        res matches Some((v, n)) ==> decode_varint_spec(buf@.subrange(pos as int, end as int))
            == Some((v, n as nat)) && 1 <= n <= end - pos,
{
    varint_at(buf, pos, end, 10)
}

/// Reads the field key at `buf[pos..end]`.
pub fn decode_key(buf: &[u8], pos: usize, end: usize) -> (res: Option<(u32, u8, usize)>)
    requires
        pos <= end <= buf@.len(),
    ensures
        res is Some <==> decode_key_spec(buf@.subrange(pos as int, end as int)) is Some,
        res matches Some((t, w, n)) ==> decode_key_spec(buf@.subrange(pos as int, end as int))
            == Some((t, w, n as nat)) && 1 <= n <= end - pos,
{
    match decode_varint(buf, pos, end) {
        None => None,
        Some((k, n)) => {
            if k > 0xffff_ffff || k % 8 > 5 || k / 8 < 1 {
                None
            } else {
                Some(((k / 8) as u32, (k % 8) as u8, n))
            }
        },
    }
}

/// Reads the length prefix of a length-delimited payload at `buf[pos..end]`:
/// where the payload starts and where it ends.
pub fn decode_delimited(buf: &[u8], pos: usize, end: usize) -> (res: Option<(usize, usize)>)
    requires
        pos <= end <= buf@.len(),
    ensures
        match delimited_spec(buf@.subrange(pos as int, end as int)) {
            Some((p, n)) => res matches Some((start, stop)) && pos < start <= stop <= end
                && stop == pos + n && buf@.subrange(start as int, stop as int) == p,
            None => res is None,
        },
{
    let ghost s = buf@.subrange(pos as int, end as int);
    match decode_varint(buf, pos, end) {
        None => None,
        Some((len, n)) => {
            if len > ((end - pos - n) as u64) {
                None
            } else {
                let start = pos + n;
                let stop = start + (len as usize);
                assert(s.subrange(n as int, n + len) =~= buf@.subrange(start as int, stop as int));
                Some((start, stop))
            }
        },
    }
}

/// Skips the payload of an unknown field at `buf[pos..end]`; returns the
/// number of bytes it takes.
///
/// The nesting budget `depth` is the one left at the message being decoded.
/// `prost::encoding::skip_field` takes its budget from a `DecodeContext` that
/// only prost itself can lower below the top-level default, so a nested
/// message's unknown fields could not be skipped through it with the budget
/// that applies to them.
pub fn skip_field(wire_type: u8, tag: u32, buf: &[u8], pos: usize, end: usize, depth: u32) -> (res:
    Option<usize>)
    requires
        pos <= end <= buf@.len(),
    ensures
        res is Some <==> skip_field_spec(wire_type, tag, buf@.subrange(pos as int, end as int), depth as nat) is Some,
        res matches Some(n) ==> skip_field_spec(wire_type, tag, buf@.subrange(pos as int, end as int), depth as nat) == Some(n as nat) && n <= end - pos,
    decreases depth, end - pos, 1nat,
{
    if depth == 0 {
        None
    } else if wire_type == WIRE_VARINT {
        match decode_varint(buf, pos, end) {
            Some((_, n)) => Some(n),
            None => None,
        }
    } else if wire_type == WIRE_FIXED64 {
        if 8 <= end - pos {
            Some(8)
        } else {
            None
        }
    } else if wire_type == WIRE_FIXED32 {
        if 4 <= end - pos {
            Some(4)
        } else {
            None
        }
    } else if wire_type == WIRE_LEN {
        match decode_delimited(buf, pos, end) {
            Some((_, stop)) => Some(stop - pos),
            None => None,
        }
    } else if wire_type == WIRE_START_GROUP {
        skip_group(tag, buf, pos, end, depth)
    } else {
        None
    }
}

/// Skips the rest of a group opened with field number `tag`, closing key
/// included; returns the number of bytes it takes.
fn skip_group(tag: u32, buf: &[u8], pos: usize, end: usize, depth: u32) -> (res: Option<usize>)
    requires
        pos <= end <= buf@.len(),
    ensures
        res is Some <==> skip_group_spec(tag, buf@.subrange(pos as int, end as int), depth as nat) is Some,
        res matches Some(n) ==> skip_group_spec(tag, buf@.subrange(pos as int, end as int), depth as nat) == Some(n as nat) && n <= end - pos,
    decreases depth, end - pos, 0nat,
{
    let ghost s = buf@.subrange(pos as int, end as int);
    if depth == 0 {
        return None;
    }
    match decode_key(buf, pos, end) {
        None => None,
        Some((inner_tag, inner_wt, n)) => {
            if inner_wt == WIRE_END_GROUP {
                if inner_tag == tag {
                    Some(n)
                } else {
                    None
                }
            } else {
                assert(s.skip(n as int) =~= buf@.subrange(pos + n, end as int));
                match skip_field(inner_wt, inner_tag, buf, pos + n, end, depth - 1) {
                    None => None,
                    Some(m) => {
                        assert(s.skip(n + m) =~= buf@.subrange(pos + n + m, end as int));
                        match skip_group(tag, buf, pos + n + m, end, depth) {
                            None => None,
                            Some(r) => Some(n + m + r),
                        }
                    },
                }
            }
        },
    }
}

} // verus!
