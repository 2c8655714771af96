//! Decoding of protobuf messages field by field: the loop over field keys,
//! and the readers of string, nested-message and unknown fields.
use vstd::prelude::*;
use vstd::utf8::*;

use crate::wire::{
    decode_delimited, decode_key_spec, delimited_field, delimited_spec, encode_delimited, key_bytes,
    lemma_delimited_roundtrip, lemma_key_roundtrip, lemma_varint_roundtrip, skip_field_spec,
    varint_bytes, WIRE_LEN, WIRE_VARINT,
};

verus! {

/// The message that results from merging the fields encoded in `s` into `m`,
/// one after the other; `step` reads one field's payload, given the message so
/// far, the field number, the wire type, the bytes after the key and the
/// nesting depth left, and says what the message becomes and how many bytes
/// the payload takes.
pub open spec fn merge_fields<M>(
    m: M,
    s: Seq<u8>,
    depth: nat,
    step: spec_fn(M, u32, u8, Seq<u8>, nat) -> Option<(M, nat)>,
) -> Option<M>
    decreases s.len(),
{
    if s.len() == 0 {
        Some(m)
    } else {
        match decode_key_spec(s) {
            Some((tag, wire_type, n)) => match step(m, tag, wire_type, s.skip(n as int), depth) {
                Some((next, used)) => if 0 < n && n + used <= s.len() {
                    merge_fields(next, s.skip((n + used) as int), depth, step)
                } else {
                    None
                },
                None => None,
            },
            None => None,
        }
    }
}

/// A string field's payload at the start of `rest`: the text and the bytes it
/// takes. The payload must be length-delimited and valid UTF-8.
pub open spec fn string_step(wire_type: u8, rest: Seq<u8>) -> Option<(Seq<char>, nat)> {
    if wire_type != WIRE_LEN {
        None
    } else {
        match delimited_spec(rest) {
            Some((p, used)) => if valid_utf8(p) {
                Some((decode_utf8(p), used))
            } else {
                None
            },
            None => None,
        }
    }
}

/// A nested message's payload at the start of `rest`, merged into `into`:
/// the merged message and the bytes the payload takes. One level of nesting
/// is spent.
pub open spec fn message_step<M>(
    wire_type: u8,
    rest: Seq<u8>,
    depth: nat,
    into: M,
    merge: spec_fn(M, Seq<u8>, nat) -> Option<M>,
) -> Option<(M, nat)> {
    if wire_type != WIRE_LEN || depth == 0 {
        None
    } else {
        match delimited_spec(rest) {
            Some((p, used)) => match merge(into, p, (depth - 1) as nat) {
                Some(x) => Some((x, used)),
                None => None,
            },
            None => None,
        }
    }
}

/// A field the message does not know is skipped and leaves it unchanged.
pub open spec fn unknown_step<M>(m: M, tag: u32, wire_type: u8, rest: Seq<u8>, depth: nat) -> Option<
    (M, nat),
> {
    match skip_field_spec(wire_type, tag, rest, depth) {
        Some(used) => Some((m, used)),
        None => None,
    }
}

/// A string field as a message writes it: nothing for the empty string,
/// else a length-delimited field holding its UTF-8 bytes.
pub open spec fn string_field(tag: nat, value: Seq<char>) -> Seq<u8> {
    if value.len() == 0 {
        seq![]
    } else {
        delimited_field(tag, encode_utf8(value))
    }
}

/// An optional nested message as a message writes it.
pub open spec fn optional_field<V>(tag: nat, value: Option<V>, encode: spec_fn(V) -> Seq<u8>) -> Seq<
    u8,
> {
    match value {
        Some(v) => delimited_field(tag, encode(v)),
        None => seq![],
    }
}

/// A repeated nested message as a message writes it: one field per element,
/// in order.
pub open spec fn repeated_field<V>(tag: nat, values: Seq<V>, encode: spec_fn(V) -> Seq<u8>) -> Seq<
    u8,
>
    decreases values.len(),
{
    if values.len() == 0 {
        seq![]
    } else {
        repeated_field(tag, values.drop_last(), encode) + delimited_field(tag, encode(values.last()))
    }
}

/// Merging a length-delimited field whose payload `step` reads takes exactly
/// that field off the input.
pub proof fn lemma_merge_delimited_field<M>(
    m: M,
    next: M,
    tag: u32,
    payload: Seq<u8>,
    rest: Seq<u8>,
    depth: nat,
    step: spec_fn(M, u32, u8, Seq<u8>, nat) -> Option<(M, nat)>,
)
    requires
        1 <= tag <= 0x1fff_ffff,
        payload.len() <= u64::MAX,
        step(m, tag, WIRE_LEN, varint_bytes(payload.len()) + payload + rest, depth) == Some(
            (next, varint_bytes(payload.len()).len() + payload.len()),
        ),
    ensures
        merge_fields(m, delimited_field(tag as nat, payload) + rest, depth, step) == merge_fields(
            next,
            rest,
            depth,
            step,
        ),
{
    let body = varint_bytes(payload.len()) + payload + rest;
    let kb = key_bytes(tag as nat, WIRE_LEN as nat);
    let s = delimited_field(tag as nat, payload) + rest;
    assert(s =~= kb + body);
    lemma_key_roundtrip(tag, WIRE_LEN, body);
    assert(s.skip(kb.len() as int) =~= body);
    let used = varint_bytes(payload.len()).len() + payload.len();
    assert(s.skip((kb.len() + used) as int) =~= rest);
}

/// Merging a field that `step` passes over takes exactly that field off the
/// input and leaves the message as it was.
pub proof fn lemma_merge_skipped_field<M>(
    m: M,
    tag: u32,
    wire_type: u8,
    payload: Seq<u8>,
    rest: Seq<u8>,
    depth: nat,
    step: spec_fn(M, u32, u8, Seq<u8>, nat) -> Option<(M, nat)>,
)
    requires
        1 <= tag <= 0x1fff_ffff,
        wire_type <= 5,
        step(m, tag, wire_type, payload + rest, depth) == Some((m, payload.len())),
    ensures
        merge_fields(m, key_bytes(tag as nat, wire_type as nat) + payload + rest, depth, step)
            == merge_fields(m, rest, depth, step),
{
    let kb = key_bytes(tag as nat, wire_type as nat);
    let s = kb + payload + rest;
    assert(s =~= kb + (payload + rest));
    lemma_key_roundtrip(tag, wire_type, payload + rest);
    assert(s.skip(kb.len() as int) =~= payload + rest);
    assert(s.skip((kb.len() + payload.len()) as int) =~= rest);
}

/// An unknown varint field is skipped whole.
pub proof fn lemma_skip_varint_field(tag: u32, value: u64, rest: Seq<u8>, depth: nat)
    requires
        depth >= 1,
    ensures
        skip_field_spec(WIRE_VARINT, tag, varint_bytes(value as nat) + rest, depth) == Some(
            varint_bytes(value as nat).len(),
        ),
{
    lemma_varint_roundtrip(value, rest);
}

/// An unknown length-delimited field is skipped whole.
pub proof fn lemma_skip_delimited_field(tag: u32, payload: Seq<u8>, rest: Seq<u8>, depth: nat)
    requires
        depth >= 1,
        payload.len() <= u64::MAX,
    ensures
        skip_field_spec(WIRE_LEN, tag, varint_bytes(payload.len()) + payload + rest, depth) == Some(
            varint_bytes(payload.len()).len() + payload.len(),
        ),
{
    lemma_delimited_roundtrip(payload, rest);
}

/// A string written as a field is read back as the same text.
pub proof fn lemma_string_step(value: Seq<char>, rest: Seq<u8>)
    requires
        encode_utf8(value).len() <= u64::MAX,
    ensures
        string_step(WIRE_LEN, varint_bytes(encode_utf8(value).len()) + encode_utf8(value) + rest)
            == Some((value, varint_bytes(encode_utf8(value).len()).len() + encode_utf8(value).len())),
{
    lemma_delimited_roundtrip(encode_utf8(value), rest);
    encode_utf8_valid_utf8(value);
    encode_utf8_decode_utf8(value);
}

/// A nested message written as a field is read back through its own merge.
pub proof fn lemma_message_step<M>(
    payload: Seq<u8>,
    rest: Seq<u8>,
    depth: nat,
    into: M,
    result: M,
    merge: spec_fn(M, Seq<u8>, nat) -> Option<M>,
)
    requires
        payload.len() <= u64::MAX,
        depth >= 1,
        merge(into, payload, (depth - 1) as nat) == Some(result),
    ensures
        message_step(WIRE_LEN, varint_bytes(payload.len()) + payload + rest, depth, into, merge)
            == Some((result, varint_bytes(payload.len()).len() + payload.len())),
{
    lemma_delimited_roundtrip(payload, rest);
}

/// `std::str::from_utf8`: the text whose UTF-8 encoding is `bytes`, when
/// `bytes` is valid UTF-8.
#[verifier::external_body]
pub(crate) fn str_from_utf8(bytes: &[u8]) -> (res: Option<&str>)
    ensures
        res is Some <==> valid_utf8(bytes@),
        res matches Some(s) ==> encode_utf8(s@) == bytes@,
{
    match std::str::from_utf8(bytes) {
        Ok(s) => Some(s),
        Err(_) => None,
    }
}

/// Reads a string field's payload at `buf[pos..end]`.
pub fn decode_string(wire_type: u8, buf: &[u8], pos: usize, end: usize) -> (res: Option<(String, usize)>)
    requires
        pos <= end <= buf@.len(),
    ensures
        res is Some <==> string_step(wire_type, buf@.subrange(pos as int, end as int)) is Some,
        res matches Some((v, used)) ==> string_step(wire_type, buf@.subrange(pos as int, end as int))
            == Some((v@, used as nat)) && used <= end - pos,
{
    if wire_type != WIRE_LEN {
        return None;
    }
    match decode_delimited(buf, pos, end) {
        None => None,
        Some((start, stop)) => {
            let bytes = vstd::slice::slice_subrange(buf, start, stop);
            match str_from_utf8(bytes) {
                None => None,
                Some(s) => {
                    proof {
                        encode_utf8_decode_utf8(s@);
                    }
                    Some((String::from_str(s), stop - pos))
                },
            }
        },
    }
}

/// Appends a string field to `out`, unless the string is empty.
pub fn encode_string(tag: u32, value: &String, out: &mut Vec<u8>)
    requires
        1 <= tag <= 0x1fff_ffff,
    ensures
        final(out)@ == old(out)@ + string_field(tag as nat, value@),
{
    let s = value.as_str();
    if s.is_empty() {
        assert(final(out)@ =~= old(out)@ + string_field(tag as nat, value@));
    } else {
        let bytes = s.as_bytes();
        encode_delimited(tag, bytes, out);
    }
}

} // verus!
