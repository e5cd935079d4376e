//! The protobuf wire format, as far as metadata messages use it.
//!
//! Bytes are written and read by the `prost` crate. What its functions do is stated here and not
//! proved; the law that reading gives back what was written is proved from those statements.

use vstd::arithmetic::power2::{lemma2_to64, lemma2_to64_rest, lemma_pow2_adds, pow2};
use vstd::prelude::*;

verus! {

/// `prost::DecodeError`: why bytes are not a well-formed message.
#[verifier::external_type_specification]
#[verifier::external_body]
pub struct ExDecodeError(prost::DecodeError);

/// A number in LEB128: seven bits to a byte, the lowest first, with the top bit set in every byte
/// but the last.
pub open spec fn varint(value: nat) -> Seq<u8>
    decreases value,
{
    if value < 128 {
        seq![value as u8]
    } else {
        seq![(value % 128 + 128) as u8] + varint(value / 128)
    }
}

/// The number at the start of some bytes and the number of bytes that it takes, when `count` of
/// its bytes were read before. A number ends within ten bytes and fits in 64 bits.
pub open spec fn read_varint(bytes: Seq<u8>, count: nat) -> Option<(nat, nat)>
    decreases bytes.len(),
{
    if count >= 10 || bytes.len() == 0 {
        None
    } else if bytes[0] < 128 {
        if count == 9 && bytes[0] >= 2 {
            None
        } else {
            Some((bytes[0] as nat, 1))
        }
    } else {
        match read_varint(bytes.skip(1), count + 1) {
            Some((rest, n)) => Some(((bytes[0] - 128 + 128 * rest) as nat, n + 1)),
            None => None,
        }
    }
}

/// The key of a field at the start of some bytes: its tag, its wire type, and the number of bytes
/// that the key takes.
pub open spec fn read_key(bytes: Seq<u8>) -> Option<(nat, nat, nat)> {
    match read_varint(bytes, 0) {
        Some((key, n)) => if key > u32::MAX || key % 8 > 5 || key / 8 == 0 {
            None
        } else {
            Some((key / 8, key % 8, n))
        },
        None => None,
    }
}

/// How deep groups may be nested: a field at this depth is not read.
pub const MAX_DEPTH: u32 = 100;

/// The number of bytes of the value of a field of the given wire type, if they are there. The
/// value of a group is its fields and the key that ends it; `depth` is how many levels of fields
/// may still be entered.
pub open spec fn field_len(wire_type: nat, tag: nat, bytes: Seq<u8>, depth: nat) -> Option<nat>
    decreases bytes.len(), 1nat,
{
    if depth == 0 {
        None
    } else if wire_type == 0 {
        match read_varint(bytes, 0) {
            Some((_, n)) => Some(n),
            None => None,
        }
    } else if wire_type == 1 {
        if bytes.len() >= 8 { Some(8) } else { None }
    } else if wire_type == 2 {
        match read_varint(bytes, 0) {
            Some((len, n)) => if n + len <= bytes.len() { Some(n + len) } else { None },
            None => None,
        }
    } else if wire_type == 3 {
        group_len(tag, bytes, depth)
    } else if wire_type == 5 {
        if bytes.len() >= 4 { Some(4) } else { None }
    } else {
        None
    }
}

/// The number of bytes up to the end of the group with the given tag, if it ends and the fields in
/// it are well-formed.
pub open spec fn group_len(tag: nat, bytes: Seq<u8>, depth: nat) -> Option<nat>
    decreases bytes.len(), 0nat,
{
    match read_key(bytes) {
        None => None,
        Some((inner_tag, wire_type, n)) => {
            let value = bytes.skip(n as int);
            if n == 0 || n > bytes.len() || depth == 0 {
                None
            } else if wire_type == 4 {
                if inner_tag == tag { Some(n) } else { None }
            } else {
                match field_len(wire_type, inner_tag, value, (depth - 1) as nat) {
                    None => None,
                    Some(k) => if k > value.len() {
                        None
                    } else {
                        match group_len(tag, value.skip(k as int), depth) {
                            None => None,
                            Some(rest) => Some(n + k + rest),
                        }
                    },
                }
            }
        },
    }
}

/// Calls `prost::encoding::uint64::encode`, which appends the key of a field with the wire type of
/// numbers, and then the number.
#[verifier::external_body]
pub(crate) fn put_uint64(tag: u32, value: u64, buf: &mut Vec<u8>)
    requires
        1 <= tag < 0x2000_0000,
    ensures
        final(buf)@ == old(buf)@ + varint(tag as nat * 8) + varint(value as nat),
{
    prost::encoding::uint64::encode(tag, &value, buf)
}

/// Calls `prost::encoding::uint32::encode`, which appends the key of a field with the wire type of
/// numbers, and then the number.
#[verifier::external_body]
pub(crate) fn put_uint32(tag: u32, value: u32, buf: &mut Vec<u8>)
    requires
        1 <= tag < 0x2000_0000,
    ensures
        final(buf)@ == old(buf)@ + varint(tag as nat * 8) + varint(value as nat),
{
    prost::encoding::uint32::encode(tag, &value, buf)
}

/// Calls `prost::encoding::decode_key`, which takes the key of a field off the front of the bytes:
/// the tag, and the wire type as its number. What is left of the bytes after an error is not
/// stated.
#[verifier::external_body]
pub(crate) fn take_key(buf: &mut &[u8]) -> (r: Result<(u32, u8), prost::DecodeError>)
    ensures
        r is Ok <==> read_key(old(buf)@) is Some,
        r matches Ok((tag, wire_type)) ==> {
            let (t, w, n) = read_key(old(buf)@)->0;
            tag == t && wire_type == w && final(buf)@ == old(buf)@.skip(n as int)
        },
{
    prost::encoding::decode_key(buf).map(|(tag, wire_type)| (tag, wire_type as u8))
}

/// Calls `prost::encoding::decode_varint`, which takes a number off the front of the bytes. What
/// is left of the bytes after an error is not stated.
#[verifier::external_body]
pub(crate) fn take_varint(buf: &mut &[u8]) -> (r: Result<u64, prost::DecodeError>)
    ensures
        r is Ok <==> read_varint(old(buf)@, 0) is Some,
        r matches Ok(value) ==> {
            let (v, n) = read_varint(old(buf)@, 0)->0;
            value == v && final(buf)@ == old(buf)@.skip(n as int)
        },
{
    prost::encoding::decode_varint(buf)
}

/// Calls `prost::encoding::skip_field`, which takes the value of a field off the front of the
/// bytes. It enters at most [`MAX_DEPTH`] levels of fields. What is left of the bytes after an
/// error is not stated.
#[verifier::external_body]
pub(crate) fn take_field(wire_type: u8, tag: u32, buf: &mut &[u8]) -> (r: Result<
    (),
    prost::DecodeError,
>)
    requires
        wire_type <= 5,
    ensures
        r is Ok <==> field_len(wire_type as nat, tag as nat, old(buf)@, MAX_DEPTH as nat) is Some,
        r is Ok ==> final(buf)@ == old(buf)@.skip(
            field_len(wire_type as nat, tag as nat, old(buf)@, MAX_DEPTH as nat)->0 as int,
        ),
{
    let wire_type = prost::encoding::WireType::try_from(u64::from(wire_type))?;
    prost::encoding::skip_field(wire_type, tag, buf, Default::default())
}

/// A number takes at least one byte, no more than there are, and no more than ten.
pub proof fn lemma_varint_len(bytes: Seq<u8>, count: nat)
    ensures
        read_varint(bytes, count) matches Some((_, n)) ==> 1 <= n <= bytes.len() && n + count
            <= 10,
    decreases bytes.len(),
{
    if bytes.len() > 0 {
        lemma_varint_len(bytes.skip(1), count + 1);
    }
}

/// The value of a field takes no more bytes than there are.
pub proof fn lemma_field_len(wire_type: nat, tag: nat, bytes: Seq<u8>, depth: nat)
    ensures
        field_len(wire_type, tag, bytes, depth) matches Some(n) ==> n <= bytes.len(),
    decreases bytes.len(), 1nat,
{
    lemma_varint_len(bytes, 0);
    if depth > 0 && wire_type == 3 {
        lemma_group_len(tag, bytes, depth);
    }
}

/// A group takes no more bytes than there are.
proof fn lemma_group_len(tag: nat, bytes: Seq<u8>, depth: nat)
    ensures
        group_len(tag, bytes, depth) matches Some(n) ==> n <= bytes.len(),
    decreases bytes.len(), 0nat,
{
    lemma_varint_len(bytes, 0);
    if let Some((inner_tag, wire_type, n)) = read_key(bytes) {
        let value = bytes.skip(n as int);
        if n > 0 && depth > 0 && wire_type != 4 {
            lemma_field_len(wire_type, inner_tag, value, (depth - 1) as nat);
            if let Some(k) = field_len(wire_type, inner_tag, value, (depth - 1) as nat) {
                lemma_group_len(tag, value.skip(k as int), depth);
            }
        }
    }
}

/// Reading a number gives back what was written, whatever follows it, when `count` bytes before it
/// leave room for it.
proof fn lemma_varint_round_trip(value: nat, count: nat, rest: Seq<u8>)
    requires
        count <= 9,
        value < pow2((64 - 7 * count) as nat),
    ensures
        read_varint(varint(value) + rest, count) == Some((value, varint(value).len())),
    decreases value,
{
    let bytes = varint(value) + rest;
    if value < 128 {
        assert(bytes[0] == value as u8);
        if count == 9 {
            lemma2_to64();
        }
    } else {
        if count == 9 {
            lemma2_to64();
        }
        assert(pow2((64 - 7 * count) as nat) == 128 * pow2((57 - 7 * count) as nat)) by {
            lemma_pow2_adds(7, (57 - 7 * count) as nat);
            lemma2_to64();
        }
        assert(value / 128 < pow2((57 - 7 * count) as nat));
        lemma_varint_round_trip(value / 128, count + 1, rest);
        assert(bytes.skip(1) =~= varint(value / 128) + rest);
        assert(bytes[0] == (value % 128 + 128) as u8);
    }
}

/// Reading a 64-bit number gives back what was written, whatever follows it.
pub proof fn law_varint_round_trip(value: u64, rest: Seq<u8>)
    ensures
        read_varint(varint(value as nat) + rest, 0) == Some(
            (value as nat, varint(value as nat).len()),
        ),
{
    lemma2_to64();
    lemma2_to64_rest();
    lemma_varint_round_trip(value as nat, 0, rest);
}

} // verus!
