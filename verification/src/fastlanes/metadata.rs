//! What delta encoding stores about an array.

use crate::error::{VortexError, VortexResult};
use crate::wire::{
    field_len, law_varint_round_trip, lemma_field_len, lemma_varint_len, put_uint32, put_uint64,
    read_key, read_varint, take_field, take_key, take_varint, varint, MAX_DEPTH,
};
use vstd::prelude::*;

verus! {

/// What delta encoding stores about an array: a protobuf message.
#[derive(Clone, Copy, Debug, PartialEq, Eq, Structural)]
pub struct DeltaMetadata {
    /// The number of deltas; field 1.
    pub deltas_len: u64,
    /// The position of the first value in the first chunk; field 2.
    pub offset: u32,
}

/// A field that holds a number, which is left out if the number is zero.
pub open spec fn number_field(tag: nat, value: nat) -> Seq<u8> {
    if value == 0 {
        Seq::empty()
    } else {
        varint(tag * 8) + varint(value)
    }
}

/// The bytes of a message.
pub open spec fn encoded_metadata(metadata: DeltaMetadata) -> Seq<u8> {
    number_field(1, metadata.deltas_len as nat) + number_field(2, metadata.offset as nat)
}

/// A message after the fields in some bytes were read into it, if they are well-formed. The last
/// of several fields with the same tag counts, and fields with other tags are passed over.
pub open spec fn merged_metadata(bytes: Seq<u8>, metadata: DeltaMetadata) -> Option<DeltaMetadata>
    decreases bytes.len(),
{
    if bytes.len() == 0 {
        Some(metadata)
    } else {
        match read_key(bytes) {
            None => None,
            Some((tag, wire_type, n)) => {
                let value = bytes.skip(n as int);
                if n == 0 || n > bytes.len() {
                    None
                } else if tag == 1 || tag == 2 {
                    match read_varint(value, 0) {
                        None => None,
                        Some((number, k)) => if wire_type != 0 || k > value.len() {
                            None
                        } else if tag == 1 {
                            merged_metadata(
                                value.skip(k as int),
                                DeltaMetadata { deltas_len: number as u64, ..metadata },
                            )
                        } else {
                            merged_metadata(
                                value.skip(k as int),
                                DeltaMetadata {
                                    offset: (number % 0x1_0000_0000) as u32,
                                    ..metadata
                                },
                            )
                        },
                    }
                } else {
                    match field_len(wire_type, tag, value, MAX_DEPTH as nat) {
                        None => None,
                        Some(k) => if k > value.len() {
                            None
                        } else {
                            merged_metadata(value.skip(k as int), metadata)
                        },
                    }
                }
            },
        }
    }
}

/// The message in some bytes, if they are well-formed. A field that is missing is zero.
pub open spec fn decoded_metadata(bytes: Seq<u8>) -> Option<DeltaMetadata> {
    merged_metadata(bytes, DeltaMetadata { deltas_len: 0, offset: 0 })
}

impl DeltaMetadata {
    /// Returns the bytes of the message.
    pub fn encode_to_vec(&self) -> (r: Vec<u8>)
        ensures
            r@ == encoded_metadata(*self),
    {
        let mut bytes: Vec<u8> = Vec::new();
        if self.deltas_len != 0 {
            put_uint64(1, self.deltas_len, &mut bytes);
        }
        assert(bytes@ =~= number_field(1, self.deltas_len as nat));
        if self.offset != 0 {
            put_uint32(2, self.offset, &mut bytes);
        }
        assert(bytes@ =~= encoded_metadata(*self));
        bytes
    }

    /// Reads a message from its bytes.
    pub fn decode(bytes: &[u8]) -> (r: VortexResult<DeltaMetadata>)
        ensures
            match decoded_metadata(bytes@) {
                Some(metadata) => r == Ok::<DeltaMetadata, VortexError>(metadata),
                None => r == Err::<DeltaMetadata, VortexError>(VortexError::InvalidMetadata),
            },
    {
        let mut metadata = DeltaMetadata { deltas_len: 0, offset: 0 };
        let mut buf: &[u8] = bytes;
        while buf.len() > 0
            invariant
                decoded_metadata(bytes@) == merged_metadata(buf@, metadata),
            decreases buf@.len(),
        {
            let ghost before = buf@;
            proof {
                lemma_varint_len(before, 0);
            }
            let (tag, wire_type) = match take_key(&mut buf) {
                Ok(key) => key,
                Err(_) => return Err(VortexError::InvalidMetadata),
            };
            let ghost value = buf@;
            proof {
                lemma_varint_len(value, 0);
            }
            if tag == 1 || tag == 2 {
                if wire_type != 0 {
                    return Err(VortexError::InvalidMetadata);
                }
                let number: u64 = match take_varint(&mut buf) {
                    Ok(number) => number,
                    Err(_) => return Err(VortexError::InvalidMetadata),
                };
                if tag == 1 {
                    metadata.deltas_len = number;
                } else {
                    metadata.offset = (number % 0x1_0000_0000) as u32;
                }
            } else {
                proof {
                    lemma_field_len(wire_type as nat, tag as nat, value, MAX_DEPTH as nat);
                }
                if take_field(wire_type, tag, &mut buf).is_err() {
                    return Err(VortexError::InvalidMetadata);
                }
            }
        }
        Ok(metadata)
    }
}

/// A number field at the front of some bytes is read as its key and its number.
proof fn lemma_number_field(tag: nat, value: u64, rest: Seq<u8>)
    requires
        1 <= tag <= 2,
    ensures
        ({
            let bytes = varint(tag * 8) + varint(value as nat) + rest;
            &&& bytes.len() > 0
            &&& read_key(bytes) == Some((tag, 0nat, 1nat))
            &&& read_varint(bytes.skip(1), 0) == Some((value as nat, varint(value as nat).len()))
            &&& bytes.skip(1).skip(varint(value as nat).len() as int) == rest
            &&& varint(value as nat).len() <= bytes.skip(1).len()
        }),
{
    let bytes = varint(tag * 8) + varint(value as nat) + rest;
    assert(varint(tag * 8) =~= seq![(tag * 8) as u8]);
    law_varint_round_trip((tag * 8) as u64, varint(value as nat) + rest);
    assert(bytes =~= varint(tag * 8) + (varint(value as nat) + rest));
    law_varint_round_trip(value, rest);
    assert(bytes.skip(1) =~= varint(value as nat) + rest);
    assert(bytes.skip(1).skip(varint(value as nat).len() as int) =~= rest);
}

/// Decoding a message gives back what was encoded.
pub proof fn law_metadata_round_trip(metadata: DeltaMetadata)
    ensures
        decoded_metadata(encoded_metadata(metadata)) == Some(metadata),
{
    let deltas = number_field(1, metadata.deltas_len as nat);
    let offset = number_field(2, metadata.offset as nat);
    let empty = DeltaMetadata { deltas_len: 0, offset: 0 };
    let first = DeltaMetadata { deltas_len: metadata.deltas_len, offset: 0 };
    if metadata.deltas_len != 0 {
        lemma_number_field(1, metadata.deltas_len, offset);
        assert(merged_metadata(deltas + offset, empty) == merged_metadata(offset, first));
    } else {
        assert(deltas + offset =~= offset);
    }
    if metadata.offset != 0 {
        lemma_number_field(2, metadata.offset as u64, Seq::empty());
        assert(offset + Seq::<u8>::empty() =~= offset);
        assert(merged_metadata(offset, first) == merged_metadata(Seq::empty(), metadata));
    }
}

/// The first field of a message is the number of deltas, under the tag 1, and the second the
/// offset, under the tag 2. A field is its key, eight times the tag, and its number; one that is
/// zero is left out.
pub proof fn law_metadata_fields(metadata: DeltaMetadata)
    ensures
        metadata.deltas_len == 0 && metadata.offset == 0 ==> encoded_metadata(metadata).len() == 0,
        metadata.deltas_len != 0 && metadata.offset == 0 ==> encoded_metadata(metadata) == seq![
            0x08u8,
        ] + varint(metadata.deltas_len as nat),
        metadata.deltas_len == 0 && metadata.offset != 0 ==> encoded_metadata(metadata) == seq![
            0x10u8,
        ] + varint(metadata.offset as nat),
        metadata.deltas_len != 0 && metadata.offset != 0 ==> encoded_metadata(metadata) == seq![
            0x08u8,
        ] + varint(metadata.deltas_len as nat) + seq![0x10u8] + varint(metadata.offset as nat),
{
    assert(varint(8) =~= seq![0x08u8]);
    assert(varint(16) =~= seq![0x10u8]);
    let deltas = number_field(1, metadata.deltas_len as nat);
    let offset = number_field(2, metadata.offset as nat);
    if metadata.offset == 0 {
        assert(deltas + offset =~= deltas);
    } else if metadata.deltas_len == 0 {
        assert(deltas + offset =~= offset);
    } else {
        assert(deltas + offset =~= seq![0x08u8] + varint(metadata.deltas_len as nat) + seq![
            0x10u8,
        ] + varint(metadata.offset as nat));
    }
}

/// A message is read field by field. A number under the tag 1 or 2 replaces what was read before,
/// of an offset the low 32 bits; a field under another tag changes nothing; and bytes that are no
/// field, or a field under the tag 1 or 2 that is no number, are refused.
pub proof fn law_metadata_is_read_by_field(bytes: Seq<u8>, metadata: DeltaMetadata)
    ensures
        decoded_metadata(bytes) == merged_metadata(
            bytes,
            DeltaMetadata { deltas_len: 0, offset: 0 },
        ),
        bytes.len() == 0 ==> merged_metadata(bytes, metadata) == Some(metadata),
        bytes.len() > 0 && read_key(bytes) is None ==> merged_metadata(bytes, metadata) is None,
        bytes.len() > 0 ==> (read_key(bytes) matches Some((tag, wire_type, n)) ==> {
            let value = bytes.skip(n as int);
            &&& 1 <= n <= bytes.len()
            &&& (tag == 1 || tag == 2) && (wire_type != 0 || read_varint(value, 0) is None)
                ==> merged_metadata(bytes, metadata) is None
            &&& (tag == 1 || tag == 2) && wire_type == 0 ==> (read_varint(value, 0) matches Some(
                (number, k),
            ) ==> {
                let after = DeltaMetadata {
                    deltas_len: if tag == 1 { number as u64 } else { metadata.deltas_len },
                    offset: if tag == 2 {
                        (number % 0x1_0000_0000) as u32
                    } else {
                        metadata.offset
                    },
                };
                merged_metadata(bytes, metadata) == merged_metadata(value.skip(k as int), after)
            })
            &&& tag != 1 && tag != 2 ==> match field_len(wire_type, tag, value, 100) {
                None => merged_metadata(bytes, metadata) is None,
                Some(k) => merged_metadata(bytes, metadata) == merged_metadata(
                    value.skip(k as int),
                    metadata,
                ),
            }
        }),
{
    lemma_varint_len(bytes, 0);
    if let Some((tag, wire_type, n)) = read_key(bytes) {
        let value = bytes.skip(n as int);
        lemma_varint_len(value, 0);
        lemma_field_len(wire_type, tag, value, MAX_DEPTH as nat);
    }
}

} // verus!
