//! Little-endian integers and the byte layout of an encoded payload.

use vstd::prelude::*;
use vstd::utf8::*;

verus! {

/// The four little-endian bytes of `v`.
pub open spec fn le_u32_bytes(v: u32) -> Seq<u8> {
    seq![
        (v & 0xff) as u8,
        ((v >> 8u32) & 0xff) as u8,
        ((v >> 16u32) & 0xff) as u8,
        ((v >> 24u32) & 0xff) as u8,
    ]
}

/// The value of four little-endian bytes.
pub open spec fn le_u32_value(b: Seq<u8>) -> u32
    recommends
        b.len() >= 4,
{
    (b[0] as u32) | ((b[1] as u32) << 8u32) | ((b[2] as u32) << 16u32) | ((b[3] as u32) << 24u32)
}

/// The eight little-endian bytes of `v`.
pub open spec fn le_u64_bytes(v: u64) -> Seq<u8> {
    seq![
        (v & 0xff) as u8,
        ((v >> 8u64) & 0xff) as u8,
        ((v >> 16u64) & 0xff) as u8,
        ((v >> 24u64) & 0xff) as u8,
        ((v >> 32u64) & 0xff) as u8,
        ((v >> 40u64) & 0xff) as u8,
        ((v >> 48u64) & 0xff) as u8,
        ((v >> 56u64) & 0xff) as u8,
    ]
}

/// The value of eight little-endian bytes.
pub open spec fn le_u64_value(b: Seq<u8>) -> u64
    recommends
        b.len() >= 8,
{
    (b[0] as u64) | ((b[1] as u64) << 8u64) | ((b[2] as u64) << 16u64) | ((b[3] as u64) << 24u64)
        | ((b[4] as u64) << 32u64) | ((b[5] as u64) << 40u64) | ((b[6] as u64) << 48u64)
        | ((b[7] as u64) << 56u64)
}

/// Reading back four little-endian bytes gives the value they were written from.
pub proof fn lemma_le_u32_round_trip(v: u32)
    ensures
        le_u32_value(le_u32_bytes(v)) == v,
{
    let b = le_u32_bytes(v);
    let (b0, b1, b2, b3) = (b[0], b[1], b[2], b[3]);
    assert((b0 as u32) | ((b1 as u32) << 8u32) | ((b2 as u32) << 16u32) | ((b3 as u32) << 24u32)
        == v) by (bit_vector)
        requires
            b0 == (v & 0xff) as u8,
            b1 == ((v >> 8u32) & 0xff) as u8,
            b2 == ((v >> 16u32) & 0xff) as u8,
            b3 == ((v >> 24u32) & 0xff) as u8,
    ;
}

/// Reading back eight little-endian bytes gives the value they were written from.
pub proof fn lemma_le_u64_round_trip(v: u64)
    ensures
        le_u64_value(le_u64_bytes(v)) == v,
{
    let b = le_u64_bytes(v);
    let (b0, b1, b2, b3) = (b[0], b[1], b[2], b[3]);
    let (b4, b5, b6, b7) = (b[4], b[5], b[6], b[7]);
    assert((b0 as u64) | ((b1 as u64) << 8u64) | ((b2 as u64) << 16u64) | ((b3 as u64) << 24u64)
        | ((b4 as u64) << 32u64) | ((b5 as u64) << 40u64) | ((b6 as u64) << 48u64) | ((b7 as u64)
        << 56u64) == v) by (bit_vector)
        requires
            b0 == (v & 0xff) as u8,
            b1 == ((v >> 8u64) & 0xff) as u8,
            b2 == ((v >> 16u64) & 0xff) as u8,
            b3 == ((v >> 24u64) & 0xff) as u8,
            b4 == ((v >> 32u64) & 0xff) as u8,
            b5 == ((v >> 40u64) & 0xff) as u8,
            b6 == ((v >> 48u64) & 0xff) as u8,
            b7 == ((v >> 56u64) & 0xff) as u8,
    ;
}

/// The bytes of a tagged record of a name and a data block: the tag as four
/// little-endian bytes, then the UTF-8 bytes of the name and then the data,
/// each preceded by its length as eight little-endian bytes.
pub open spec fn encode_fields(tag: u32, name: Seq<char>, data: Seq<u8>) -> Seq<u8> {
    le_u32_bytes(tag) + le_u64_bytes(encode_utf8(name).len() as u64) + encode_utf8(name)
        + le_u64_bytes(data.len() as u64) + data
}

/// Reads a record written by [`encode_fields`] from the front of `b`; bytes
/// after the record are ignored. `None` where `b` ends early or the name is not
/// valid UTF-8.
pub open spec fn decode_fields(b: Seq<u8>) -> Option<(u32, Seq<char>, Seq<u8>)> {
    if b.len() < 12 {
        None
    } else {
        let name_end: int = 12 + le_u64_value(b.subrange(4, 12));
        if name_end > b.len() {
            None
        } else if !valid_utf8(b.subrange(12, name_end)) {
            None
        } else if name_end + 8 > b.len() {
            None
        } else {
            let data_end: int = name_end + 8 + le_u64_value(b.subrange(name_end, name_end + 8));
            if data_end > b.len() {
                None
            } else {
                Some(
                    (
                        le_u32_value(b.subrange(0, 4)),
                        decode_utf8(b.subrange(12, name_end)),
                        b.subrange(name_end + 8, data_end),
                    ),
                )
            }
        }
    }
}

/// Decoding an encoded record gives back its tag, name and data, whatever
/// follows it.
pub proof fn lemma_decode_encode_fields(tag: u32, name: Seq<char>, data: Seq<u8>, rest: Seq<u8>)
    requires
        encode_utf8(name).len() <= u64::MAX,
        data.len() <= u64::MAX,
    ensures
        decode_fields(encode_fields(tag, name, data) + rest) == Some((tag, name, data)),
{
    broadcast use {encode_utf8_valid_utf8, encode_utf8_decode_utf8};

    let nb = encode_utf8(name);
    let b = encode_fields(tag, name, data) + rest;
    lemma_le_u32_round_trip(tag);
    lemma_le_u64_round_trip(nb.len() as u64);
    lemma_le_u64_round_trip(data.len() as u64);
    let name_end: int = 12 + nb.len() as int;
    assert(b.subrange(0, 4) =~= le_u32_bytes(tag));
    assert(b.subrange(4, 12) =~= le_u64_bytes(nb.len() as u64));
    assert(b.subrange(12, name_end) =~= nb);
    assert(b.subrange(name_end, name_end + 8) =~= le_u64_bytes(data.len() as u64));
    assert(b.subrange(name_end + 8, name_end + 8 + data.len() as int) =~= data);
}

} // verus!
