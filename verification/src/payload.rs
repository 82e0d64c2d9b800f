//! What a sealed file carries: a file's or an archived folder's bytes and the
//! name to restore them under, and how that record is encoded with bincode.

use vstd::prelude::*;
use crate::encoding::{
    decode_fields, encode_fields, le_u32_bytes, le_u32_value, lemma_decode_encode_fields,
    lemma_le_u32_round_trip,
};
use crate::naming::decimal;

verus! {

/// Declares bincode's error type, so that its errors can be carried through.
#[verifier::external_type_specification]
#[verifier::external_body]
pub struct ExBincodeErrorKind(bincode::ErrorKind);

/// Whether a payload holds a single file or an archived folder.
#[derive(Debug, Clone, Copy, PartialEq, Eq, Structural)]
pub enum PayloadKind {
    File,
    DirectoryArchive,
}

/// The plaintext of a sealed file.
#[derive(Debug, Clone, PartialEq, Eq)]
pub struct Payload {
    pub kind: PayloadKind,
    pub original_name: String,
    pub data: Vec<u8>,
}

/// A payload as mathematical values.
pub struct PayloadView {
    pub kind: PayloadKind,
    pub original_name: Seq<char>,
    pub data: Seq<u8>,
}

impl View for Payload {
    type V = PayloadView;

    open spec fn view(&self) -> PayloadView {
        PayloadView { kind: self.kind, original_name: self.original_name@, data: self.data@ }
    }
}

/// Why an encoded payload could not be read back.
#[derive(Debug)]
pub enum PayloadEncodingError {
    /// bincode refused the bytes.
    Bincode(Box<bincode::ErrorKind>),
    /// The record is well formed but names no payload kind.
    UnknownKind(u32),
}

/// The number that stands for a payload kind in the encoding: the variant's
/// position in [`PayloadKind`].
pub open spec fn kind_tag(kind: PayloadKind) -> u32 {
    match kind {
        PayloadKind::File => 0,
        PayloadKind::DirectoryArchive => 1,
    }
}

/// The encoded bytes of a payload.
pub open spec fn payload_bytes(p: PayloadView) -> Seq<u8> {
    encode_fields(kind_tag(p.kind), p.original_name, p.data)
}

/// What reading a payload from bytes gives.
pub enum PayloadDecoding {
    Payload(PayloadView),
    UnknownKind(u32),
    Malformed,
}

/// Reads a payload from the front of `b`. The kind is read first, so a tag
/// that names no kind is reported whatever follows it.
pub open spec fn decode_payload_bytes(b: Seq<u8>) -> PayloadDecoding {
    if b.len() >= 4 && le_u32_value(b.subrange(0, 4)) >= 2 {
        PayloadDecoding::UnknownKind(le_u32_value(b.subrange(0, 4)))
    } else {
        match decode_fields(b) {
            None => PayloadDecoding::Malformed,
            Some((tag, name, data)) => if tag == 0 {
                PayloadDecoding::Payload(
                    PayloadView { kind: PayloadKind::File, original_name: name, data: data },
                )
            } else {
                PayloadDecoding::Payload(
                    PayloadView {
                        kind: PayloadKind::DirectoryArchive,
                        original_name: name,
                        data: data,
                    },
                )
            },
        }
    }
}

/// Reading back the encoding of a payload gives the payload, whatever bytes
/// follow it.
pub proof fn lemma_payload_round_trip(p: PayloadView, rest: Seq<u8>)
    requires
        vstd::utf8::encode_utf8(p.original_name).len() <= u64::MAX,
        p.data.len() <= u64::MAX,
    ensures
        decode_payload_bytes(payload_bytes(p) + rest) == PayloadDecoding::Payload(p),
{
    lemma_decode_encode_fields(kind_tag(p.kind), p.original_name, p.data, rest);
    lemma_le_u32_round_trip(kind_tag(p.kind));
    assert((payload_bytes(p) + rest).subrange(0, 4) =~= le_u32_bytes(kind_tag(p.kind)));
}

/// An encoded payload starts with its kind as bincode numbers the variants
/// of the enum: 0 for a file and 1 for a folder archive, in four
/// little-endian bytes.
pub proof fn lemma_payload_bytes_start_with_kind(p: PayloadView)
    ensures
        p.kind == PayloadKind::File ==> payload_bytes(p).subrange(0, 4) == seq![0u8, 0u8, 0u8, 0u8],
        p.kind == PayloadKind::DirectoryArchive ==> payload_bytes(p).subrange(0, 4) == seq![
            1u8,
            0u8,
            0u8,
            0u8,
        ],
{
    let t = kind_tag(p.kind);
    let b0 = (t & 0xff) as u8;
    let b1 = ((t >> 8u32) & 0xff) as u8;
    let b2 = ((t >> 16u32) & 0xff) as u8;
    let b3 = ((t >> 24u32) & 0xff) as u8;
    assert(t == 0 ==> b0 == 0 && b1 == 0 && b2 == 0 && b3 == 0) by (bit_vector)
        requires
            b0 == (t & 0xff) as u8,
            b1 == ((t >> 8u32) & 0xff) as u8,
            b2 == ((t >> 16u32) & 0xff) as u8,
            b3 == ((t >> 24u32) & 0xff) as u8,
    ;
    assert(t == 1 ==> b0 == 1 && b1 == 0 && b2 == 0 && b3 == 0) by (bit_vector)
        requires
            b0 == (t & 0xff) as u8,
            b1 == ((t >> 8u32) & 0xff) as u8,
            b2 == ((t >> 16u32) & 0xff) as u8,
            b3 == ((t >> 24u32) & 0xff) as u8,
    ;
    assert(payload_bytes(p).subrange(0, 4) =~= le_u32_bytes(t));
}

/// `bincode::serialize` of the tuple `(tag, name, data)`. bincode's default
/// configuration writes the `u32` as four little-endian bytes and the string
/// and the byte slice each as its length in eight little-endian bytes followed
/// by its bytes, which is [`encode_fields`]. Writing into a `Vec` with no size
/// limit, with lengths known up front, it does not fail.
#[verifier::external_body]
fn bincode_serialize_fields(tag: u32, name: &str, data: &[u8]) -> (r: Result<Vec<u8>, Box<bincode::ErrorKind>>)
    ensures
        r is Ok,
        r matches Ok(bytes) ==> bytes@ == encode_fields(tag, name@, data@),
{
    bincode::serialize(&(tag, name, data))
}

/// `bincode::deserialize` into `(u32, String, Vec<u8>)`. It reads the layout of
/// [`encode_fields`] from the front of the bytes, ignores what follows, and
/// fails where the bytes end early or the string is not valid UTF-8.
#[verifier::external_body]
fn bincode_deserialize_fields(bytes: &[u8]) -> (r: Result<(u32, String, Vec<u8>), Box<bincode::ErrorKind>>)
    ensures
        match r {
            Ok((tag, name, data)) => decode_fields(bytes@) == Some((tag, name@, data@)),
            Err(_) => decode_fields(bytes@) is None,
        },
{
    bincode::deserialize(bytes)
}

/// Encodes a payload the way it is stored inside a sealed file.
pub fn encode_payload(payload: &Payload) -> (r: Result<Vec<u8>, PayloadEncodingError>)
    ensures
        r matches Ok(bytes) && bytes@ == payload_bytes(payload@),
{
    let tag: u32 = match payload.kind {
        PayloadKind::File => 0,
        PayloadKind::DirectoryArchive => 1,
    };
    match bincode_serialize_fields(tag, payload.original_name.as_str(), payload.data.as_slice()) {
        Ok(bytes) => Ok(bytes),
        Err(e) => Err(PayloadEncodingError::Bincode(e)),
    }
}

/// Reads a payload back from its encoding; bytes after it are ignored.
pub fn decode_payload(bytes: &[u8]) -> (r: Result<Payload, PayloadEncodingError>)
    ensures
        match r {
            Ok(p) => decode_payload_bytes(bytes@) == PayloadDecoding::Payload(p@),
            Err(PayloadEncodingError::UnknownKind(tag)) => decode_payload_bytes(bytes@)
                == PayloadDecoding::UnknownKind(tag),
            Err(PayloadEncodingError::Bincode(_)) => decode_payload_bytes(bytes@)
                == PayloadDecoding::Malformed,
        },
{
    if bytes.len() >= 4 {
        let tag: u32 = (bytes[0] as u32) | ((bytes[1] as u32) << 8u32) | ((bytes[2] as u32)
            << 16u32) | ((bytes[3] as u32) << 24u32);
        let ghost head = bytes@.subrange(0, 4);
        assert(head[0] == bytes@[0] && head[1] == bytes@[1] && head[2] == bytes@[2] && head[3]
            == bytes@[3]);
        assert(tag == le_u32_value(head));
        if tag >= 2 {
            return Err(PayloadEncodingError::UnknownKind(tag));
        }
    }
    match bincode_deserialize_fields(bytes) {
        Ok((tag, name, data)) => {
            if tag == 0 {
                Ok(Payload { kind: PayloadKind::File, original_name: name, data: data })
            } else {
                Ok(Payload { kind: PayloadKind::DirectoryArchive, original_name: name, data: data })
            }
        },
        Err(e) => Err(PayloadEncodingError::Bincode(e)),
    }
}

/// `serde::de::Error::invalid_value(Unexpected::Unsigned(value), &expected)`
/// for bincode's error type, shown as text. serde words it as `invalid value:
/// integer `value`, expected ` followed by the expectation, and bincode shows
/// such an error as its message.
#[verifier::external_body]
pub(crate) fn serde_invalid_value_text(value: u32, expected: &str) -> (r: String)
    ensures
        r@ == "invalid value: integer `"@ + decimal(value as nat) + "`, expected "@ + expected@,
{
    <bincode::Error as serde::de::Error>::invalid_value(
        serde::de::Unexpected::Unsigned(value as u64),
        &expected,
    ).to_string()
}

} // verus!
