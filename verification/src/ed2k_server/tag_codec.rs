//! The tags that carry names and values in ED2K server packets.
//!
//! A tag is a type byte, a name and a value. The high bit of the type byte
//! says that the name is a single byte; otherwise a two-byte length and that
//! many bytes of name follow.
use vstd::prelude::*;
use vstd::utf8::encode_utf8;

use super::{
    TAGTYPE_BLOB, TAGTYPE_BOOL, TAGTYPE_BOOLARRAY, TAGTYPE_FLOAT32, TAGTYPE_HASH, TAGTYPE_STR1,
    TAGTYPE_STR16, TAGTYPE_STRING, TAGTYPE_UINT16, TAGTYPE_UINT32, TAGTYPE_UINT64, TAGTYPE_UINT8,
};
use crate::bytes::{
    le16, le32, le64, push_all, push_u16, push_u32, push_u64, read_16, read_u16, read_u32, read_u64,
    suffix, to_vec, u16_le, u32_le, u64_le,
};
use crate::text::{opt_text, text_from, text_from_utf8};

verus! {

/// A decoded tag value. A 32-bit float is held as its bits.
#[derive(Debug, Clone, PartialEq, Eq)]
pub enum DecodedTagValue {
    String(String),
    Unsigned(u64),
    Bool(bool),
    Float32(u32),
    Hash([u8; 16]),
    Blob(Vec<u8>),
    BoolArray(Vec<u8>),
}

/// What a decoded tag value holds.
pub enum TagValueView {
    Text(Seq<char>),
    Unsigned(u64),
    Bool(bool),
    Float32(u32),
    Hash(Seq<u8>),
    Blob(Seq<u8>),
    BoolArray(Seq<u8>),
}

impl View for DecodedTagValue {
    type V = TagValueView;

    open spec fn view(&self) -> TagValueView {
        match *self {
            DecodedTagValue::String(s) => TagValueView::Text(s@),
            DecodedTagValue::Unsigned(n) => TagValueView::Unsigned(n),
            DecodedTagValue::Bool(b) => TagValueView::Bool(b),
            DecodedTagValue::Float32(bits) => TagValueView::Float32(bits),
            DecodedTagValue::Hash(h) => TagValueView::Hash(h@),
            DecodedTagValue::Blob(b) => TagValueView::Blob(b@),
            DecodedTagValue::BoolArray(b) => TagValueView::BoolArray(b@),
        }
    }
}

/// Why bytes are no tag.
#[derive(Debug, Clone, Copy, PartialEq, Eq, Structural)]
pub enum TagError {
    ShortHeader,
    ShortNameLength,
    ShortName,
    ShortStringLength,
    ShortString,
    ShortCompactString,
    ShortUint32,
    ShortUint64,
    ShortUint16,
    ShortUint8,
    ShortFloat32,
    ShortHash,
    ShortBoolArrayLength,
    ShortBoolArray,
    ShortBlobLength,
    ShortBlob,
    UnsupportedType(u8),
}

/// The name of the tag that opens `b`, as far as it is a single byte, and
/// where its value starts.
pub open spec fn tag_name(b: Seq<u8>) -> Result<(Option<u8>, int), TagError> {
    if b.len() < 2 {
        Err(TagError::ShortHeader)
    } else if b[0] >= 0x80 {
        Ok((Some(b[1]), 2))
    } else if b.len() < 3 {
        Err(TagError::ShortNameLength)
    } else if b.len() - 3 < le16(b, 1) {
        Err(TagError::ShortName)
    } else {
        Ok((
            if le16(b, 1) == 1 {
                Some(b[3])
            } else {
                None
            },
            3 + le16(b, 1),
        ))
    }
}

/// The value of type `base_type` that opens `b`, and how long it is.
pub open spec fn tag_value(base_type: u8, b: Seq<u8>) -> Result<(TagValueView, int), TagError> {
    if base_type == TAGTYPE_STRING {
        if b.len() < 2 {
            Err(TagError::ShortStringLength)
        } else if b.len() - 2 < le16(b, 0) {
            Err(TagError::ShortString)
        } else {
            Ok((TagValueView::Text(text_from(b.subrange(2, 2 + le16(b, 0)))), 2 + le16(b, 0)))
        }
    } else if TAGTYPE_STR1 <= base_type <= TAGTYPE_STR16 {
        let len = base_type - TAGTYPE_STR1 + 1;
        if b.len() < len {
            Err(TagError::ShortCompactString)
        } else {
            Ok((TagValueView::Text(text_from(b.subrange(0, len))), len))
        }
    } else if base_type == TAGTYPE_UINT32 {
        if b.len() < 4 {
            Err(TagError::ShortUint32)
        } else {
            Ok((TagValueView::Unsigned(le32(b, 0) as u64), 4))
        }
    } else if base_type == TAGTYPE_UINT64 {
        if b.len() < 8 {
            Err(TagError::ShortUint64)
        } else {
            Ok((TagValueView::Unsigned(le64(b, 0)), 8))
        }
    } else if base_type == TAGTYPE_UINT16 {
        if b.len() < 2 {
            Err(TagError::ShortUint16)
        } else {
            Ok((TagValueView::Unsigned(le16(b, 0) as u64), 2))
        }
    } else if base_type == TAGTYPE_UINT8 {
        if b.len() < 1 {
            Err(TagError::ShortUint8)
        } else {
            Ok((TagValueView::Unsigned(b[0] as u64), 1))
        }
    } else if base_type == TAGTYPE_BOOL {
        if b.len() < 1 {
            Err(TagError::ShortUint8)
        } else {
            Ok((TagValueView::Bool(b[0] != 0), 1))
        }
    } else if base_type == TAGTYPE_FLOAT32 {
        if b.len() < 4 {
            Err(TagError::ShortFloat32)
        } else {
            Ok((TagValueView::Float32(le32(b, 0)), 4))
        }
    } else if base_type == TAGTYPE_HASH {
        if b.len() < 16 {
            Err(TagError::ShortHash)
        } else {
            Ok((TagValueView::Hash(b.subrange(0, 16)), 16))
        }
    } else if base_type == TAGTYPE_BOOLARRAY {
        if b.len() < 2 {
            Err(TagError::ShortBoolArrayLength)
        } else {
            let len = le16(b, 0) as int / 8 + 1;
            if b.len() - 2 < len {
                Err(TagError::ShortBoolArray)
            } else {
                Ok((TagValueView::BoolArray(b.subrange(2, 2 + len)), 2 + len))
            }
        }
    } else if base_type == TAGTYPE_BLOB {
        if b.len() < 4 {
            Err(TagError::ShortBlobLength)
        } else if b.len() - 4 < le32(b, 0) {
            Err(TagError::ShortBlob)
        } else {
            Ok((TagValueView::Blob(b.subrange(4, 4 + le32(b, 0))), 4 + le32(b, 0)))
        }
    } else {
        Err(TagError::UnsupportedType(base_type))
    }
}

/// The tag that opens `b`: its single-byte name, its value, and its length.
pub open spec fn decoded_tag(b: Seq<u8>) -> Result<(Option<u8>, TagValueView, int), TagError> {
    match tag_name(b) {
        Err(e) => Err(e),
        Ok((name, at)) => match tag_value((b[0] % 0x80) as u8, b.skip(at)) {
            Err(e) => Err(e),
            Ok((value, len)) => Ok((name, value, at + len)),
        },
    }
}

/// A tag is at least two bytes long and lies within the bytes it opens.
pub proof fn lemma_tag_len(b: Seq<u8>)
    ensures
        decoded_tag(b) matches Ok((_, _, len)) ==> 2 <= len <= b.len(),
{
}

/// What a four-byte number tag with a long name looks like.
pub open spec fn u32_tag(name: u8, value: u32) -> Seq<u8> {
    seq![TAGTYPE_UINT32] + u16_le(1) + seq![name] + u32_le(value)
}

/// What a four-byte number tag with a short name looks like.
pub open spec fn short_u32_tag(name: u8, value: u32) -> Seq<u8> {
    seq![0x83u8, name] + u32_le(value)
}

/// What a one-byte number tag with a short name looks like.
pub open spec fn short_u8_tag(name: u8, value: u8) -> Seq<u8> {
    seq![0x89u8, name, value]
}

/// What a number tag of the smallest size that holds `value` looks like.
pub open spec fn short_int_tag(name: u8, value: u64) -> Seq<u8> {
    if value <= u8::MAX {
        short_u8_tag(name, value as u8)
    } else if value <= u16::MAX {
        seq![0x88u8, name] + u16_le(value as u16)
    } else if value <= u32::MAX {
        short_u32_tag(name, value as u32)
    } else {
        seq![0x8Bu8, name] + u64_le(value)
    }
}

/// The type of a string tag: one of the compact types for one to sixteen
/// bytes, the type with a length otherwise.
pub open spec fn string_tag_type(len: int) -> u8 {
    if 1 <= len <= 16 {
        (TAGTYPE_STR1 + len - 1) as u8
    } else {
        TAGTYPE_STRING
    }
}

/// What a string tag with a long name looks like. It never uses a compact
/// type.
pub open spec fn string_tag(name: u8, text: Seq<char>) -> Seq<u8> {
    seq![TAGTYPE_STRING] + u16_le(1) + seq![name] + u16_le(encode_utf8(text).len() as u16)
        + encode_utf8(text)
}

/// What a string tag with a short name looks like.
pub open spec fn short_string_tag(name: u8, text: Seq<char>) -> Seq<u8> {
    let bytes = encode_utf8(text);
    let tag_type = string_tag_type(bytes.len() as int);
    if tag_type == TAGTYPE_STRING {
        seq![(0x80 + tag_type) as u8, name] + u16_le(bytes.len() as u16) + bytes
    } else {
        seq![(0x80 + tag_type) as u8, name] + bytes
    }
}

/// Appends a four-byte number tag with a long name.
pub fn push_u32_tag(payload: &mut Vec<u8>, name: u8, value: u32)
    ensures
        final(payload)@ == old(payload)@ + u32_tag(name, value),
{
    payload.push(TAGTYPE_UINT32);
    push_u16(payload, 1);
    payload.push(name);
    push_u32(payload, value);
    assert(payload@ =~= old(payload)@ + u32_tag(name, value));
}

/// Appends a four-byte number tag with a short name.
pub fn push_short_u32_tag(payload: &mut Vec<u8>, name: u8, value: u32)
    ensures
        final(payload)@ == old(payload)@ + short_u32_tag(name, value),
{
    payload.push(0x83);
    payload.push(name);
    push_u32(payload, value);
    assert(payload@ =~= old(payload)@ + short_u32_tag(name, value));
}

/// Appends a one-byte number tag with a short name.
pub fn push_short_u8_tag(payload: &mut Vec<u8>, name: u8, value: u8)
    ensures
        final(payload)@ == old(payload)@ + short_u8_tag(name, value),
{
    payload.push(0x89);
    payload.push(name);
    payload.push(value);
    assert(payload@ =~= old(payload)@ + short_u8_tag(name, value));
}

/// Appends a number tag of the smallest size that holds `value`.
pub fn push_short_int_tag(payload: &mut Vec<u8>, name: u8, value: u64)
    ensures
        final(payload)@ == old(payload)@ + short_int_tag(name, value),
{
    if value <= 0xFF {
        push_short_u8_tag(payload, name, value as u8);
    } else if value <= 0xFFFF {
        payload.push(0x88);
        payload.push(name);
        push_u16(payload, value as u16);
        assert(payload@ =~= old(payload)@ + short_int_tag(name, value));
    } else if value <= 0xFFFF_FFFF {
        push_short_u32_tag(payload, name, value as u32);
    } else {
        payload.push(0x8B);
        payload.push(name);
        push_u64(payload, value);
        assert(payload@ =~= old(payload)@ + short_int_tag(name, value));
    }
}

/// The type of a string tag of `len` bytes.
pub fn ed2k_string_tag_type(len: usize) -> (r: u8)
    ensures
        r == string_tag_type(len as int),
{
    if 1 <= len && len <= 16 {
        TAGTYPE_STR1 + (len - 1) as u8
    } else {
        TAGTYPE_STRING
    }
}

/// Appends a string tag with a long name.
pub fn push_string_tag(payload: &mut Vec<u8>, name: u8, value: &str)
    requires
        encode_utf8(value@).len() <= u16::MAX,
    ensures
        final(payload)@ == old(payload)@ + string_tag(name, value@),
{
    let value_bytes: &[u8] = value.as_bytes();
    payload.push(TAGTYPE_STRING);
    push_u16(payload, 1);
    payload.push(name);
    push_u16(payload, value_bytes.len() as u16);
    push_all(payload, value_bytes);
    assert(payload@ =~= old(payload)@ + string_tag(name, value@));
}

/// Appends a string tag with a short name.
pub fn push_short_string_tag(payload: &mut Vec<u8>, name: u8, value: &str)
    requires
        encode_utf8(value@).len() <= u16::MAX,
    ensures
        final(payload)@ == old(payload)@ + short_string_tag(name, value@),
{
    let value_bytes: &[u8] = value.as_bytes();
    let type_byte: u8 = ed2k_string_tag_type(value_bytes.len());
    payload.push(0x80 + type_byte);
    payload.push(name);
    if type_byte == TAGTYPE_STRING {
        push_u16(payload, value_bytes.len() as u16);
    }
    push_all(payload, value_bytes);
    assert(payload@ =~= old(payload)@ + short_string_tag(name, value@));
}

/// What a length-prefixed string payload spells: nothing below two bytes, an
/// error where the length goes past the end.
pub open spec fn ed2k_string(b: Seq<u8>) -> Result<Option<Seq<char>>, TagError> {
    if b.len() < 2 {
        Ok(None)
    } else if b.len() - 2 < le16(b, 0) {
        Err(TagError::ShortString)
    } else {
        Ok(Some(text_from(b.subrange(2, 2 + le16(b, 0)))))
    }
}

/// Decodes a length-prefixed string payload.
pub fn decode_ed2k_string(payload: &[u8]) -> (r: Result<Option<String>, TagError>)
    ensures
        match r {
            Ok(s) => ed2k_string(payload@) == Ok::<_, TagError>(opt_text(s)),
            Err(e) => ed2k_string(payload@) == Err::<Option<Seq<char>>, _>(e),
        },
{
    if payload.len() < 2 {
        return Ok(None);
    }
    let len: usize = read_u16(payload, 0) as usize;
    if payload.len() - 2 < len {
        return Err(TagError::ShortString);
    }
    Ok(Some(text_from_utf8(vstd::slice::slice_subrange(payload, 2, 2 + len))))
}

fn decode_tag_name(bytes: &[u8]) -> (r: Result<(Option<u8>, usize), TagError>)
    ensures
        match r {
            Ok((name, at)) => tag_name(bytes@) == Ok::<_, TagError>((name, at as int)) && 2 <= at
                <= bytes.len(),
            Err(e) => tag_name(bytes@) == Err::<(Option<u8>, int), _>(e),
        },
{
    if bytes.len() < 2 {
        return Err(TagError::ShortHeader);
    }
    if bytes[0] >= 0x80 {
        return Ok((Some(bytes[1]), 2));
    }
    if bytes.len() < 3 {
        return Err(TagError::ShortNameLength);
    }
    let name_len: usize = read_u16(bytes, 1) as usize;
    if bytes.len() - 3 < name_len {
        return Err(TagError::ShortName);
    }
    let name = if name_len == 1 {
        Some(bytes[3])
    } else {
        None
    };
    Ok((name, 3 + name_len))
}

fn decode_value(base_type: u8, bytes: &[u8]) -> (r: Result<(DecodedTagValue, usize), TagError>)
    ensures
        match r {
            Ok((value, len)) => tag_value(base_type, bytes@) == Ok::<_, TagError>(
                (value@, len as int),
            ) && len <= bytes.len(),
            Err(e) => tag_value(base_type, bytes@) == Err::<(TagValueView, int), _>(e),
        },
{
    if base_type == TAGTYPE_STRING {
        if bytes.len() < 2 {
            return Err(TagError::ShortStringLength);
        }
        let len: usize = read_u16(bytes, 0) as usize;
        if bytes.len() - 2 < len {
            return Err(TagError::ShortString);
        }
        let value = text_from_utf8(vstd::slice::slice_subrange(bytes, 2, 2 + len));
        Ok((DecodedTagValue::String(value), 2 + len))
    } else if TAGTYPE_STR1 <= base_type && base_type <= TAGTYPE_STR16 {
        let len: usize = (base_type - TAGTYPE_STR1) as usize + 1;
        if bytes.len() < len {
            return Err(TagError::ShortCompactString);
        }
        let value = text_from_utf8(vstd::slice::slice_subrange(bytes, 0, len));
        Ok((DecodedTagValue::String(value), len))
    } else if base_type == TAGTYPE_UINT32 {
        if bytes.len() < 4 {
            return Err(TagError::ShortUint32);
        }
        Ok((DecodedTagValue::Unsigned(read_u32(bytes, 0) as u64), 4))
    } else if base_type == TAGTYPE_UINT64 {
        if bytes.len() < 8 {
            return Err(TagError::ShortUint64);
        }
        Ok((DecodedTagValue::Unsigned(read_u64(bytes, 0)), 8))
    } else if base_type == TAGTYPE_UINT16 {
        if bytes.len() < 2 {
            return Err(TagError::ShortUint16);
        }
        Ok((DecodedTagValue::Unsigned(read_u16(bytes, 0) as u64), 2))
    } else if base_type == TAGTYPE_UINT8 || base_type == TAGTYPE_BOOL {
        if bytes.len() < 1 {
            return Err(TagError::ShortUint8);
        }
        if base_type == TAGTYPE_BOOL {
            Ok((DecodedTagValue::Bool(bytes[0] != 0), 1))
        } else {
            Ok((DecodedTagValue::Unsigned(bytes[0] as u64), 1))
        }
    } else if base_type == TAGTYPE_FLOAT32 {
        if bytes.len() < 4 {
            return Err(TagError::ShortFloat32);
        }
        Ok((DecodedTagValue::Float32(read_u32(bytes, 0)), 4))
    } else if base_type == TAGTYPE_HASH {
        if bytes.len() < 16 {
            return Err(TagError::ShortHash);
        }
        Ok((DecodedTagValue::Hash(read_16(bytes, 0)), 16))
    } else if base_type == TAGTYPE_BOOLARRAY {
        if bytes.len() < 2 {
            return Err(TagError::ShortBoolArrayLength);
        }
        let len: usize = read_u16(bytes, 0) as usize / 8 + 1;
        if bytes.len() - 2 < len {
            return Err(TagError::ShortBoolArray);
        }
        let value = to_vec(vstd::slice::slice_subrange(bytes, 2, 2 + len));
        Ok((DecodedTagValue::BoolArray(value), 2 + len))
    } else if base_type == TAGTYPE_BLOB {
        if bytes.len() < 4 {
            return Err(TagError::ShortBlobLength);
        }
        let len: usize = read_u32(bytes, 0) as usize;
        if bytes.len() - 4 < len {
            return Err(TagError::ShortBlob);
        }
        let value = to_vec(vstd::slice::slice_subrange(bytes, 4, 4 + len));
        Ok((DecodedTagValue::Blob(value), 4 + len))
    } else {
        Err(TagError::UnsupportedType(base_type))
    }
}

/// Decodes the tag that opens `bytes`: its single-byte name where it has one,
/// its value, and what follows it.
pub fn decode_tag_value(bytes: &[u8]) -> (r: Result<
    (Option<u8>, Option<DecodedTagValue>, &[u8]),
    TagError,
>)
    ensures
        match r {
            Ok((name, value, rest)) => match decoded_tag(bytes@) {
                Ok((tag_name, tag_value, len)) => {
                    &&& name == tag_name
                    &&& value matches Some(v) && v@ == tag_value
                    &&& rest@ == bytes@.skip(len)
                    &&& 2 <= len <= bytes@.len()
                },
                Err(_) => false,
            },
            Err(e) => decoded_tag(bytes@) == Err::<(Option<u8>, TagValueView, int), _>(e),
        },
{
    let (name, at) = match decode_tag_name(bytes) {
        Ok(x) => x,
        Err(e) => return Err(e),
    };
    let base_type: u8 = bytes[0] % 0x80;
    match decode_value(base_type, suffix(bytes, at)) {
        Ok((value, len)) => {
            let rest = suffix(bytes, at + len);
            Ok((name, Some(value), rest))
        },
        Err(e) => Err(e),
    }
}

/// The text of a value that is a string.
pub open spec fn text_of_value(value: TagValueView) -> Option<Seq<char>> {
    match value {
        TagValueView::Text(s) => Some(s),
        _ => None,
    }
}

/// Decodes the tag that opens `bytes`, with its value only where it is a
/// string.
pub fn decode_tag(bytes: &[u8]) -> (r: Result<(Option<u8>, Option<String>, &[u8]), TagError>)
    ensures
        match r {
            Ok((name, value, rest)) => match decoded_tag(bytes@) {
                Ok((tag_name, tag_value, len)) => {
                    &&& name == tag_name
                    &&& opt_text(value) == text_of_value(tag_value)
                    &&& rest@ == bytes@.skip(len)
                    &&& 2 <= len <= bytes@.len()
                },
                Err(_) => false,
            },
            Err(e) => decoded_tag(bytes@) == Err::<(Option<u8>, TagValueView, int), _>(e),
        },
{
    match decode_tag_value(bytes) {
        Ok((name, value, rest)) => {
            let text = match value {
                Some(DecodedTagValue::String(s)) => Some(s),
                _ => None,
            };
            Ok((name, text, rest))
        },
        Err(e) => Err(e),
    }
}

/// A number tag with a long name reads back, whatever follows it.
pub proof fn law_u32_tag_reads_back(name: u8, value: u32, rest: Seq<u8>)
    ensures
        decoded_tag(u32_tag(name, value) + rest) == Ok::<_, TagError>(
            (Some(name), TagValueView::Unsigned(value as u64), u32_tag(name, value).len() as int),
        ),
{
    let b = u32_tag(name, value) + rest;
    assert(b.subrange(1, 3) =~= u16_le(1));
    crate::bytes::lemma_le16(1, b, 1);
    assert(b.skip(4).subrange(0, 4) =~= u32_le(value));
    crate::bytes::lemma_le32(value, b.skip(4), 0);
}

/// A number tag of any size reads back as the number, whatever follows it.
pub proof fn law_short_int_tag_reads_back(name: u8, value: u64, rest: Seq<u8>)
    ensures
        decoded_tag(short_int_tag(name, value) + rest) == Ok::<_, TagError>(
            (Some(name), TagValueView::Unsigned(value), short_int_tag(name, value).len() as int),
        ),
{
    let b = short_int_tag(name, value) + rest;
    let v = b.skip(2);
    assert(b[0] == short_int_tag(name, value)[0]);
    assert(b[1] == name);
    if value <= u8::MAX {
        assert(v[0] == value as u8);
    } else if value <= u16::MAX {
        assert(v.subrange(0, 2) =~= u16_le(value as u16));
        crate::bytes::lemma_le16(value as u16, v, 0);
    } else if value <= u32::MAX {
        assert(v.subrange(0, 4) =~= u32_le(value as u32));
        crate::bytes::lemma_le32(value as u32, v, 0);
    } else {
        assert(v.subrange(0, 8) =~= u64_le(value));
        crate::bytes::lemma_le64(value, v, 0);
    }
}

/// A four-byte number tag with a short name reads back, whatever follows it.
pub proof fn law_short_u32_tag_reads_back(name: u8, value: u32, rest: Seq<u8>)
    ensures
        decoded_tag(short_u32_tag(name, value) + rest) == Ok::<_, TagError>(
            (
                Some(name),
                TagValueView::Unsigned(value as u64),
                short_u32_tag(name, value).len() as int,
            ),
        ),
{
    let b = short_u32_tag(name, value) + rest;
    assert(b[0] == 0x83u8 && b[1] == name);
    assert(b.skip(2).subrange(0, 4) =~= u32_le(value));
    crate::bytes::lemma_le32(value, b.skip(2), 0);
}

/// A string tag with a long name reads back as the text, whatever follows it.
pub proof fn law_string_tag_reads_back(name: u8, text: Seq<char>, rest: Seq<u8>)
    requires
        encode_utf8(text).len() <= u16::MAX,
    ensures
        decoded_tag(string_tag(name, text) + rest) == Ok::<_, TagError>(
            (Some(name), TagValueView::Text(text), string_tag(name, text).len() as int),
        ),
{
    let bytes = encode_utf8(text);
    let b = string_tag(name, text) + rest;
    assert(b.subrange(1, 3) =~= u16_le(1));
    crate::bytes::lemma_le16(1, b, 1);
    let v = b.skip(4);
    assert(v.subrange(0, 2) =~= u16_le(bytes.len() as u16));
    crate::bytes::lemma_le16(bytes.len() as u16, v, 0);
    assert(v.subrange(2, 2 + bytes.len() as int) =~= bytes);
    crate::text::law_text_survives_utf8(text);
}

/// A string tag with a short name reads back as the text, whatever follows it.
pub proof fn law_short_string_tag_reads_back(name: u8, text: Seq<char>, rest: Seq<u8>)
    requires
        encode_utf8(text).len() <= u16::MAX,
    ensures
        decoded_tag(short_string_tag(name, text) + rest) == Ok::<_, TagError>(
            (Some(name), TagValueView::Text(text), short_string_tag(name, text).len() as int),
        ),
{
    let bytes = encode_utf8(text);
    let b = short_string_tag(name, text) + rest;
    let v = b.skip(2);
    let tag_type = string_tag_type(bytes.len() as int);
    assert(b[0] == (0x80 + tag_type) as u8 && b[1] == name);
    if tag_type == TAGTYPE_STRING {
        assert(v.subrange(0, 2) =~= u16_le(bytes.len() as u16));
        crate::bytes::lemma_le16(bytes.len() as u16, v, 0);
        assert(v.subrange(2, 2 + bytes.len() as int) =~= bytes);
    } else {
        assert(v.subrange(0, bytes.len() as int) =~= bytes);
    }
    crate::text::law_text_survives_utf8(text);
}

/// The tags that open `b`, as many as `n`, with the name and the value of each,
/// and what follows them.
pub open spec fn tag_list(b: Seq<u8>, n: nat) -> Option<
    (Seq<(Option<u8>, TagValueView)>, Seq<u8>),
>
    decreases n,
{
    if n == 0 {
        Some((Seq::empty(), b))
    } else {
        match decoded_tag(b) {
            Err(_) => None,
            Ok((name, value, len)) => match tag_list(b.skip(len), (n - 1) as nat) {
                None => None,
                Some((more, rest)) => Some((seq![(name, value)] + more, rest)),
            },
        }
    }
}

/// A list of tags begins with the tag that opens the bytes.
pub proof fn lemma_tag_list_step(
    tag: Seq<u8>,
    name: u8,
    value: TagValueView,
    more: Seq<u8>,
    n: nat,
    list: Seq<(Option<u8>, TagValueView)>,
    rest: Seq<u8>,
)
    requires
        decoded_tag(tag + more) == Ok::<_, TagError>((Some(name), value, tag.len() as int)),
        tag_list(more, n) == Some((list, rest)),
    ensures
        tag_list(tag + more, n + 1) == Some((seq![(Some(name), value)] + list, rest)),
{
    assert((tag + more).skip(tag.len() as int) =~= more);
}

/// A number of one, two, four or eight bytes is read by its type.
#[verifier::rlimit(60)]
pub proof fn law_numbers_are_read_by_their_type(n: u64, rest: Seq<u8>)
    ensures
        n <= 0xFF ==> tag_value(0x09, seq![n as u8] + rest) == Ok::<_, TagError>(
            (TagValueView::Unsigned(n), 1int),
        ),
        n <= 0xFFFF ==> tag_value(0x08, u16_le(n as u16) + rest) == Ok::<_, TagError>(
            (TagValueView::Unsigned(n), 2int),
        ),
        n <= 0xFFFF_FFFF ==> tag_value(0x03, u32_le(n as u32) + rest) == Ok::<_, TagError>(
            (TagValueView::Unsigned(n), 4int),
        ),
        tag_value(0x0B, u64_le(n) + rest) == Ok::<_, TagError>((TagValueView::Unsigned(n), 8int)),
{
    if n <= 0xFFFF_FFFF {
        let v = u32_le(n as u32) + rest;
        assert(v.subrange(0, 4) =~= u32_le(n as u32));
        crate::bytes::lemma_le32(n as u32, v, 0);
    }
    if n <= 0xFFFF {
        let w = u16_le(n as u16) + rest;
        assert(w.subrange(0, 2) =~= u16_le(n as u16));
        crate::bytes::lemma_le16(n as u16, w, 0);
    }
    if n <= 0xFF {
        assert((seq![n as u8] + rest)[0] == n as u8);
    }
    let v = u64_le(n) + rest;
    assert(v.subrange(0, 8) =~= u64_le(n));
    crate::bytes::lemma_le64(n, v, 0);
}

/// A text is read behind its two-byte length, or, from one to sixteen bytes, in
/// as many as its type says.
pub proof fn law_texts_are_read_by_their_type(text: Seq<char>, rest: Seq<u8>)
    requires
        encode_utf8(text).len() <= 65535,
    ensures
        tag_value(0x02, u16_le(encode_utf8(text).len() as u16) + encode_utf8(text) + rest) == Ok::<
            _,
            TagError,
        >((TagValueView::Text(text), 2 + encode_utf8(text).len() as int)),
        1 <= encode_utf8(text).len() <= 16 ==> tag_value(
            (0x10 + encode_utf8(text).len()) as u8,
            encode_utf8(text) + rest,
        ) == Ok::<_, TagError>((TagValueView::Text(text), encode_utf8(text).len() as int)),
{
    let t = encode_utf8(text);
    crate::text::law_text_survives_utf8(text);
    assert((t + rest).subrange(0, t.len() as int) =~= t);
    let v = u16_le(t.len() as u16) + t + rest;
    assert(v.subrange(0, 2) =~= u16_le(t.len() as u16));
    crate::bytes::lemma_le16(t.len() as u16, v, 0);
    assert(v.subrange(2, 2 + t.len() as int) =~= t);
}

/// A hash, the bits of a float, a truth value, bits behind their number and a
/// blob behind its four-byte length are read by their types.
#[verifier::rlimit(60)]
pub proof fn law_other_values_are_read_by_their_type(
    hash: Seq<u8>,
    float: u32,
    truth: u8,
    bit_count: u16,
    bits: Seq<u8>,
    blob: Seq<u8>,
    rest: Seq<u8>,
)
    requires
        hash.len() == 16,
        bits.len() == bit_count as int / 8 + 1,
        blob.len() <= u32::MAX,
    ensures
        tag_value(0x01, hash + rest) == Ok::<_, TagError>((TagValueView::Hash(hash), 16int)),
        tag_value(0x04, u32_le(float) + rest) == Ok::<_, TagError>(
            (TagValueView::Float32(float), 4int),
        ),
        tag_value(0x05, seq![truth] + rest) == Ok::<_, TagError>(
            (TagValueView::Bool(truth != 0), 1int),
        ),
        tag_value(0x06, u16_le(bit_count) + bits + rest) == Ok::<_, TagError>(
            (TagValueView::BoolArray(bits), 2 + bits.len() as int),
        ),
        tag_value(0x07, u32_le(blob.len() as u32) + blob + rest) == Ok::<_, TagError>(
            (TagValueView::Blob(blob), 4 + blob.len() as int),
        ),
{
    assert((hash + rest).subrange(0, 16) =~= hash);
    let v = u32_le(float) + rest;
    assert(v.subrange(0, 4) =~= u32_le(float));
    crate::bytes::lemma_le32(float, v, 0);
    assert((seq![truth] + rest)[0] == truth);
    let v = u16_le(bit_count) + bits + rest;
    assert(v.subrange(0, 2) =~= u16_le(bit_count));
    crate::bytes::lemma_le16(bit_count, v, 0);
    assert(v.subrange(2, 2 + bits.len() as int) =~= bits);
    let v = u32_le(blob.len() as u32) + blob + rest;
    assert(v.subrange(0, 4) =~= u32_le(blob.len() as u32));
    crate::bytes::lemma_le32(blob.len() as u32, v, 0);
    assert(v.subrange(4, 4 + blob.len() as int) =~= blob);
}

/// The name of a tag is the byte behind its type where the high bit of the type
/// is set; else it stands behind a two-byte length, and counts where that is
/// one.
pub proof fn law_names_are_short_or_long(kind: u8, name: Seq<u8>, value: Seq<u8>)
    requires
        kind < 0x80,
        name.len() <= 65535,
    ensures
        name.len() == 1 ==> tag_name(seq![(0x80 + kind) as u8] + name + value) == Ok::<_, TagError>(
            (Some(name[0]), 2int),
        ),
        tag_name(
            seq![kind] + u16_le(name.len() as u16) + name + value,
        ) == Ok::<_, TagError>(
            (
                if name.len() == 1 {
                    Some(name[0])
                } else {
                    None
                },
                3 + name.len() as int,
            ),
        ),
{
    if name.len() == 1 {
        let b = seq![(0x80 + kind) as u8] + name + value;
        assert(b[0] == 0x80 + kind && b[1] == name[0]);
    }
    let b = seq![kind] + u16_le(name.len() as u16) + name + value;
    assert(b[0] == kind);
    assert(b.subrange(1, 3) =~= u16_le(name.len() as u16));
    crate::bytes::lemma_le16(name.len() as u16, b, 1);
    if name.len() == 1 {
        assert(b[3] == name[0]);
    }
}

/// A tag is its name and the value of its type, and is as long as the two.
pub proof fn law_tag_is_its_name_and_its_value(b: Seq<u8>)
    requires
        tag_name(b) is Ok,
    ensures
        ({
            let (name, at) = tag_name(b)->Ok_0;
            let kind = if b[0] >= 0x80 {
                (b[0] - 0x80) as u8
            } else {
                b[0]
            };
            match tag_value(kind, b.skip(at)) {
                Ok((value, len)) => decoded_tag(b) == Ok::<_, TagError>((name, value, at + len)),
                Err(e) => decoded_tag(b) == Err::<(Option<u8>, TagValueView, int), _>(e),
            }
        }),
{
}

/// A text behind its length reads back; what follows it does not matter.
pub proof fn law_plain_string_reads_back(text: Seq<char>, rest: Seq<u8>)
    requires
        encode_utf8(text).len() <= 65535,
    ensures
        ed2k_string(u16_le(encode_utf8(text).len() as u16) + encode_utf8(text) + rest) == Ok::<
            _,
            TagError,
        >(Some(text)),
{
    let t = encode_utf8(text);
    let v = u16_le(t.len() as u16) + t + rest;
    crate::text::law_text_survives_utf8(text);
    assert(v.subrange(0, 2) =~= u16_le(t.len() as u16));
    crate::bytes::lemma_le16(t.len() as u16, v, 0);
    assert(v.subrange(2, 2 + t.len() as int) =~= t);
}

/// A number goes out in the fewest bytes that hold it: one, two, four or eight.
pub proof fn law_number_tags_are_short(name: u8, value: u64)
    ensures
        short_int_tag(name, value).len() == 2 + (if value < 0x100 {
            1int
        } else if value < 0x1_0000 {
            2
        } else if value < 0x1_0000_0000 {
            4
        } else {
            8
        }),
{
}

} // verus!
